//! Interpretation of the command line
//! `<program> [--batch-size N] <file_path> <hostname> <port> <tcp|udp>`.

use vstd::prelude::*;
use crate::config::{batch_size_from_args, flag_batch_size_from};
use crate::dispatch::Transport;
use vstd::string::StringExecFns;
use crate::text::{chars_equal, lower_of, lowercase, nat_opt, starts_with};

verus! {

/// Program name used in the usage message when the arguments hold none.
pub open spec fn program_name(args: Seq<String>) -> Seq<char> {
    if args.len() > 0 {
        args[0]@
    } else {
        "rusty_sender"@
    }
}

/// The positional arguments of `args` from index `i` on: every argument but
/// the batch-size flag, which is a `--batch-size=V` token or a `--batch-size`
/// token together with the argument after it (recognised as
/// `flag_batch_size_from` does).
pub open spec fn positionals_from(args: Seq<String>, i: int) -> Seq<Seq<char>>
    decreases args.len() - i,
{
    if i < 0 || i >= args.len() {
        Seq::empty()
    } else if "--batch-size="@.is_prefix_of(args[i]@) {
        positionals_from(args, i + 1)
    } else if args[i]@ == "--batch-size"@ && i + 1 < args.len() {
        positionals_from(args, i + 2)
    } else {
        seq![args[i]@] + positionals_from(args, i + 1)
    }
}

/// Strings as sequences of chars.
pub open spec fn strings_view(v: Seq<String>) -> Seq<Seq<char>> {
    v.map_values(|a: String| a@)
}

/// The usage message for a program name.
pub open spec fn usage_text(program: Seq<char>) -> Seq<char> {
    "Usage: "@ + program + " [--batch-size N] <file_path> <hostname> <port> <tcp/udp>"@
}

/// The transport that a lowercased protocol token names.
pub open spec fn transport_spec(token: Seq<char>) -> Option<Transport> {
    if token == "tcp"@ {
        Some(Transport::Stream)
    } else if token == "udp"@ {
        Some(Transport::Datagram)
    } else {
        None
    }
}

/// Why the command line cannot start a run.
#[derive(Debug, Clone, PartialEq, Eq)]
pub enum ArgsError {
    /// Too few arguments; holds the usage message.
    Usage(String),
    /// The protocol token, lowercased, names no transport.
    InvalidProtocol(String),
}

/// A command line with all required arguments.
#[derive(Debug, Clone)]
pub struct Invocation {
    /// The file whose lines are sent.
    pub file_path: String,
    /// The receiver's host name or address.
    pub hostname: String,
    /// The receiver's port, as given.
    pub port: String,
    /// The protocol token, lowercased.
    pub protocol: String,
    /// The batch size given by a `--batch-size` flag, if a valid one is given.
    pub batch_size_flag: Option<usize>,
}

/// The usage message for `program`.
pub fn usage_message(program: &str) -> (r: String)
    ensures
        r@ == usage_text(program@),
{
    let mut s = String::new();
    s.append("Usage: ");
    s.append(program);
    s.append(" [--batch-size N] <file_path> <hostname> <port> <tcp/udp>");
    s
}

/// The endpoint text `host:port` that name resolution is given.
pub fn target_address(hostname: &str, port: &str) -> (r: String)
    ensures
        r@ == hostname@ + ":"@ + port@,
{
    let mut s = String::new();
    s.append(hostname);
    s.append(":");
    s.append(port);
    s
}

/// The arguments that are not part of a batch-size flag, in order; the
/// program name comes first.
pub fn positional_args(args: &[String]) -> (r: Vec<String>)
    ensures
        strings_view(r@) == positionals_from(args@, 0),
{
    let mut out: Vec<String> = Vec::new();
    let mut i: usize = 0;
    while i < args.len()
        invariant
            i <= args@.len(),
            positionals_from(args@, 0) == strings_view(out@) + positionals_from(args@, i as int),
        decreases args@.len() - i,
    {
        let a = args[i].as_str();
        if starts_with(a, "--batch-size=") {
            i = i + 1;
        } else if chars_equal(a, "--batch-size") && i + 1 < args.len() {
            i = i + 2;
        } else {
            let ghost before = strings_view(out@);
            out.push(args[i].clone());
            assert(strings_view(out@) =~= before.push(args@[i as int]@));
            assert(before.push(args@[i as int]@) + positionals_from(args@, i + 1) =~= before + (
            seq![args@[i as int]@] + positionals_from(args@, i + 1)));
            i = i + 1;
        }
    }
    assert(strings_view(out@) + Seq::<Seq<char>>::empty() =~= strings_view(out@));
    out
}

/// Reads the positional arguments and the batch-size flag, which may stand
/// anywhere among them. Fails with the usage message exactly when fewer than
/// five positional arguments (the program name included) are given.
pub fn parse_args(args: &[String]) -> (r: Result<Invocation, ArgsError>)
    ensures
        positionals_from(args@, 0).len() < 5 <==> r is Err,
        positionals_from(args@, 0).len() < 5 ==> (r matches Err(ArgsError::Usage(m)) && m@ == usage_text(
            program_name(args@),
        )),
        positionals_from(args@, 0).len() >= 5 ==> (r matches Ok(inv) && {
            let p = positionals_from(args@, 0);
            &&& inv.file_path@ == p[1]
            &&& inv.hostname@ == p[2]
            &&& inv.port@ == p[3]
            &&& inv.protocol@ == lower_of(p[4])
            &&& nat_opt(inv.batch_size_flag) == flag_batch_size_from(args@, 0)
        }),
{
    let pos = positional_args(args);
    if pos.len() < 5 {
        let msg = if args.len() > 0 {
            usage_message(args[0].as_str())
        } else {
            usage_message("rusty_sender")
        };
        return Err(ArgsError::Usage(msg));
    }
    assert(pos@[1]@ == strings_view(pos@)[1]);
    assert(pos@[2]@ == strings_view(pos@)[2]);
    assert(pos@[3]@ == strings_view(pos@)[3]);
    assert(pos@[4]@ == strings_view(pos@)[4]);
    Ok(Invocation {
        file_path: pos[1].clone(),
        hostname: pos[2].clone(),
        port: pos[3].clone(),
        protocol: lowercase(pos[4].as_str()),
        batch_size_flag: batch_size_from_args(args),
    })
}

/// The transport that a lowercased protocol token selects: `tcp` the stream
/// transport, `udp` the datagram one; any other token is refused with itself.
pub fn select_transport(protocol: &str) -> (r: Result<Transport, ArgsError>)
    ensures
        transport_spec(protocol@) matches Some(t) ==> r == Ok::<Transport, ArgsError>(t),
        transport_spec(protocol@) is None ==> (r matches Err(ArgsError::InvalidProtocol(p)) && p@ == protocol@),
{
    if chars_equal(protocol, "tcp") {
        Ok(Transport::Stream)
    } else if chars_equal(protocol, "udp") {
        Ok(Transport::Datagram)
    } else {
        Err(ArgsError::InvalidProtocol(protocol.to_string()))
    }
}

} // verus!
