//! Resolution of the active batch size from its layered sources: an explicit
//! command-line flag, then an environment override, then a built-in default.

use vstd::prelude::*;
use vstd::string::StrSliceExecFns;
use crate::text::{nat_opt, parse_usize, parse_usize_spec, starts_with, chars_equal};

verus! {

/// Batch size used when neither the flag nor the environment gives a valid one.
pub const DEFAULT_BATCH_SIZE: usize = 64;

/// A batch-size setting read from text: its value when it is a decimal
/// `usize` greater than zero, and `None` (the level counts as absent) otherwise.
pub open spec fn positive_setting(s: Seq<char>) -> Option<nat> {
    match parse_usize_spec(s) {
        Some(v) => if v > 0 {
            Some(v)
        } else {
            None
        },
        None => None,
    }
}

/// The chars of an optional string.
pub open spec fn str_opt_view(o: Option<&str>) -> Option<Seq<char>> {
    match o {
        Some(s) => Some(s@),
        None => None,
    }
}

/// The batch size by precedence: a positive explicit value, else a positive
/// value read from the environment text, else the default.
pub open spec fn resolve_spec(explicit: Option<usize>, env_value: Option<Seq<char>>, default: nat) -> nat {
    if explicit is Some && explicit->0 > 0 {
        explicit->0 as nat
    } else if env_value is Some && positive_setting(env_value->0) is Some {
        positive_setting(env_value->0)->0
    } else {
        default
    }
}

/// The batch size that the command-line arguments `args`, from index `i` on,
/// request: the first argument that is `--batch-size=V`, or `--batch-size`
/// followed by another argument `V`, decides, and gives `V` when it is a
/// positive decimal number and nothing otherwise.
pub open spec fn flag_batch_size_from(args: Seq<String>, i: int) -> Option<nat>
    decreases args.len() - i,
{
    if i < 0 || i >= args.len() {
        None
    } else if "--batch-size="@.is_prefix_of(args[i]@) {
        positive_setting(args[i]@.skip("--batch-size="@.len() as int))
    } else if args[i]@ == "--batch-size"@ && i + 1 < args.len() {
        positive_setting(args[i + 1]@)
    } else {
        flag_batch_size_from(args, i + 1)
    }
}

/// Reads a batch-size setting: `Some` exactly when `s` is a positive decimal
/// number that fits in `usize`.
pub fn batch_size_setting(s: &str) -> (r: Option<usize>)
    ensures
        nat_opt(r) == positive_setting(s@),
{
    match parse_usize(s) {
        Some(v) => if v > 0 {
            Some(v)
        } else {
            None
        },
        None => None,
    }
}

/// Finds the batch size given on the command line, if any.
pub fn batch_size_from_args(args: &[String]) -> (r: Option<usize>)
    ensures
        nat_opt(r) == flag_batch_size_from(args@, 0),
{
    let mut i: usize = 0;
    while i < args.len()
        invariant
            i <= args@.len(),
            flag_batch_size_from(args@, 0) == flag_batch_size_from(args@, i as int),
        decreases args@.len() - i,
    {
        let a = args[i].as_str();
        let with_value = "--batch-size=";
        if starts_with(a, with_value) {
            let k = with_value.unicode_len();
            let n = a.unicode_len();
            let v = a.substring_char(k, n);
            assert(v@ =~= args@[i as int]@.skip("--batch-size="@.len() as int));
            return batch_size_setting(v);
        }
        if chars_equal(a, "--batch-size") && i + 1 < args.len() {
            return batch_size_setting(args[i + 1].as_str());
        }
        i = i + 1;
    }
    None
}

/// Resolves the batch size for a run from the explicit flag value, the text
/// of the environment override and the default; an invalid value at a level
/// (zero, not a number) counts as absent there.
pub fn resolve_batch_size(explicit: Option<usize>, env_value: Option<&str>, default: usize) -> (r: usize)
    requires
        default > 0,
    ensures
        r as nat == resolve_spec(explicit, str_opt_view(env_value), default as nat),
        r > 0,
{
    if let Some(n) = explicit {
        if n > 0 {
            return n;
        }
    }
    if let Some(e) = env_value {
        if let Some(v) = batch_size_setting(e) {
            return v;
        }
    }
    default
}

/// The batch size that the environment override selects: its value when it
/// is a positive decimal number, else `DEFAULT_BATCH_SIZE`.
pub fn batch_size_from_env(env_value: Option<&str>) -> (r: usize)
    ensures
        r as nat == resolve_spec(None, str_opt_view(env_value), DEFAULT_BATCH_SIZE as nat),
        r > 0,
{
    resolve_batch_size(None, env_value, DEFAULT_BATCH_SIZE)
}

} // verus!
