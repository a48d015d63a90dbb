use rusty_sender::cli::{
    parse_args, positional_args, select_transport, target_address, usage_message, ArgsError,
};
use rusty_sender::dispatch::Transport;

fn strings(items: &[&str]) -> Vec<String> {
    items.iter().map(|s| s.to_string()).collect()
}

#[test]
fn test_run_with_args_usage_error() {
    let args = strings(&["prog", "only_one"]);
    match parse_args(&args) {
        Err(ArgsError::Usage(msg)) => assert!(msg.contains("Usage:")),
        other => panic!("unexpected error: {:?}", other),
    }
}

#[test]
fn test_run_with_args_invalid_protocol() {
    let args = strings(&["prog", "file", "localhost", "514", "icmp"]);
    let inv = parse_args(&args).unwrap();
    match select_transport(&inv.protocol) {
        Err(ArgsError::InvalidProtocol(p)) => assert_eq!(p, "icmp"),
        other => panic!("unexpected error: {:?}", other),
    }
}

#[test]
fn usage_message_names_program() {
    assert_eq!(
        usage_message("prog"),
        "Usage: prog [--batch-size N] <file_path> <hostname> <port> <tcp/udp>"
    );
}

#[test]
fn usage_without_program_name() {
    match parse_args(&[]) {
        Err(ArgsError::Usage(msg)) => assert!(msg.starts_with("Usage: rusty_sender ")),
        other => panic!("unexpected error: {:?}", other),
    }
}

#[test]
fn parse_args_reads_positionals_and_lowercases_protocol() {
    let args = strings(&["prog", "data.log", "127.0.0.1", "9090", "UDP", "--batch-size=8"]);
    let inv = parse_args(&args).unwrap();
    assert_eq!(inv.file_path, "data.log");
    assert_eq!(inv.hostname, "127.0.0.1");
    assert_eq!(inv.port, "9090");
    assert_eq!(inv.protocol, "udp");
    assert_eq!(inv.batch_size_flag, Some(8));
    assert_eq!(select_transport(&inv.protocol), Ok(Transport::Datagram));
}

#[test]
fn select_transport_tokens() {
    assert_eq!(select_transport("tcp"), Ok(Transport::Stream));
    assert_eq!(select_transport("udp"), Ok(Transport::Datagram));
    assert_eq!(select_transport("TCP"), Err(ArgsError::InvalidProtocol("TCP".to_string())));
}

#[test]
fn target_address_joins_host_and_port() {
    assert_eq!(target_address("127.0.0.1", "9090"), "127.0.0.1:9090");
}

#[test]
fn flag_before_positionals_is_skipped() {
    let args = strings(&["prog", "--batch-size", "8", "data.log", "127.0.0.1", "9090", "tcp"]);
    let inv = parse_args(&args).unwrap();
    assert_eq!(inv.file_path, "data.log");
    assert_eq!(inv.hostname, "127.0.0.1");
    assert_eq!(inv.port, "9090");
    assert_eq!(inv.protocol, "tcp");
    assert_eq!(inv.batch_size_flag, Some(8));
}

#[test]
fn flag_with_equals_before_positionals_is_skipped() {
    let args = strings(&["prog", "--batch-size=16", "f", "h", "514", "udp"]);
    let inv = parse_args(&args).unwrap();
    assert_eq!(inv.file_path, "f");
    assert_eq!(inv.hostname, "h");
    assert_eq!(inv.port, "514");
    assert_eq!(inv.protocol, "udp");
    assert_eq!(inv.batch_size_flag, Some(16));
}

#[test]
fn flag_does_not_count_as_positional() {
    let args = strings(&["prog", "--batch-size", "8", "f", "h"]);
    match parse_args(&args) {
        Err(ArgsError::Usage(msg)) => assert!(msg.starts_with("Usage: prog ")),
        other => panic!("unexpected error: {:?}", other),
    }
}

#[test]
fn positional_args_drop_flag_tokens() {
    let args = strings(&["prog", "a", "--batch-size", "3", "b", "--batch-size=x", "c"]);
    assert_eq!(positional_args(&args), strings(&["prog", "a", "b", "c"]));
    let trailing = strings(&["prog", "a", "--batch-size"]);
    assert_eq!(positional_args(&trailing), trailing);
}
