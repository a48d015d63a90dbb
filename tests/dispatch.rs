use rusty_sender::dispatch::Dispatcher;

fn run(lines: &[&str], batch_size: usize) -> (Vec<Vec<u8>>, usize) {
    let mut d = Dispatcher::new(batch_size);
    let mut frames = Vec::new();
    for line in lines {
        assert!(d.can_take());
        if let Some(f) = d.push_record(line.as_bytes().to_vec()) {
            frames.push(f);
        }
    }
    if let Some(f) = d.finish() {
        frames.push(f);
    }
    (frames, d.records_sent())
}

fn split_records(frames: &[Vec<u8>]) -> Vec<Vec<u8>> {
    let all: Vec<u8> = frames.concat();
    all.split(|b| *b == b'\n')
        .filter(|s| !s.is_empty())
        .map(|s| s.to_vec())
        .collect()
}

#[test]
fn stream_run_three_records() {
    let (frames, sent) = run(&["a", "b", "c"], 2);
    assert_eq!(frames, vec![b"a\nb\n".to_vec(), b"c\n".to_vec()]);
    assert_eq!(split_records(&frames), vec![b"a".to_vec(), b"b".to_vec(), b"c".to_vec()]);
    assert_eq!(sent, 3);
}

#[test]
fn datagram_run_five_records() {
    let (frames, sent) = run(&["1", "2", "3", "4", "5"], 2);
    assert_eq!(frames.len(), 3);
    let expected: Vec<Vec<u8>> = ["1", "2", "3", "4", "5"].iter().map(|s| s.as_bytes().to_vec()).collect();
    assert_eq!(split_records(&frames), expected);
    assert_eq!(sent, 5);
}

#[test]
fn empty_run_sends_nothing() {
    let (frames, sent) = run(&[], 4);
    assert!(frames.is_empty());
    assert_eq!(sent, 0);
}

#[test]
fn default_batch_holds_short_input_in_one_frame() {
    let (frames, sent) = run(&["alpha", "beta"], 64);
    assert_eq!(frames, vec![b"alpha\nbeta\n".to_vec()]);
    assert_eq!(sent, 2);
}

#[test]
fn count_grows_only_when_frames_go_out() {
    let mut d = Dispatcher::new(3);
    assert_eq!(d.push_record(b"x".to_vec()), None);
    assert_eq!(d.records_sent(), 0);
    assert_eq!(d.push_record(b"y".to_vec()), None);
    assert_eq!(d.push_record(b"z".to_vec()), Some(b"x\ny\nz\n".to_vec()));
    assert_eq!(d.records_sent(), 3);
    assert_eq!(d.finish(), None);
    assert_eq!(d.records_sent(), 3);
}
