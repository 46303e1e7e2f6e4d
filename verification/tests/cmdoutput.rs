use shellcore::cmdoutput::{append_bytes, CmdOutput};

#[test]
fn new_output_is_empty_and_successful() {
    let out = CmdOutput::new();
    assert!(out.stdout.is_empty());
    assert!(out.stderr.is_empty());
    assert_eq!(out.code, 0);
}

#[test]
fn from_parts_keeps_the_parts() {
    let out = CmdOutput::from_parts(b"out".to_vec(), b"err".to_vec(), 42);
    assert_eq!(out.stdout, b"out".to_vec());
    assert_eq!(out.stderr, b"err".to_vec());
    assert_eq!(out.code, 42);
}

#[test]
fn merge_appends_streams_and_takes_the_last_code() {
    let mut first = CmdOutput::from_parts(b"one\n".to_vec(), b"e1".to_vec(), 0);
    let second = CmdOutput::from_parts(b"two\n".to_vec(), b"e2".to_vec(), 5);
    first.merge(&second);
    assert_eq!(first.stdout, b"one\ntwo\n".to_vec());
    assert_eq!(first.stderr, b"e1e2".to_vec());
    assert_eq!(first.code, 5);
    assert_eq!(second, CmdOutput::from_parts(b"two\n".to_vec(), b"e2".to_vec(), 5));
}

#[test]
fn merge_of_success_after_failure_is_success() {
    let mut first = CmdOutput::from_parts(vec![], vec![], 3);
    first.merge(&CmdOutput::new());
    assert_eq!(first, CmdOutput::new());
}

#[test]
fn merge_into_empty_is_the_other() {
    let mut out = CmdOutput::new();
    let other = CmdOutput::from_parts(vec![0, 255, 10], vec![7], -1);
    out.merge(&other);
    assert_eq!(out, other);
}

#[test]
fn clone_is_equal_and_independent() {
    let source = CmdOutput::from_parts(b"abc".to_vec(), b"x".to_vec(), 9);
    let mut copy = source.clone();
    assert_eq!(copy, source);
    copy.merge(&source);
    assert_eq!(source.stdout, b"abc".to_vec());
    assert_eq!(copy.stdout, b"abcabc".to_vec());
}

#[test]
fn append_bytes_keeps_order() {
    let mut dst = vec![1u8, 2];
    append_bytes(&mut dst, &vec![3, 4, 5]);
    assert_eq!(dst, vec![1, 2, 3, 4, 5]);
    append_bytes(&mut dst, &vec![]);
    assert_eq!(dst, vec![1, 2, 3, 4, 5]);
}
