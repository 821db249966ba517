use line_sampler::emit::render;
use line_sampler::lines::{split_lines, LineSplitter};

fn strs(lines: &[Vec<u8>]) -> Vec<String> {
    lines.iter().map(|l| String::from_utf8(l.clone()).unwrap()).collect()
}

#[test]
fn split_terminated_lines() {
    assert_eq!(strs(&split_lines(b"a\nb\nc\n")), vec!["a", "b", "c"]);
}

#[test]
fn split_empty_input() {
    assert!(split_lines(b"").is_empty());
}

#[test]
fn split_final_line_without_newline() {
    assert_eq!(strs(&split_lines(b"a\nx")), vec!["a", "x"]);
    assert_eq!(strs(&split_lines(b"x")), vec!["x"]);
}

#[test]
fn split_keeps_carriage_return_and_empty_lines() {
    assert_eq!(strs(&split_lines(b"a\r\n\n\nb")), vec!["a\r", "", "", "b"]);
    assert_eq!(strs(&split_lines(b"\n")), vec![""]);
}

#[test]
fn splitter_joins_lines_across_chunks() {
    let mut s = LineSplitter::new();
    let first = s.feed(b"he");
    assert!(first.is_empty());
    let second = s.feed(b"llo\nwor");
    assert_eq!(strs(&second), vec!["hello"]);
    let third = s.feed(b"ld\n\nta");
    assert_eq!(strs(&third), vec!["world", ""]);
    assert_eq!(s.finish(), Some(b"ta".to_vec()));
}

#[test]
fn splitter_finish_after_newline_is_none() {
    let mut s = LineSplitter::new();
    assert_eq!(strs(&s.feed(b"a\n")), vec!["a"]);
    assert_eq!(s.finish(), None);
}

#[test]
fn render_terminates_each_record() {
    let records = vec![b"x".to_vec(), b"".to_vec(), b"yz".to_vec()];
    assert_eq!(render(&records), b"x\n\nyz\n".to_vec());
    assert_eq!(render(&Vec::new()), Vec::<u8>::new());
}
