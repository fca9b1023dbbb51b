use chat_relay::framing::{encode_line, read_frames, split_lines};

fn lines(text: &str) -> Vec<String> {
    split_lines(text)
}

#[test]
fn splits_terminated_lines() {
    assert_eq!(lines("hello\nworld\n"), vec!["hello".to_string(), "world".to_string()]);
}

#[test]
fn trims_each_line() {
    assert_eq!(lines("  a b \t\r\n"), vec!["a b".to_string()]);
}

#[test]
fn skips_empty_and_blank_lines() {
    assert_eq!(lines("\n\n  \t \nx\n\n"), vec!["x".to_string()]);
}

#[test]
fn drops_unterminated_tail() {
    assert_eq!(lines("one\ntwo"), vec!["one".to_string()]);
    assert!(lines("no newline at all").is_empty());
    assert!(lines("").is_empty());
}

#[test]
fn trims_unicode_white_space() {
    assert_eq!(lines("\u{3000}x\u{00A0}\u{2009}\n"), vec!["x".to_string()]);
    assert_eq!(lines("\u{85}y\u{1680}\n"), vec!["y".to_string()]);
}

#[test]
fn keeps_inner_white_space_and_non_space_marks() {
    assert_eq!(lines("\u{200B}a  b\u{200B}\n"), vec!["\u{200B}a  b\u{200B}".to_string()]);
}

#[test]
fn read_frames_replaces_invalid_utf8() {
    let chunk: &[u8] = b"a\xffb\n";
    assert_eq!(read_frames(chunk), vec!["a\u{FFFD}b".to_string()]);
}

#[test]
fn read_frames_of_valid_bytes() {
    let chunk = "{\"Hello\":{\"user\":\"aa\"}}\n{\"ClientAck\":{\"ts\":3}}\npartial".as_bytes();
    assert_eq!(
        read_frames(chunk),
        vec!["{\"Hello\":{\"user\":\"aa\"}}".to_string(), "{\"ClientAck\":{\"ts\":3}}".to_string()]
    );
}

#[test]
fn encode_line_appends_newline() {
    assert_eq!(encode_line(b"{}"), b"{}\n".to_vec());
    assert_eq!(encode_line(b""), b"\n".to_vec());
}

#[test]
fn written_frames_are_read_back() {
    let frames = ["first frame", "{\"Msg\":{}}", "caf\u{e9}"];
    let mut wire: Vec<u8> = Vec::new();
    for f in frames.iter() {
        wire.extend(encode_line(f.as_bytes()));
    }
    let read = read_frames(&wire);
    assert_eq!(read, frames.iter().map(|f| f.to_string()).collect::<Vec<_>>());
}
