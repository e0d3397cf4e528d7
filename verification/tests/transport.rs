use veil_lsp::transport::{
    classify_header, read_message, write_message, Frame, Header, ReadStep, ReaderState,
};

fn frame_of(body: &[u8]) -> Vec<u8> {
    let mut out = Vec::new();
    write_message(&mut out, body);
    out
}

#[test]
fn frame_states_the_length_of_the_body() {
    assert_eq!(frame_of(b"{\"a\":1}"), b"Content-Length: 7\r\n\r\n{\"a\":1}".to_vec());
    assert_eq!(frame_of(b""), b"Content-Length: 0\r\n\r\n".to_vec());
}

#[test]
fn frame_counts_bytes_not_characters() {
    let body = "\"héllo\"".as_bytes();
    assert_eq!(body.len(), 8);
    let mut expected = b"Content-Length: 8\r\n\r\n".to_vec();
    expected.extend_from_slice(body);
    assert_eq!(frame_of(body), expected);
}

#[test]
fn frame_is_appended_to_what_is_there() {
    let mut out = b"xy".to_vec();
    write_message(&mut out, b"ab");
    assert_eq!(out, b"xyContent-Length: 2\r\n\r\nab".to_vec());
}

#[test]
fn written_frame_reads_back() {
    for length in [0usize, 1, 9, 10, 11, 99, 100, 1000, 70000] {
        let body: Vec<u8> = (0..length).map(|i| (i % 251) as u8).collect();
        let out = frame_of(&body);
        let header = format!("Content-Length: {}\r\n\r\n", length);
        assert!(out.starts_with(header.as_bytes()));
        let frame = read_message(&out, 0).unwrap();
        assert_eq!(frame.body.len(), length);
        assert_eq!(frame.body, body);
        assert_eq!(frame.next, out.len());
    }
}

#[test]
fn frames_are_read_one_after_another() {
    let mut stream = frame_of(b"first");
    write_message(&mut stream, b"second one");
    write_message(&mut stream, b"");
    write_message(&mut stream, b"\nlast\n");
    let a = read_message(&stream, 0).unwrap();
    assert_eq!(a.body, b"first".to_vec());
    let b = read_message(&stream, a.next).unwrap();
    assert_eq!(b.body, b"second one".to_vec());
    let c = read_message(&stream, b.next).unwrap();
    assert_eq!(c.body, b"".to_vec());
    let d = read_message(&stream, c.next).unwrap();
    assert_eq!(d.body, b"\nlast\n".to_vec());
    assert_eq!(d.next, stream.len());
    assert_eq!(read_message(&stream, d.next), None);
}

#[test]
fn end_of_stream_before_a_header() {
    assert_eq!(read_message(b"", 0), None);
    assert_eq!(read_message(b"abc", 3), None);
    assert_eq!(read_message(b"abc", 10), None);
}

#[test]
fn end_of_stream_within_a_header() {
    assert_eq!(read_message(b"Content-Length: 3\r\n", 0), None);
    assert_eq!(read_message(b"Content-Length: 3", 0), None);
}

#[test]
fn truncated_body_ends_the_stream() {
    assert_eq!(read_message(b"Content-Length: 5\r\n\r\nabc", 0), None);
    assert_eq!(
        read_message(b"Content-Length: 3\r\n\r\nabc", 0),
        Some(Frame { body: b"abc".to_vec(), next: 24 })
    );
}

#[test]
fn missing_length_stands_for_an_empty_body() {
    let frame = read_message(b"\r\nrest", 0).unwrap();
    assert_eq!(frame.body, Vec::<u8>::new());
    assert_eq!(frame.next, 2);
    let frame = read_message(b"Content-Type: x\r\n\r\nrest", 0).unwrap();
    assert_eq!(frame.body, Vec::<u8>::new());
    assert_eq!(frame.next, 19);
}

#[test]
fn last_length_wins() {
    let frame = read_message(b"Content-Length: 1\r\nContent-Length: 3\r\n\r\nabcdef", 0).unwrap();
    assert_eq!(frame.body, b"abc".to_vec());
}

#[test]
fn other_headers_are_passed_over() {
    let input = b"Content-Length: 2\r\nContent-Type: application/vscode-jsonrpc\r\n\r\nokrest";
    let frame = read_message(input, 0).unwrap();
    assert_eq!(frame.body, b"ok".to_vec());
    assert_eq!(&input[frame.next..], b"rest");
}

#[test]
fn bare_line_feeds_end_lines_too() {
    let frame = read_message(b"Content-Length: 2\n\nok", 0).unwrap();
    assert_eq!(frame.body, b"ok".to_vec());
}

#[test]
fn length_lost_after_a_message() {
    let input = b"Content-Length: 2\r\n\r\nok\r\nzz";
    let first = read_message(input, 0).unwrap();
    assert_eq!(first.body, b"ok".to_vec());
    let second = read_message(input, first.next).unwrap();
    assert_eq!(second.body, Vec::<u8>::new());
    assert_eq!(&input[second.next..], b"zz");
}

#[test]
fn corrupt_length_is_passed_over_until_the_next_length() {
    let mut stream = b"Content-Length: abc\r\n\r\n{\"lost\":true}\r\n".to_vec();
    write_message(&mut stream, b"found");
    let frame = read_message(&stream, 0).unwrap();
    assert_eq!(frame.body, b"found".to_vec());
    assert_eq!(frame.next, stream.len());
}

#[test]
fn corrupt_length_without_a_later_header_ends_the_stream() {
    assert_eq!(read_message(b"Content-Length: 12x\r\n\r\nabcdefghijklmnop", 0), None);
    assert_eq!(read_message(b"Content-Length:\r\n\r\nabc", 0), None);
}

#[test]
fn header_lines_are_told_apart() {
    assert_eq!(classify_header(b"\r\n"), Header::End);
    assert_eq!(classify_header(b"\n"), Header::End);
    assert_eq!(classify_header(b""), Header::End);
    assert_eq!(classify_header(b"  \t\r\n"), Header::End);
    assert_eq!(classify_header(b"Content-Length: 12\r\n"), Header::Length(12));
    assert_eq!(classify_header(b"Content-Length:12\n"), Header::Length(12));
    assert_eq!(classify_header(b"Content-Length: \t 12 \r\n"), Header::Length(12));
    assert_eq!(classify_header(b"Content-Length: +12\r\n"), Header::Length(12));
    assert_eq!(classify_header(b"Content-Length: 0\r\n"), Header::Length(0));
    assert_eq!(classify_header(b"Content-Length: 12"), Header::Length(12));
    assert_eq!(classify_header(b"Content-Length: twelve\r\n"), Header::Corrupt);
    assert_eq!(classify_header(b"Content-Length: -1\r\n"), Header::Corrupt);
    assert_eq!(classify_header(b"Content-Length: 1 2\r\n"), Header::Corrupt);
    assert_eq!(classify_header(b"Content-Length:\r\n"), Header::Corrupt);
    assert_eq!(classify_header(b"Content-Length: 1.0\r\n"), Header::Corrupt);
    assert_eq!(
        classify_header(b"Content-Length: 99999999999999999999999999\r\n"),
        Header::Corrupt
    );
    assert_eq!(classify_header(b"content-length: 12\r\n"), Header::Other);
    assert_eq!(classify_header(b" Content-Length: 12\r\n"), Header::Other);
    assert_eq!(classify_header(b"Content-Length 12\r\n"), Header::Other);
    assert_eq!(classify_header(b"Content-Type: text\r\n"), Header::Other);
    assert_eq!(classify_header(b"{\"jsonrpc\":\"2.0\"}"), Header::Other);
    assert_eq!(classify_header(b"Content-Leng"), Header::Other);
}

#[test]
fn reader_goes_from_line_to_line() {
    let start = ReaderState::start();
    assert_eq!(start, ReaderState::Header { length: 0 });
    assert_eq!(start.after_line(b"\r\n"), (ReaderState::Header { length: 0 }, ReadStep::Body(0)));
    let (state, step) = start.after_line(b"Content-Length: 5\r\n");
    assert_eq!((state, step), (ReaderState::Header { length: 5 }, ReadStep::Line));
    let (state, step) = state.after_line(b"X-Other: 1\r\n");
    assert_eq!((state, step), (ReaderState::Header { length: 5 }, ReadStep::Line));
    let (state, step) = state.after_line(b"Content-Length: 8\r\n");
    assert_eq!((state, step), (ReaderState::Header { length: 8 }, ReadStep::Line));
    let (state, step) = state.after_line(b"\r\n");
    assert_eq!((state, step), (ReaderState::Header { length: 0 }, ReadStep::Body(8)));
}

#[test]
fn reader_looks_for_a_length_after_a_corrupt_one() {
    let (state, step) = ReaderState::start().after_line(b"Content-Length: x\r\n");
    assert_eq!((state, step), (ReaderState::Resync, ReadStep::Line));
    let (state, step) = state.after_line(b"\r\n");
    assert_eq!((state, step), (ReaderState::Resync, ReadStep::Line));
    let (state, step) = state.after_line(b"{\"body\":1}\n");
    assert_eq!((state, step), (ReaderState::Resync, ReadStep::Line));
    let (state, step) = state.after_line(b"Content-Length: y\r\n");
    assert_eq!((state, step), (ReaderState::Resync, ReadStep::Line));
    let (state, step) = state.after_line(b"Content-Length: 4\r\n");
    assert_eq!((state, step), (ReaderState::Header { length: 4 }, ReadStep::Line));
    let (state, step) = state.after_line(b"\r\n");
    assert_eq!((state, step), (ReaderState::Header { length: 0 }, ReadStep::Body(4)));
}

fn header_by_std(line: &str) -> Header {
    if line.trim().is_empty() {
        return Header::End;
    }
    match line.strip_prefix("Content-Length:") {
        Some(value) => match value.trim().parse::<usize>() {
            Ok(n) => Header::Length(n),
            Err(_) => Header::Corrupt,
        },
        None => Header::Other,
    }
}

#[test]
fn white_space_is_that_of_unicode() {
    let spaces: Vec<char> =
        (0..=0x10FFFFu32).filter_map(char::from_u32).filter(|c| c.is_whitespace()).collect();
    assert_eq!(spaces.len(), 25);
    for &a in &spaces {
        for &b in &spaces {
            for core in ["", "7", "12", "+3", "x", "1 2", "é", "\u{200b}", "1\u{a0}2"] {
                for line in [
                    format!("Content-Length:{}{}{}{}", a, core, b, a),
                    format!("Content-Length:{}{}{}{}\r\n", b, a, core, b),
                    format!("{}{}{}", a, core, b),
                    format!("{}{}Content-Length: 4\r\n", a, b),
                ] {
                    assert_eq!(classify_header(line.as_bytes()), header_by_std(&line), "{:?}", line);
                }
            }
        }
    }
    assert_eq!(classify_header("Content-Length:\u{a0}12\u{2003}\r\n".as_bytes()), Header::Length(12));
    assert_eq!(classify_header("\u{3000}\u{85}\r\n".as_bytes()), Header::End);
}

#[test]
fn every_character_is_white_space_or_not_as_std_says() {
    for c in (0..=0x10FFFFu32).filter_map(char::from_u32) {
        for line in [
            format!("{}", c),
            format!("Content-Length:{}5", c),
            format!("Content-Length:5{}", c),
            format!("Content-Length: {} 5 {}\n", c, c),
        ] {
            assert_eq!(classify_header(line.as_bytes()), header_by_std(&line), "{:?}", line);
        }
    }
}
