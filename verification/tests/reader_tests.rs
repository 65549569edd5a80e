use aetherscope::error::AppError;
use aetherscope::reader::StreamReader;
use aetherscope::url_fsm::UriExtractorFSM;

#[test]
fn reads_characters_and_positions() {
    let mut r = StreamReader::new("ab\u{e9}c".as_bytes().to_vec());
    assert_eq!(r.position(), 0);
    assert_eq!(r.read_char().unwrap(), 'a');
    assert_eq!(r.read_char().unwrap(), 'b');
    assert_eq!(r.position(), 2);
    assert_eq!(r.read_char().unwrap(), '\u{e9}');
    // the accented character took two bytes
    assert_eq!(r.position(), 4);
    assert_eq!(r.read_char().unwrap(), 'c');
    assert_eq!(r.read_char().unwrap_err(), AppError::UnexpectedEof);
    r.set_position(0);
    assert_eq!(r.read_char().unwrap(), 'a');
}

#[test]
fn invalid_utf8_reports_invalid() {
    let mut r = StreamReader::new(vec![0xFF]);
    assert_eq!(r.read_char().unwrap_err(), AppError::InvalidUtf8);
}

#[test]
fn match_next_rewinds_on_miss() {
    let mut r = StreamReader::new(b"abcdef".to_vec());
    assert!(!r.match_next(&['a', 'x'], true).unwrap());
    assert_eq!(r.position(), 0);
    assert!(r.match_next(&['a', 'b'], true).unwrap());
    assert_eq!(r.position(), 2);
}

#[test]
fn match_next_or_tests_one_char() {
    let mut r = StreamReader::new(b"xy".to_vec());
    assert_eq!(r.match_next_or(&['a', 'b'], true).unwrap(), None);
    assert_eq!(r.position(), 0);
    assert_eq!(r.match_next_or(&['x', 'z'], true).unwrap(), Some('x'));
    assert_eq!(r.position(), 1);
}

#[test]
fn until_mismatch_consumes_the_terminator() {
    let mut r = StreamReader::new(b"aaab rest".to_vec());
    let run = r.get_until_mismatch(&['a', 'b']).unwrap();
    assert_eq!(run, vec!['a', 'a', 'a', 'b']);
    // the space that ended the run was consumed
    assert_eq!(r.position(), 5);
}

#[test]
fn until_term_stops_at_terminator() {
    let mut r = StreamReader::new(b"hello<rest".to_vec());
    let run = r.get_until_term(&['<', '>']).unwrap();
    assert_eq!(run, vec!['h', 'e', 'l', 'l', 'o']);
}

#[test]
fn read_until_match_restarts_on_mismatch() {
    let mut r = StreamReader::new(b"xx href=q".to_vec());
    assert!(r.read_until_match(&['h', 'r', 'e', 'f', '='], '>', true).unwrap());
    assert_eq!(r.read_char().unwrap(), 'q');

    let mut r = StreamReader::new(b"abc>href=".to_vec());
    assert!(!r.read_until_match(&['h', 'r', 'e', 'f', '='], '>', true).unwrap());
    // rewound to where the scan began
    assert_eq!(r.position(), 0);
}

#[test]
fn restart_matching_does_not_reexamine() {
    // the scan restarts after a mismatched character without retrying it,
    // so an overlapping occurrence is not found
    let mut r = StreamReader::new(b"aaab>".to_vec());
    assert!(!r.read_until_match(&['a', 'a', 'b'], '>', true).unwrap());
}

#[test]
fn fsm_exposes_the_reader_interface() {
    let mut fsm = UriExtractorFSM::new(b"abcdef".to_vec(), "http://example.com".to_string())
        .unwrap();
    assert_eq!(fsm.position(), 0);
    let chars = fsm.read_exact_chars(3).unwrap();
    assert_eq!(chars, vec!['a', 'b', 'c']);
    fsm.set_position(1);
    assert_eq!(fsm.read_char().unwrap(), 'b');
    assert!(fsm.match_next(&['c', 'd'], true).unwrap());
}
