use string_lines::error::{decode_record, Error};
use string_lines::record::record_line;
use string_lines::lock::StoreLock;
use string_lines::scan::{scan_bytes, BackwardScan, ScanStep, WINDOW};

// The store's bytes are held in a Vec here; the library's scan asks for the
// reads and says where to truncate, as it does over a file.

fn push(file: &mut Vec<u8>, s: &str) {
    file.extend(record_line(s));
}

fn pop_bytes(file: &mut Vec<u8>) -> (Option<Vec<u8>>, usize) {
    let mut scan = BackwardScan::new(file.len() as u64);
    let mut reads: usize = 0;
    loop {
        match scan.next_step() {
            ScanStep::Read { offset, count } => {
                let start = offset as usize;
                let end = start + count as usize;
                scan.feed(file[start..end].to_vec());
                reads += 1;
            }
            ScanStep::Done { new_len, record } => {
                file.truncate(new_len as usize);
                return (record, reads);
            }
        }
    }
}

fn pop(file: &mut Vec<u8>) -> Result<Option<String>, Error> {
    let (record, _) = pop_bytes(file);
    decode_record(record)
}

#[test]
fn test_push_pop() {
    let mut file: Vec<u8> = Vec::new();
    let mut items = vec![];
    for i in 1..101 {
        let line = format!("line {}", i);
        push(&mut file, &line);
        items.push(line);
    }
    loop {
        match items.pop() {
            Some(item_line) => {
                let line = pop(&mut file).expect("Unable to pop line");
                assert_eq!(Some(item_line), line);
            }
            None => {
                break;
            }
        }
    }
    let line = pop(&mut file).expect("Unable to pop line");
    assert_eq!(line, None);
    let line = pop(&mut file).expect("Unable to pop line");
    assert_eq!(line, None);
    let line = pop(&mut file).expect("Unable to pop line");
    assert_eq!(line, None);
}

#[test]
fn test_len() {
    let mut file: Vec<u8> = Vec::new();
    let mut items = vec![];
    for i in 1..101 {
        let line = format!("line {}", i);
        push(&mut file, &line);
        items.push(line);
    }
    file.truncate(0);
    let line = pop(&mut file).expect("Unable to pop line");
    assert_eq!(line, None);
    let line = pop(&mut file).expect("Unable to pop line");
    assert_eq!(line, None);
    let line = pop(&mut file).expect("Unable to pop line");
    assert_eq!(line, None);
}

#[test]
fn record_line_appends_newline() {
    assert_eq!(record_line("line 1"), b"line 1\n".to_vec());
    assert_eq!(record_line(""), vec![10u8]);
    assert_eq!(record_line("h\u{e9}"), vec![b'h', 0xc3, 0xa9, 10]);
}

#[test]
fn long_record_spans_several_windows() {
    let mut file: Vec<u8> = Vec::new();
    push(&mut file, "first");
    let long: String = "x".repeat(4000);
    push(&mut file, &long);
    let (record, reads) = pop_bytes(&mut file);
    assert_eq!(record, Some(long.clone().into_bytes()));
    assert_eq!(reads, 4);
    assert_eq!(file, b"first\n".to_vec());
    assert_eq!(pop(&mut file).unwrap(), Some("first".to_string()));
    assert_eq!(file.len(), 0);
}

#[test]
fn record_filling_the_whole_file() {
    let mut file: Vec<u8> = Vec::new();
    let long: String = "y".repeat(2 * WINDOW as usize + 7);
    push(&mut file, &long);
    assert_eq!(pop(&mut file).unwrap(), Some(long));
    assert_eq!(file.len(), 0);
    assert_eq!(pop(&mut file).unwrap(), None);
}

#[test]
fn records_on_window_boundaries() {
    for n in [1022usize, 1023, 1024, 1025, 2047, 2048, 2049] {
        let mut file: Vec<u8> = Vec::new();
        push(&mut file, "a");
        let long: String = "z".repeat(n);
        push(&mut file, &long);
        push(&mut file, "b");
        assert_eq!(pop(&mut file).unwrap(), Some("b".to_string()));
        assert_eq!(pop(&mut file).unwrap(), Some(long));
        assert_eq!(pop(&mut file).unwrap(), Some("a".to_string()));
        assert_eq!(pop(&mut file).unwrap(), None);
    }
}

#[test]
fn truncation_leaves_exact_length() {
    let mut file: Vec<u8> = Vec::new();
    push(&mut file, "alpha");
    push(&mut file, "be");
    push(&mut file, "gamma");
    assert_eq!(pop(&mut file).unwrap(), Some("gamma".to_string()));
    assert_eq!(file.len(), 6 + 3);
    assert_eq!(file, b"alpha\nbe\n".to_vec());
    push(&mut file, "delta");
    assert_eq!(file, b"alpha\nbe\ndelta\n".to_vec());
    assert_eq!(pop(&mut file).unwrap(), Some("delta".to_string()));
    assert_eq!(pop(&mut file).unwrap(), Some("be".to_string()));
    assert_eq!(file, b"alpha\n".to_vec());
}

#[test]
fn empty_pops_keep_length_zero() {
    let mut file: Vec<u8> = Vec::new();
    for _ in 0..3 {
        assert_eq!(pop(&mut file).unwrap(), None);
        assert_eq!(file.len(), 0);
    }
}

#[test]
fn empty_records_are_skipped() {
    let mut file: Vec<u8> = Vec::new();
    push(&mut file, "a");
    push(&mut file, "");
    push(&mut file, "");
    assert_eq!(pop(&mut file).unwrap(), Some("a".to_string()));
    assert_eq!(file.len(), 0);
    let mut only_newlines: Vec<u8> = b"\n\n\n".to_vec();
    assert_eq!(pop(&mut only_newlines).unwrap(), None);
    assert_eq!(only_newlines.len(), 0);
}

#[test]
fn record_at_start_of_file_without_newline_before() {
    let mut file: Vec<u8> = b"only\n".to_vec();
    assert_eq!(pop(&mut file).unwrap(), Some("only".to_string()));
    assert_eq!(file.len(), 0);
}

#[test]
fn invalid_utf8_record_is_removed_and_reported() {
    let mut file: Vec<u8> = b"ok\n".to_vec();
    file.extend([0xffu8, 0xfe, 10]);
    match pop(&mut file) {
        Err(Error::Utf8Error(e)) => assert_eq!(e.as_bytes(), &[0xffu8, 0xfe]),
        _ => panic!("expected a UTF-8 error"),
    }
    assert_eq!(file, b"ok\n".to_vec());
    assert_eq!(pop(&mut file).unwrap(), Some("ok".to_string()));
}

#[test]
fn decode_record_gives_text() {
    let r = decode_record(Some(vec![b'h', 0xc3, 0xa9])).unwrap();
    assert_eq!(r, Some("h\u{e9}".to_string()));
    assert!(matches!(decode_record(None), Ok(None)));
    assert!(matches!(decode_record(Some(vec![0xc3])), Err(Error::Utf8Error(_))));
}

#[test]
fn scan_reads_back_one_window_at_a_time() {
    let scan = BackwardScan::new(3000);
    match scan.next_step() {
        ScanStep::Read { offset, count } => {
            assert_eq!(offset, 3000 - WINDOW);
            assert_eq!(count, WINDOW);
        }
        ScanStep::Done { .. } => panic!("nothing was read yet"),
    }
    let small = BackwardScan::new(10);
    match small.next_step() {
        ScanStep::Read { offset, count } => {
            assert_eq!(offset, 0);
            assert_eq!(count, 10);
        }
        ScanStep::Done { .. } => panic!("nothing was read yet"),
    }
    match BackwardScan::new(0).next_step() {
        ScanStep::Done { new_len, record } => {
            assert_eq!(new_len, 0);
            assert_eq!(record, None);
        }
        ScanStep::Read { .. } => panic!("an empty store needs no read"),
    }
}

#[test]
fn error_descriptions() {
    assert_eq!(Error::LockError(11).description(), "Locking error");
    let io = std::io::Error::new(std::io::ErrorKind::Other, "disk");
    assert_eq!(Error::FileError(io).description(), "File error");
    let bad = String::from_utf8(vec![0xffu8]).unwrap_err();
    assert_eq!(Error::Utf8Error(bad).description(), "UTF8 error");
}

#[test]
fn scan_bytes_finds_last_record() {
    let content: Vec<u8> = b"one\ntwo\n\n".to_vec();
    let (new_len, record) = scan_bytes(&content);
    assert_eq!(new_len, 4);
    assert_eq!(record, Some(b"two".to_vec()));
    let (new_len, record) = scan_bytes(&Vec::new());
    assert_eq!(new_len, 0);
    assert_eq!(record, None);
    let mut big: Vec<u8> = b"head\n".to_vec();
    big.extend(std::iter::repeat(b'q').take(5000));
    big.push(10);
    let (new_len, record) = scan_bytes(&big);
    assert_eq!(new_len, 5);
    assert_eq!(record.map(|r| r.len()), Some(5000));
}

#[test]
fn lock_on_bad_descriptor_reports_errno() {
    let mut lock = StoreLock::new(-1);
    match lock.acquire() {
        Err(Error::LockError(n)) => assert_ne!(n, 0),
        other => panic!("expected a locking error, got {:?}", other),
    }
}

#[test]
fn release_after_keeps_first_error() {
    let mut lock = StoreLock::new(-1);
    match lock.release_after(Ok::<u32, Error>(7)) {
        Err(Error::LockError(n)) => assert_ne!(n, 0),
        other => panic!("expected a locking error, got {:?}", other),
    }
    let bad = String::from_utf8(vec![0xffu8]).unwrap_err();
    match lock.release_after::<u32>(Err(Error::Utf8Error(bad))) {
        Err(Error::Utf8Error(_)) => {}
        other => panic!("expected the operation's error, got {:?}", other),
    }
}

#[test]
fn errors_convert_from_their_sources() {
    let io = std::io::Error::new(std::io::ErrorKind::Other, "disk");
    assert!(matches!(Error::from(io), Error::FileError(_)));
    let bad = String::from_utf8(vec![0xffu8]).unwrap_err();
    match Error::from(bad) {
        Error::Utf8Error(e) => assert_eq!(e.as_bytes(), &[0xffu8]),
        other => panic!("expected a UTF-8 error, got {:?}", other),
    }
}
