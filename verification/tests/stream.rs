use text_scanner::{Error, FromTokens, ReadEvent, Step, StreamScan};

fn run<T: FromTokens>(source: &[u8]) -> (Result<T, Error>, usize) {
    let mut scan = StreamScan::new();
    let mut read = 0;
    loop {
        let event = match source.get(read) {
            Some(b) => {
                read += 1;
                ReadEvent::Byte(*b)
            },
            None => ReadEvent::End,
        };
        if let Step::Done(r) = scan.feed::<T>(event) {
            return (r, read);
        }
    }
}

#[test]
fn a_stream_scan_stops_behind_the_last_token() {
    let (r, read) = run::<(i64, i64)>(b" 10 11 \n 12");
    assert_eq!(r.unwrap(), (10, 11));
    assert_eq!(read, 7);
    let (r, read) = run::<u8>(b"7\n8\n");
    assert_eq!(r.unwrap(), 7);
    assert_eq!(read, 2);
}

#[test]
fn a_stream_scan_ends_with_the_source() {
    let (r, read) = run::<(i64, String)>(b"10 x");
    assert_eq!(r.unwrap(), (10, "x".to_string()));
    assert_eq!(read, 4);
    let (r, _) = run::<(i64, i64)>(b"10 ");
    assert!(matches!(r, Err(Error::Eof)));
    let (r, _) = run::<i64>(b"");
    assert!(matches!(r, Err(Error::Eof)));
    let (r, _) = run::<i64>(b" \n\t");
    assert!(matches!(r, Err(Error::Eof)));
}

#[test]
fn a_stream_scan_stops_at_the_first_failure() {
    let (r, read) = run::<(u8, u8, u8)>(b"1 x 3 4");
    assert!(matches!(r, Err(Error::ParseError(_))));
    assert_eq!(read, 4);
    let (r, read) = run::<u8>(b"\xff 3");
    assert!(matches!(r, Err(Error::EncodingError(_))));
    assert_eq!(read, 2);
}

#[test]
fn a_failed_read_ends_a_stream_scan() {
    let mut scan = StreamScan::new();
    assert!(matches!(scan.feed::<u8>(ReadEvent::Byte(b'1')), Step::Read));
    let cause = std::io::Error::new(std::io::ErrorKind::Other, "broken");
    match scan.feed::<u8>(ReadEvent::Failed(cause)) {
        Step::Done(Err(Error::IoError(e))) => assert_eq!(e.to_string(), "broken"),
        _ => panic!("expected the failure of the read"),
    }
    assert!(matches!(scan.feed::<u8>(ReadEvent::Byte(b'2')), Step::Read));
    match scan.feed::<u8>(ReadEvent::End) {
        Step::Done(r) => assert_eq!(r.unwrap(), 2),
        Step::Read => panic!("expected a result"),
    }
}

#[test]
fn a_stream_scan_starts_anew_after_a_result() {
    let mut scan = StreamScan::new();
    let mut results = Vec::new();
    for b in b"1 22 333 " {
        if let Step::Done(r) = scan.feed::<u16>(ReadEvent::Byte(*b)) {
            results.push(r.unwrap());
        }
    }
    assert_eq!(results, vec![1, 22, 333]);
    assert!(matches!(scan.feed::<u16>(ReadEvent::End), Step::Done(Err(Error::Eof))));
}

#[test]
fn error_messages() {
    assert_eq!(Error::Eof.message(), "EOF\n");
    assert_eq!(Error::ParseError("cannot read u8 from x".to_string()).message(), "Parse Error: cannot read u8 from x\n");
    let cause = std::io::Error::new(std::io::ErrorKind::Other, "broken pipe");
    assert_eq!(Error::IoError(cause).message(), "IO Error: broken pipe\n");
    let cause = String::from_utf8(vec![0xff]).unwrap_err();
    assert_eq!(Error::EncodingError(cause.clone()).message(), format!("Encoding Error: {}\n", cause));
}
