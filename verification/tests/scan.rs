use text_scanner::{fscan, scan_all, scan_vec, Error, FromTokens, Tokenizer};

fn scan_str<T: FromTokens>(text: &str) -> Result<T, Error> {
    let mut buffer: &[u8] = text.as_bytes();
    fscan(&mut buffer)
}

fn parse_error<T: FromTokens + std::fmt::Debug>(text: &str) -> String {
    match scan_str::<T>(text) {
        Err(Error::ParseError(description)) => description,
        other => panic!("expected a parse error, got {:?}", other),
    }
}

#[test]
fn test_fscan() {
    let mut buffer: &[u8] = b" 10 11 \n -10.1";
    let (x, y, z): (i64, i64, String) = fscan(&mut buffer).unwrap();
    assert_eq!(x, 10);
    assert_eq!(y, 11);
    assert_eq!(z.parse::<f64>().unwrap(), -10.1);
}

#[test]
fn test_next_token() {
    let mut buffer: &[u8] = b"ab \nc d \n";
    let mut tk = Tokenizer::new(&mut buffer);
    assert_eq!(tk.next_token().unwrap(), Some("ab".to_string()));
    assert_eq!(tk.next_token().unwrap(), Some("c".to_string()));
    assert_eq!(tk.next_token().unwrap(), Some("d".to_string()));
    assert_eq!(tk.next_token().unwrap(), None);
}

#[test]
fn test_next_token_empty_lines() {
    let mut buffer: &[u8] = b"\n\n";
    let mut tk = Tokenizer::new(&mut buffer);
    assert_eq!(tk.next_token().unwrap(), None);
}

#[test]
fn signed_integers_at_their_limits() {
    assert_eq!(scan_str::<i8>("-128").unwrap(), i8::MIN);
    assert_eq!(scan_str::<i8>("127").unwrap(), i8::MAX);
    assert_eq!(scan_str::<i16>("-32768").unwrap(), i16::MIN);
    assert_eq!(scan_str::<i16>("32767").unwrap(), i16::MAX);
    assert_eq!(scan_str::<i32>("-2147483648").unwrap(), i32::MIN);
    assert_eq!(scan_str::<i32>("2147483647").unwrap(), i32::MAX);
    assert_eq!(scan_str::<i64>("-9223372036854775808").unwrap(), i64::MIN);
    assert_eq!(scan_str::<i64>("9223372036854775807").unwrap(), i64::MAX);
    assert_eq!(scan_str::<isize>(&isize::MIN.to_string()).unwrap(), isize::MIN);
    assert_eq!(scan_str::<isize>(&isize::MAX.to_string()).unwrap(), isize::MAX);
}

#[test]
fn unsigned_integers_at_their_limits() {
    assert_eq!(scan_str::<u8>("0").unwrap(), 0);
    assert_eq!(scan_str::<u8>("255").unwrap(), u8::MAX);
    assert_eq!(scan_str::<u16>("65535").unwrap(), u16::MAX);
    assert_eq!(scan_str::<u32>("4294967295").unwrap(), u32::MAX);
    assert_eq!(scan_str::<u64>("18446744073709551615").unwrap(), u64::MAX);
    assert_eq!(scan_str::<usize>(&usize::MAX.to_string()).unwrap(), usize::MAX);
}

#[test]
fn integers_out_of_range_are_parse_errors() {
    assert!(matches!(scan_str::<i8>("128"), Err(Error::ParseError(_))));
    assert!(matches!(scan_str::<i8>("-129"), Err(Error::ParseError(_))));
    assert!(matches!(scan_str::<u8>("256"), Err(Error::ParseError(_))));
    assert!(matches!(scan_str::<i16>("32768"), Err(Error::ParseError(_))));
    assert!(matches!(scan_str::<u16>("65536"), Err(Error::ParseError(_))));
    assert!(matches!(scan_str::<i32>("2147483648"), Err(Error::ParseError(_))));
    assert!(matches!(scan_str::<u32>("4294967296"), Err(Error::ParseError(_))));
    assert!(matches!(scan_str::<i64>("9223372036854775808"), Err(Error::ParseError(_))));
    assert!(matches!(scan_str::<i64>("-9223372036854775809"), Err(Error::ParseError(_))));
    assert!(matches!(scan_str::<u64>("18446744073709551616"), Err(Error::ParseError(_))));
}

#[test]
fn integers_of_very_many_digits_are_parse_errors() {
    let huge = "9".repeat(60);
    assert!(matches!(scan_str::<u64>(&huge), Err(Error::ParseError(_))));
    assert!(matches!(scan_str::<i64>(&format!("-{}", huge)), Err(Error::ParseError(_))));
    let exact = "170141183460469231731687303715884105728";
    assert!(matches!(scan_str::<i64>(exact), Err(Error::ParseError(_))));
    assert!(matches!(scan_str::<i64>(&format!("-{}", exact)), Err(Error::ParseError(_))));
    assert!(matches!(scan_str::<i64>(&format!("-{}9", exact)), Err(Error::ParseError(_))));
}

#[test]
fn integers_of_128_bits_at_their_limits() {
    assert_eq!(scan_str::<i128>(&i128::MIN.to_string()).unwrap(), i128::MIN);
    assert_eq!(scan_str::<i128>(&i128::MAX.to_string()).unwrap(), i128::MAX);
    assert_eq!(scan_str::<u128>(&u128::MAX.to_string()).unwrap(), u128::MAX);
    assert_eq!(scan_str::<u128>("+0").unwrap(), 0);
    assert_eq!(parse_error::<i128>("170141183460469231731687303715884105728"), "cannot read i128 from 170141183460469231731687303715884105728");
    assert!(matches!(scan_str::<i128>("-170141183460469231731687303715884105729"), Err(Error::ParseError(_))));
    assert!(matches!(scan_str::<u128>("340282366920938463463374607431768211456"), Err(Error::ParseError(_))));
    assert_eq!(parse_error::<u128>("-1"), "cannot read u128 from -1");
    let huge = "1".repeat(80);
    assert!(matches!(scan_str::<u128>(&huge), Err(Error::ParseError(_))));
    assert!(matches!(scan_str::<i128>(&format!("-{}", huge)), Err(Error::ParseError(_))));
}

#[test]
fn integers_take_a_sign_and_leading_zeros() {
    assert_eq!(scan_str::<i32>("+7").unwrap(), 7);
    assert_eq!(scan_str::<u32>("+7").unwrap(), 7);
    assert_eq!(scan_str::<i32>("-0").unwrap(), 0);
    assert_eq!(scan_str::<i32>("+0").unwrap(), 0);
    assert_eq!(scan_str::<i32>("007").unwrap(), 7);
    assert_eq!(scan_str::<u8>("0000000000000000000000000000000000000000255").unwrap(), 255);
    assert_eq!(scan_str::<i8>("-0000000000000000000000000000000000000000128").unwrap(), -128);
}

#[test]
fn integers_follow_the_standard_grammar() {
    for text in ["-1", "-0", "-"] {
        assert_eq!(scan_str::<u32>(text).is_ok(), text.parse::<u32>().is_ok(), "{}", text);
        assert!(matches!(scan_str::<u32>(text), Err(Error::ParseError(_))));
    }
    for text in ["+", "-", "++1", "--1", "+-1", "1+", "1-", "1.0", "1e3", "0x10", "1_000", "abc", "12a", "a12", "１２"] {
        assert!(text.parse::<i64>().is_err());
        assert!(matches!(scan_str::<i64>(text), Err(Error::ParseError(_))), "{}", text);
        assert!(matches!(scan_str::<u64>(text), Err(Error::ParseError(_))), "{}", text);
    }
}

#[test]
fn integers_agree_with_the_standard_parser() {
    let texts = [
        "0", "1", "-1", "+1", "9", "10", "99", "100", "127", "128", "129", "-127", "-128", "-129", "255", "256",
        "-255", "+255", "+256", "32767", "32768", "-32768", "-32769", "65535", "65536", "00", "-00", "+00", "+",
        "-", "1x", "x1", "", "4294967295", "4294967296", "-2147483648", "-2147483649",
    ];
    for text in texts {
        if text.is_empty() {
            continue;
        }
        assert_eq!(scan_str::<i8>(text).ok(), text.parse::<i8>().ok(), "i8 {}", text);
        assert_eq!(scan_str::<u8>(text).ok(), text.parse::<u8>().ok(), "u8 {}", text);
        assert_eq!(scan_str::<i16>(text).ok(), text.parse::<i16>().ok(), "i16 {}", text);
        assert_eq!(scan_str::<u16>(text).ok(), text.parse::<u16>().ok(), "u16 {}", text);
        assert_eq!(scan_str::<i32>(text).ok(), text.parse::<i32>().ok(), "i32 {}", text);
        assert_eq!(scan_str::<u32>(text).ok(), text.parse::<u32>().ok(), "u32 {}", text);
        assert_eq!(scan_str::<i64>(text).ok(), text.parse::<i64>().ok(), "i64 {}", text);
        assert_eq!(scan_str::<u64>(text).ok(), text.parse::<u64>().ok(), "u64 {}", text);
        assert_eq!(scan_str::<isize>(text).ok(), text.parse::<isize>().ok(), "isize {}", text);
        assert_eq!(scan_str::<usize>(text).ok(), text.parse::<usize>().ok(), "usize {}", text);
        assert_eq!(scan_str::<i128>(text).ok(), text.parse::<i128>().ok(), "i128 {}", text);
        assert_eq!(scan_str::<u128>(text).ok(), text.parse::<u128>().ok(), "u128 {}", text);
    }
}

#[test]
fn every_i8_and_u8_is_read_back() {
    for v in i8::MIN..=i8::MAX {
        assert_eq!(scan_str::<i8>(&v.to_string()).unwrap(), v);
    }
    for v in u8::MIN..=u8::MAX {
        assert_eq!(scan_str::<u8>(&v.to_string()).unwrap(), v);
    }
}

#[test]
fn booleans_are_spelled_out() {
    assert_eq!(scan_str::<bool>("true").unwrap(), true);
    assert_eq!(scan_str::<bool>(" false ").unwrap(), false);
    for text in ["True", "FALSE", "1", "0", "t", "tru", "truee", "falsee", "yes"] {
        assert!(text.parse::<bool>().is_err());
        assert!(matches!(scan_str::<bool>(text), Err(Error::ParseError(_))), "{}", text);
    }
}

#[test]
fn text_is_the_token_itself() {
    assert_eq!(scan_str::<String>("  héllo wörld").unwrap(), "héllo");
    assert_eq!(scan_str::<String>("-10.1").unwrap(), "-10.1");
}

#[test]
fn characters_of_a_token() {
    assert_eq!(scan_str::<Vec<char>>(" abc def").unwrap(), vec!['a', 'b', 'c']);
    assert_eq!(scan_str::<Vec<char>>("h\u{e9}✓\u{1F600}").unwrap(), vec!['h', 'é', '✓', '\u{1F600}']);
    assert!(matches!(scan_str::<Vec<char>>("  "), Err(Error::Eof)));
}

#[test]
fn a_grid_of_characters() {
    let mut buffer: &[u8] = b"#.#\n.#.\n";
    let mut tk = Tokenizer::new(&mut buffer);
    let rows: Vec<Vec<char>> = scan_vec(&mut tk, 2).unwrap();
    assert_eq!(rows, vec![vec!['#', '.', '#'], vec!['.', '#', '.']]);
}

#[test]
fn no_token_is_the_end_of_input() {
    assert!(matches!(scan_str::<i64>(""), Err(Error::Eof)));
    assert!(matches!(scan_str::<i64>(" \n\t "), Err(Error::Eof)));
    assert!(matches!(scan_str::<String>(""), Err(Error::Eof)));
    assert!(matches!(scan_str::<bool>("\n"), Err(Error::Eof)));
    assert!(matches!(scan_str::<u8>("\r"), Err(Error::Eof)));
}

#[test]
fn invalid_utf8_fails_before_parsing() {
    let mut buffer: &[u8] = b"\xff 1";
    assert!(matches!(fscan::<i64>(&mut buffer), Err(Error::EncodingError(_))));
    assert_eq!(fscan::<i64>(&mut buffer).unwrap(), 1);
    let mut buffer: &[u8] = b"12\xc3 1";
    assert!(matches!(fscan::<u32>(&mut buffer), Err(Error::EncodingError(_))));
    let mut buffer: &[u8] = b"\xc0\x80";
    assert!(matches!(fscan::<String>(&mut buffer), Err(Error::EncodingError(_))));
    let mut buffer: &[u8] = b"\xed\xa0\x80";
    assert!(matches!(fscan::<Vec<char>>(&mut buffer), Err(Error::EncodingError(_))));
}

#[test]
fn a_parse_error_names_the_type_and_the_text() {
    assert_eq!(parse_error::<i64>("abc"), "cannot read i64 from abc");
    assert_eq!(parse_error::<u8>(" 256 "), "cannot read u8 from 256");
    assert_eq!(parse_error::<i8>("-129"), "cannot read i8 from -129");
    assert_eq!(parse_error::<i16>("x"), "cannot read i16 from x");
    assert_eq!(parse_error::<i32>("1.5"), "cannot read i32 from 1.5");
    assert_eq!(parse_error::<isize>("é"), "cannot read isize from é");
    assert_eq!(parse_error::<u16>("-1"), "cannot read u16 from -1");
    assert_eq!(parse_error::<u32>("+"), "cannot read u32 from +");
    assert_eq!(parse_error::<u64>("1e9"), "cannot read u64 from 1e9");
    assert_eq!(parse_error::<usize>("0x1"), "cannot read usize from 0x1");
    assert_eq!(parse_error::<bool>("TRUE"), "cannot read bool from TRUE");
}

#[test]
fn a_scan_leaves_the_reader_behind_its_last_token() {
    let mut buffer: &[u8] = b" 10 -11 \n x";
    let (x, y): (i64, i64) = fscan(&mut buffer).unwrap();
    assert_eq!((x, y), (10, -11));
    assert_eq!(buffer, b"\n x");
    let mut buffer: &[u8] = b"5";
    assert_eq!(fscan::<u8>(&mut buffer).unwrap(), 5);
    assert_eq!(buffer, b"");
}

#[test]
fn a_failed_scan_takes_the_token_it_failed_on() {
    let mut buffer: &[u8] = b"1 x 3 4";
    assert!(matches!(fscan::<(i32, i32, i32)>(&mut buffer), Err(Error::ParseError(_))));
    assert_eq!(buffer, b"3 4");
}

#[test]
fn tuples_of_every_arity() {
    assert_eq!(scan_str::<(u8, i8)>("1 -2").unwrap(), (1, -2));
    assert_eq!(scan_str::<(u8, i8, bool)>("1 -2 true").unwrap(), (1, -2, true));
    assert_eq!(scan_str::<(u8, i8, bool, String)>("1 -2 true s").unwrap(), (1, -2, true, "s".to_string()));
    assert_eq!(
        scan_str::<(u8, i8, bool, String, u64)>("1 -2 true s 5").unwrap(),
        (1, -2, true, "s".to_string(), 5)
    );
    assert_eq!(
        scan_str::<(u8, i8, bool, String, u64, Vec<char>)>("1\n-2\ttrue\rs\x0c5   xy").unwrap(),
        (1, -2, true, "s".to_string(), 5, vec!['x', 'y'])
    );
}

#[test]
fn nested_tuples() {
    let ((a, b), (c, d)): ((u8, u8), (String, bool)) = scan_str("1 2 three false").unwrap();
    assert_eq!((a, b, c, d), (1, 2, "three".to_string(), false));
}

#[test]
fn a_tuple_fails_with_its_first_failure() {
    assert_eq!(parse_error::<(i32, i32)>("x y"), "cannot read i32 from x");
    assert_eq!(parse_error::<(i32, u8, i32)>("1 300 z"), "cannot read u8 from 300");
    assert_eq!(parse_error::<(i32, i32, bool)>("1 2 3"), "cannot read bool from 3");
    assert_eq!(parse_error::<(u8, u8, u8, u8, u8, u8)>("1 2 3 4 5 six"), "cannot read u8 from six");
    assert_eq!(parse_error::<(u8, u8, u8, u8, u8, u8)>("1 2 3 -4 5 six"), "cannot read u8 from -4");
}

#[test]
fn a_tuple_with_too_few_tokens_is_the_end_of_input() {
    assert!(matches!(scan_str::<(i32, i32)>("1"), Err(Error::Eof)));
    assert!(matches!(scan_str::<(i32, i32, i32)>("1 2 "), Err(Error::Eof)));
    assert!(matches!(scan_str::<(i32, i32, i32, i32)>("1 2 3"), Err(Error::Eof)));
    assert!(matches!(scan_str::<(i32, i32, i32, i32, i32)>("1 2 3 4"), Err(Error::Eof)));
    assert!(matches!(scan_str::<(i32, i32, i32, i32, i32, i32)>("1 2 3 4 5\n"), Err(Error::Eof)));
}

#[test]
fn a_fixed_count_of_values() {
    let mut buffer: &[u8] = b"3 1 4 1 5 9 2 6";
    let mut tk = Tokenizer::new(&mut buffer);
    assert_eq!(scan_vec::<u32>(&mut tk, 5).unwrap(), vec![3, 1, 4, 1, 5]);
    assert_eq!(scan_vec::<u32>(&mut tk, 0).unwrap(), Vec::<u32>::new());
    assert_eq!(scan_vec::<u32>(&mut tk, 3).unwrap(), vec![9, 2, 6]);
    assert_eq!(scan_vec::<u32>(&mut tk, 0).unwrap(), Vec::<u32>::new());
    assert!(matches!(scan_vec::<u32>(&mut tk, 1), Err(Error::Eof)));
}

#[test]
fn a_fixed_count_over_exactly_as_many_tokens() {
    for n in 0..50usize {
        let text: Vec<String> = (0..n).map(|i| (i * 7).to_string()).collect();
        let text = text.join(" ");
        let mut buffer: &[u8] = text.as_bytes();
        let mut tk = Tokenizer::new(&mut buffer);
        let values: Vec<usize> = scan_vec(&mut tk, n).unwrap();
        assert_eq!(values, (0..n).map(|i| i * 7).collect::<Vec<usize>>());
    }
}

#[test]
fn a_fixed_count_over_too_few_tokens_is_the_end_of_input() {
    for n in 1..20usize {
        let text: Vec<String> = (0..n - 1).map(|i| i.to_string()).collect();
        let text = text.join("\n");
        let mut buffer: &[u8] = text.as_bytes();
        let mut tk = Tokenizer::new(&mut buffer);
        assert!(matches!(scan_vec::<usize>(&mut tk, n), Err(Error::Eof)));
    }
}

#[test]
fn a_fixed_count_fails_with_its_first_failure() {
    let mut buffer: &[u8] = b"1 2 x 4";
    let mut tk = Tokenizer::new(&mut buffer);
    match scan_vec::<u8>(&mut tk, 4) {
        Err(Error::ParseError(description)) => assert_eq!(description, "cannot read u8 from x"),
        other => panic!("{:?}", other),
    }
    assert_eq!(tk.next_token().unwrap(), Some("4".to_string()));
}

#[test]
fn a_fixed_count_of_pairs() {
    let mut buffer: &[u8] = b"0 1\n1 2\n2 0\n";
    let mut tk = Tokenizer::new(&mut buffer);
    assert_eq!(scan_vec::<(usize, usize)>(&mut tk, 3).unwrap(), vec![(0, 1), (1, 2), (2, 0)]);
}

#[test]
fn all_values_until_the_end() {
    let mut buffer: &[u8] = b" 1 2\n3\t4 \n";
    let mut tk = Tokenizer::new(&mut buffer);
    assert_eq!(scan_all::<i64>(&mut tk).unwrap(), vec![1, 2, 3, 4]);
    assert_eq!(scan_all::<i64>(&mut tk).unwrap(), Vec::<i64>::new());
}

#[test]
fn all_values_of_an_empty_source() {
    let mut buffer: &[u8] = b"";
    let mut tk = Tokenizer::new(&mut buffer);
    assert_eq!(scan_all::<String>(&mut tk).unwrap(), Vec::<String>::new());
    let mut buffer: &[u8] = b" \n ";
    let mut tk = Tokenizer::new(&mut buffer);
    assert_eq!(scan_all::<u8>(&mut tk).unwrap(), Vec::<u8>::new());
}

#[test]
fn all_values_over_exactly_k_tokens() {
    for k in 0..40usize {
        let text: Vec<String> = (0..k).map(|i| format!("-{}", i)).collect();
        let text = text.join("  ");
        let mut buffer: &[u8] = text.as_bytes();
        let mut tk = Tokenizer::new(&mut buffer);
        let values: Vec<i32> = scan_all(&mut tk).unwrap();
        assert_eq!(values.len(), k);
        assert_eq!(values, (0..k).map(|i| -(i as i32)).collect::<Vec<i32>>());
    }
}

#[test]
fn all_values_fail_at_a_malformed_token() {
    let mut buffer: &[u8] = b"1 2 three 4";
    let mut tk = Tokenizer::new(&mut buffer);
    match scan_all::<u8>(&mut tk) {
        Err(Error::ParseError(description)) => assert_eq!(description, "cannot read u8 from three"),
        other => panic!("{:?}", other),
    }
    assert_eq!(tk.next_token().unwrap(), Some("4".to_string()));
    let mut buffer: &[u8] = b"1 2 \xff 4";
    let mut tk = Tokenizer::new(&mut buffer);
    assert!(matches!(scan_all::<u8>(&mut tk), Err(Error::EncodingError(_))));
}

#[test]
fn all_pairs_with_one_token_left_over() {
    let mut buffer: &[u8] = b"1 2 3 4 5";
    let mut tk = Tokenizer::new(&mut buffer);
    assert_eq!(scan_all::<(u8, u8)>(&mut tk).unwrap(), vec![(1, 2), (3, 4)]);
}
