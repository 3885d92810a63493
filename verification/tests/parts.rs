use gsplat::bytes::word_from_le;
use gsplat::encoding::{classify, Encoding};
use gsplat::error::LoadError;
use gsplat::header::{scan_header, Header};
use gsplat::number::parse_unsigned;
use gsplat::record::{decode_record, decode_records, RawSplat, RECORD_SIZE, RECORD_WORDS};
use gsplat::text::{
    byte_is_space, find_line_end, find_token_end, find_token_start, nth_token, starts_with,
    trimmed_equals,
};
use gsplat::transform::{transform_all, transform_record};
use gsplat::vertex::{make_point_vertices, Vertex};

fn numbered_record(first: u32) -> [u8; 248] {
    let mut rec = [0u8; 248];
    for k in 0..62u32 {
        let at = 4 * k as usize;
        rec[at..at + 4].copy_from_slice(&(first + k).to_le_bytes());
    }
    rec
}

fn numbered_splat(first: u32) -> RawSplat {
    decode_record(&numbered_record(first))
}

#[test]
fn word_from_le_puts_the_first_byte_lowest() {
    assert_eq!(word_from_le(0x78, 0x56, 0x34, 0x12), 0x1234_5678);
    assert_eq!(word_from_le(0xff, 0xff, 0xff, 0xff), u32::MAX);
    assert_eq!(word_from_le(0, 0, 0, 0), 0);
    assert_eq!(word_from_le(0, 0, 0, 1), 16_777_216);
}

#[test]
fn record_is_62_packed_words() {
    assert_eq!(RECORD_WORDS, 62);
    assert_eq!(RECORD_SIZE, 248);
    assert_eq!(RECORD_SIZE, 4 * RECORD_WORDS);
}

#[test]
fn decode_record_follows_the_layout() {
    let s = numbered_splat(1000);
    assert_eq!(s.pos, [1000, 1001, 1002]);
    assert_eq!(s.normal, [1003, 1004, 1005]);
    assert_eq!(s.f_dc, [1006, 1007, 1008]);
    for k in 0..45 {
        assert_eq!(s.f_rest[k], 1009 + k as u32);
    }
    assert_eq!(s.opacity, 1054);
    assert_eq!(s.log_scale, [1055, 1056, 1057]);
    assert_eq!(s.rot, [1058, 1059, 1060, 1061]);
}

#[test]
fn decode_records_takes_the_first_count_records() {
    let mut payload = Vec::new();
    for i in 0..3u32 {
        payload.extend_from_slice(&numbered_record(100 * i));
    }
    let all = decode_records(&payload, 3).unwrap();
    assert_eq!(all, vec![numbered_splat(0), numbered_splat(100), numbered_splat(200)]);
    let two = decode_records(&payload, 2).unwrap();
    assert_eq!(two, vec![numbered_splat(0), numbered_splat(100)]);
    assert_eq!(decode_records(&payload, 0), Ok(Vec::new()));
    assert_eq!(decode_records(&payload, 4), Err(LoadError::TruncatedData));
    assert_eq!(decode_records(&payload[..743], 3), Err(LoadError::TruncatedData));
    assert_eq!(decode_records(&payload[1..], 2).unwrap()[0].pos[0], 0x0100_0000);
}

#[test]
fn transform_record_reaches_opacity_and_scale_only() {
    let raw = numbered_splat(0);
    let mut s = raw;
    transform_record(&mut s, &|b: u32| b * 2, &|b: u32| b + 1000);
    assert_eq!(s.log_scale, [110, 112, 114]);
    assert_eq!(s.opacity, 1054);
    assert_eq!(s.pos, raw.pos);
    assert_eq!(s.normal, raw.normal);
    assert_eq!(s.f_dc, raw.f_dc);
    assert_eq!(s.f_rest, raw.f_rest);
    assert_eq!(s.rot, raw.rot);
}

#[test]
fn transform_all_keeps_the_order() {
    let mut splats = vec![numbered_splat(0), numbered_splat(100), numbered_splat(200)];
    transform_all(&mut splats, &|b: u32| b + 1, &|b: u32| b + 2);
    assert_eq!(splats.len(), 3);
    for (i, s) in splats.iter().enumerate() {
        let first = 100 * i as u32;
        assert_eq!(s.pos[0], first);
        assert_eq!(s.opacity, first + 54 + 2);
        assert_eq!(s.log_scale, [first + 56, first + 57, first + 58]);
    }
    let mut none: Vec<RawSplat> = Vec::new();
    transform_all(&mut none, &|b: u32| b, &|b: u32| b);
    assert!(none.is_empty());
}

#[test]
fn transforming_twice_is_not_transforming_once() {
    let mut once = vec![numbered_splat(0)];
    transform_all(&mut once, &|b: u32| b + 1, &|b: u32| b + 2);
    let mut twice = once.clone();
    transform_all(&mut twice, &|b: u32| b + 1, &|b: u32| b + 2);
    assert_ne!(once, twice);
}

#[test]
fn vertices_take_position_and_base_colour() {
    let splats = vec![numbered_splat(0), numbered_splat(500)];
    let vertices = make_point_vertices(&splats);
    assert_eq!(
        vertices,
        vec![
            Vertex { pos: [0, 1, 2], color: [6, 7, 8] },
            Vertex { pos: [500, 501, 502], color: [506, 507, 508] },
        ]
    );
    assert_eq!(make_point_vertices(&[]), Vec::new());
}

#[test]
fn classify_goes_by_prefix() {
    assert_eq!(classify(b"binary"), Encoding::Binary);
    assert_eq!(classify(b"binary_little_endian"), Encoding::Binary);
    assert_eq!(classify(b"binary_big_endian"), Encoding::Binary);
    assert_eq!(classify(b"ascii"), Encoding::Ascii);
    assert_eq!(classify(b"asciiart"), Encoding::Ascii);
    assert_eq!(classify(b""), Encoding::Unknown);
    assert_eq!(classify(b"xml"), Encoding::Unknown);
    assert_eq!(classify(b"binar"), Encoding::Unknown);
    assert_eq!(classify(b" binary"), Encoding::Unknown);
    assert_eq!(classify(b"ASCII"), Encoding::Unknown);
}

#[test]
fn parse_unsigned_reads_decimal_numbers() {
    assert_eq!(parse_unsigned(b"0"), Some(0));
    assert_eq!(parse_unsigned(b"42"), Some(42));
    assert_eq!(parse_unsigned(b"+42"), Some(42));
    assert_eq!(parse_unsigned(b"000123"), Some(123));
    assert_eq!(parse_unsigned(usize::MAX.to_string().as_bytes()), Some(usize::MAX));
    let zeros = format!("{}7", "0".repeat(100));
    assert_eq!(parse_unsigned(zeros.as_bytes()), Some(7));
}

#[test]
fn parse_unsigned_rejects_everything_else() {
    assert_eq!(parse_unsigned(b""), None);
    assert_eq!(parse_unsigned(b"+"), None);
    assert_eq!(parse_unsigned(b"-"), None);
    assert_eq!(parse_unsigned(b"-1"), None);
    assert_eq!(parse_unsigned(b"-0"), None);
    assert_eq!(parse_unsigned(b"++1"), None);
    assert_eq!(parse_unsigned(b"1+"), None);
    assert_eq!(parse_unsigned(b"12a"), None);
    assert_eq!(parse_unsigned(b"1.0"), None);
    assert_eq!(parse_unsigned(b"1 "), None);
    assert_eq!(parse_unsigned(b"0x10"), None);
    let over = format!("{}0", usize::MAX);
    assert_eq!(parse_unsigned(over.as_bytes()), None);
    let next = (usize::MAX as u128 + 1).to_string();
    assert_eq!(parse_unsigned(next.as_bytes()), None);
}

#[test]
fn parse_unsigned_agrees_with_the_standard_parser() {
    for tok in ["7", "+7", "-7", "", "+", "18446744073709551615", "18446744073709551616", "1_0", "٣"] {
        assert_eq!(parse_unsigned(tok.as_bytes()), tok.parse::<usize>().ok());
    }
}

#[test]
fn whitespace_is_the_six_ascii_blanks() {
    for b in 0..=255u8 {
        let expected = matches!(b, 0x09 | 0x0a | 0x0b | 0x0c | 0x0d | 0x20);
        assert_eq!(byte_is_space(b), expected);
    }
}

#[test]
fn lines_end_after_their_line_feed() {
    let data = b"ab\ncd\n\nef";
    assert_eq!(find_line_end(data, 0), 3);
    assert_eq!(find_line_end(data, 1), 3);
    assert_eq!(find_line_end(data, 2), 3);
    assert_eq!(find_line_end(data, 3), 6);
    assert_eq!(find_line_end(data, 6), 7);
    assert_eq!(find_line_end(data, 7), 9);
    assert_eq!(find_line_end(data, 9), 9);
    assert_eq!(find_line_end(b"", 0), 0);
}

#[test]
fn tokens_are_separated_by_runs_of_whitespace() {
    let line = b"  element \t vertex\x0b\x0c12\r\n";
    assert_eq!(find_token_start(line, 0), 2);
    assert_eq!(find_token_end(line, 2), 9);
    assert_eq!(find_token_start(line, 9), 12);
    assert_eq!(nth_token(line, 0), Some(&b"element"[..]));
    assert_eq!(nth_token(line, 1), Some(&b"vertex"[..]));
    assert_eq!(nth_token(line, 2), Some(&b"12"[..]));
    assert_eq!(nth_token(line, 3), None);
    assert_eq!(nth_token(b"", 0), None);
    assert_eq!(nth_token(b" \t\n", 0), None);
    assert_eq!(nth_token(b"one", 0), Some(&b"one"[..]));
    assert_eq!(nth_token(b"one", 1), None);
}

#[test]
fn tokens_agree_with_the_standard_splitter_on_ascii() {
    for line in ["format binary_little_endian 1.0\n", " a  b\tc ", "", "x", "element vertex 5\r\n"] {
        for k in 0..5 {
            let expected = line.split_whitespace().nth(k).map(|t| t.as_bytes());
            assert_eq!(nth_token(line.as_bytes(), k), expected);
        }
    }
}

#[test]
fn starts_with_compares_leading_bytes() {
    assert!(starts_with(b"format ascii", b"format"));
    assert!(starts_with(b"format", b"format"));
    assert!(starts_with(b"formatted", b"format"));
    assert!(starts_with(b"anything", b""));
    assert!(!starts_with(b"forma", b"format"));
    assert!(!starts_with(b" format", b"format"));
    assert!(!starts_with(b"Format", b"format"));
    assert!(!starts_with(b"", b"f"));
}

#[test]
fn trimmed_equals_ignores_the_whitespace_around() {
    assert!(trimmed_equals(b"end_header", b"end_header"));
    assert!(trimmed_equals(b"end_header\n", b"end_header"));
    assert!(trimmed_equals(b" \t end_header \r\n", b"end_header"));
    assert!(trimmed_equals(b"  \n", b""));
    assert!(trimmed_equals(b"", b""));
    assert!(!trimmed_equals(b"end_header x\n", b"end_header"));
    assert!(!trimmed_equals(b"end header\n", b"end_header"));
    assert!(!trimmed_equals(b"end_heade\n", b"end_header"));
    assert!(!trimmed_equals(b"end_headers\n", b"end_header"));
    assert!(!trimmed_equals(b"\n", b"end_header"));
}

#[test]
fn scan_header_reports_encoding_count_and_payload_start() {
    let text = b"ply\nformat binary_little_endian 1.0\nelement vertex 12\nproperty float x\nend_header\nPAYLOAD";
    let h = scan_header(text).unwrap();
    assert_eq!(
        h,
        Header {
            encoding: b"binary_little_endian".to_vec(),
            count: 12,
            payload_start: text.len() - 7,
        }
    );
    assert_eq!(&text[h.payload_start..], b"PAYLOAD");
}

#[test]
fn scan_header_stops_at_the_first_terminator() {
    let text = b"end_header\nformat ascii\nelement vertex 3\nend_header\n";
    let h = scan_header(text).unwrap();
    assert_eq!(h, Header { encoding: Vec::new(), count: 0, payload_start: 11 });
}

#[test]
fn scan_header_fails_without_a_terminator() {
    assert_eq!(scan_header(b""), Err(LoadError::Header));
    assert_eq!(scan_header(b"ply\nformat ascii 1.0\n"), Err(LoadError::Header));
    assert_eq!(scan_header(b"end_header x\n"), Err(LoadError::Header));
    assert_eq!(scan_header(b"end_\nheader\n"), Err(LoadError::Header));
}

#[test]
fn scan_header_fails_on_the_first_unusable_directive() {
    assert_eq!(scan_header(b"element vertex\nend_header\n"), Err(LoadError::Header));
    assert_eq!(scan_header(b"element vertex two\nend_header\n"), Err(LoadError::Header));
    assert_eq!(scan_header(b"format \t\nend_header\n"), Err(LoadError::Header));
    assert_eq!(scan_header(b"element vertex 1\nelement vertex\nend_header\n"), Err(LoadError::Header));
}

#[test]
fn scan_header_matches_directives_by_prefix() {
    let h = scan_header(b"formatted as binary\nelement vertex_count 9\nend_header\n").unwrap();
    assert_eq!(h.encoding, b"as".to_vec());
    assert_eq!(h.count, 9);
    let g = scan_header(b"element  vertex 4\nelement face 2\nend_header\n").unwrap();
    assert_eq!(g.count, 0);
}
