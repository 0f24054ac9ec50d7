use std::collections::HashMap;

use psrdada::builder::DadaClientBuilder;
use psrdada::errors::PsrdadaError;
use psrdada::headers::{bytes_to_header, header_to_bytes, parse_header_pairs};

fn pairs_of(map: &HashMap<String, String>) -> Vec<(String, String)> {
    map.iter().map(|(k, v)| (k.clone(), v.clone())).collect()
}

fn map_of(pairs: Vec<(String, String)>) -> HashMap<String, String> {
    pairs.into_iter().collect()
}

fn text(b: &[u8]) -> Vec<u8> {
    b.to_vec()
}

#[test]
fn test_to_and_from_header() {
    let mut header = HashMap::new();
    header.insert("KEY".to_string(), "VALUE".to_string());
    header.insert("KEY2".to_string(), "VALUE2".to_string());
    let bytes = header_to_bytes(&pairs_of(&header));
    let new_header = map_of(bytes_to_header(&bytes).unwrap());
    assert_eq!(header, new_header)
}

#[test]
fn test_pair_parser() {
    let pairs = parse_header_pairs(b"FOO_BAR 123.456").unwrap();
    assert_eq!(text(b"FOO_BAR"), pairs[0].0);
    assert_eq!(text(b"123.456"), pairs[0].1);
}

#[test]
fn test_commented_pair_parser() {
    let pairs = parse_header_pairs(b"FOO_BAR 123.456    # random nonsense foo barbaz").unwrap();
    assert_eq!(text(b"FOO_BAR"), pairs[0].0);
    assert_eq!(text(b"123.456"), pairs[0].1);
}

#[test]
fn test_header_parser() {
    let hdr = b"FOO\tBAR # A comment\nBAZ   \tquuz123#morecomment__\n\nbEanS __RICE__";
    let pairs = parse_header_pairs(hdr).unwrap();

    let p1 = pairs.get(0).unwrap();
    assert_eq!(text(b"FOO"), p1.0);
    assert_eq!(text(b"BAR"), p1.1);

    let p2 = pairs.get(1).unwrap();
    assert_eq!(text(b"BAZ"), p2.0);
    assert_eq!(text(b"quuz123"), p2.1);

    let p3 = pairs.get(2).unwrap();
    assert_eq!(text(b"bEanS"), p3.0);
    assert_eq!(text(b"__RICE__"), p3.1);

    assert_eq!(pairs.len(), 3);
}

#[test]
fn test_from_c_string() {
    let hdr = b"foo bar\nbaz buzz#foob\n\0\0\0\0\0\0\0\0\0\0\0\0\0\0\0\0";
    let pairs = parse_header_pairs(hdr).unwrap();

    let p1 = pairs.get(0).unwrap();
    assert_eq!(text(b"foo"), p1.0);
    assert_eq!(text(b"bar"), p1.1);

    let p2 = pairs.get(1).unwrap();
    assert_eq!(text(b"baz"), p2.0);
    assert_eq!(text(b"buzz"), p2.1);
}

#[test]
fn test_bytes_to_header() {
    let hdr = b"foo bar\nbaz buzz";
    let hdr_parsed = map_of(bytes_to_header(hdr).unwrap());
    assert_eq!(
        HashMap::from([
            ("foo".to_owned(), "bar".to_owned()),
            ("baz".to_owned(), "buzz".to_owned()),
        ]),
        hdr_parsed
    )
}

#[test]
fn test_roundtrip_header() {
    let mut client = DadaClientBuilder::new(2).build().unwrap();

    let header = HashMap::from([
        ("foo".to_owned(), "bar".to_owned()),
        ("baz".to_owned(), "buzz".to_owned()),
    ]);

    // Push
    client.push_header(&pairs_of(&header)).unwrap();

    // Pop
    assert_eq!(header, map_of(client.pop_header().unwrap()));
}

#[test]
fn header_round_trip_keeps_pairs() {
    let header = vec![
        ("START_FREQ".to_owned(), "1530".to_owned()),
        ("TSAMP".to_owned(), "8.193e-6".to_owned()),
    ];
    let bytes = header_to_bytes(&header);
    assert_eq!(bytes, b"START_FREQ 1530\nTSAMP 8.193e-6\n".to_vec());
    assert_eq!(bytes_to_header(&bytes).unwrap(), header);
}

#[test]
fn header_blank_lines_and_comments_are_ignored() {
    let parsed = bytes_to_header(b"FOO\tBAR # comment\n\n").unwrap();
    assert_eq!(parsed, vec![("FOO".to_owned(), "BAR".to_owned())]);
}

#[test]
fn header_crlf_lines() {
    let parsed = bytes_to_header(b"\r\nA 1\r\nB 2 # two\r\n").unwrap();
    assert_eq!(
        parsed,
        vec![("A".to_owned(), "1".to_owned()), ("B".to_owned(), "2".to_owned())]
    );
}

#[test]
fn header_empty_and_zero_padded_blocks_hold_no_pairs() {
    assert_eq!(bytes_to_header(b"").unwrap(), vec![]);
    assert_eq!(bytes_to_header(&[0u8; 16]).unwrap(), vec![]);
}

#[test]
fn header_duplicate_keys_last_wins() {
    assert_eq!(bytes_to_header(b"A 1\nA 2").unwrap(), vec![("A".to_owned(), "2".to_owned())]);
    let parsed = bytes_to_header(b"K 1\nL x\nK 2\n").unwrap();
    assert_eq!(
        parsed,
        vec![("L".to_owned(), "x".to_owned()), ("K".to_owned(), "2".to_owned())]
    );
    assert_eq!(
        map_of(bytes_to_header(b"A 1\nA 2").unwrap()),
        HashMap::from([("A".to_owned(), "2".to_owned())])
    );
}

#[test]
fn header_earlier_duplicate_is_not_decoded() {
    // The first value is not UTF-8, but a later pair replaces it.
    assert_eq!(
        bytes_to_header(b"K \xff\nK ok\n").unwrap(),
        vec![("K".to_owned(), "ok".to_owned())]
    );
}

#[test]
fn header_malformed_lines_are_refused() {
    assert_eq!(bytes_to_header(b"KEY\n"), Err(PsrdadaError::HeaderParseError));
    assert_eq!(bytes_to_header(b"A B C\n"), Err(PsrdadaError::HeaderParseError));
    assert_eq!(bytes_to_header(b"# only a comment\n"), Err(PsrdadaError::HeaderParseError));
    assert_eq!(bytes_to_header(b"A B\rX"), Err(PsrdadaError::HeaderParseError));
}

#[test]
fn header_invalid_utf8_is_refused() {
    assert_eq!(bytes_to_header(b"KEY \xff\xfe\n"), Err(PsrdadaError::UTF8Error));
}

#[test]
fn header_text_is_decoded() {
    let parsed = bytes_to_header("CLÉ valeur\n".as_bytes()).unwrap();
    assert_eq!(parsed, vec![("CLÉ".to_owned(), "valeur".to_owned())]);
}

#[test]
fn header_overflow_is_refused() {
    let mut client = DadaClientBuilder::new(4).header_size(8).build().unwrap();
    let header = vec![("LONGKEY".to_owned(), "LONGVALUE".to_owned())];
    assert_eq!(client.push_header(&header), Err(PsrdadaError::HeaderOverflow));
    assert_eq!(client.pop_header(), Err(PsrdadaError::HeaderEodError));
}

#[test]
fn header_block_is_padded_to_a_full_slot() {
    let mut client = DadaClientBuilder::new(6).header_size(32).build().unwrap();
    let header = vec![("A".to_owned(), "B".to_owned())];
    assert_eq!(client.push_header(&header), Ok(32));
    assert_eq!(client.pop_header().unwrap(), header);
    // A full block does not end the stream: a second header is still read.
    assert_eq!(client.push_header(&header), Ok(32));
    assert_eq!(client.pop_header().unwrap(), header);
}
