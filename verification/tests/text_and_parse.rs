use zkcat::{compute_commitment, parse_redaction_spec, redacted_text, text_digest};

#[test]
fn parses_plain_list() {
    assert_eq!(parse_redaction_spec("0,2,5"), vec![0, 2, 5]);
}

#[test]
fn skips_malformed_tokens() {
    assert_eq!(parse_redaction_spec("1, 2,x,3"), vec![1, 3]);
    assert_eq!(parse_redaction_spec("a,b"), Vec::<usize>::new());
    assert_eq!(parse_redaction_spec("1,,2"), vec![1, 2]);
    assert_eq!(parse_redaction_spec("-1,2"), vec![2]);
}

#[test]
fn empty_spec_is_empty() {
    assert_eq!(parse_redaction_spec(""), Vec::<usize>::new());
}

#[test]
fn accepts_leading_plus() {
    assert_eq!(parse_redaction_spec("+7"), vec![7]);
    assert_eq!(parse_redaction_spec("+"), Vec::<usize>::new());
}

#[test]
fn skips_overflowing_token() {
    assert_eq!(parse_redaction_spec("99999999999999999999999999,1"), vec![1]);
    let max = format!("{}", usize::MAX);
    assert_eq!(parse_redaction_spec(&max), vec![usize::MAX]);
}

#[test]
fn keeps_duplicates_and_order() {
    assert_eq!(parse_redaction_spec("3,1,3"), vec![3, 1, 3]);
}

#[test]
fn carriage_return_before_newline_is_a_line_ending() {
    assert_eq!(redacted_text("a\r\nb", &vec![0]), "***REDACTED***\nb");
    assert_eq!(redacted_text("a\r\nb", &vec![]), "a\nb");
}

#[test]
fn lone_carriage_return_is_kept() {
    assert_eq!(redacted_text("a\rb", &vec![]), "a\rb");
}

#[test]
fn trailing_newline_yields_no_empty_line() {
    assert_eq!(redacted_text("a\nb\n", &vec![1]), "a\n***REDACTED***");
}

#[test]
fn empty_document() {
    assert_eq!(redacted_text("", &vec![]), "");
    assert_eq!(redacted_text("", &vec![0]), "");
    let c = compute_commitment("", &vec![0]);
    assert!(c.redacted.equals(&c.full));
}

#[test]
fn blank_lines_are_lines() {
    assert_eq!(redacted_text("a\n\nc", &vec![1]), "a\n***REDACTED***\nc");
}

#[test]
fn digest_matches_reference_hasher() {
    let d = text_digest("alpha\nbeta");
    let reference: [u8; 32] = <sha2::Sha256 as sha2::Digest>::digest("alpha\nbeta".as_bytes()).into();
    assert_eq!(d.bytes, reference);
    assert_eq!(d.to_hex(), hex::encode(reference));
}

#[test]
fn known_digest_vectors() {
    assert_eq!(
        text_digest("abc").to_hex(),
        "ba7816bf8f01cfea414140de5dae2223b00361a396177a9cb410ff61f20015ad"
    );
    assert_eq!(
        text_digest("").to_hex(),
        "e3b0c44298fc1c149afbf4c8996fb92427ae41e4649b934ca495991b7852b855"
    );
}

#[test]
fn digest_equality_is_by_bytes() {
    let a = text_digest("x");
    let b = text_digest("x");
    let c = text_digest("y");
    assert!(a.equals(&b));
    assert!(!a.equals(&c));
}
