//! Tests of the canonical serializer and the parser.

use woman::entry::Entry;
use woman::entry::Section;
use woman::entry::serialize;
use woman::parser::FormatError;
use woman::parser::parse_entry;
use woman::parser::parse_heading;

fn sample_entry() -> Entry {
    Entry {
        name: b"app".to_vec(),
        tldr: b"foo".to_vec(),
        info: b"bar".to_vec(),
        common_uses: b"baz".to_vec(),
        resources: b"qux".to_vec(),
        extra: b"Extra\nzap".to_vec(),
    }
}

const SAMPLE_TEXT: &[u8] =
    b"# TLDR \nfoo\n\n# Info \nbar\n\n# Common Uses \nbaz\n\n# Resources \nqux\n\n# Extra\nzap\n";

#[test]
fn heading_text() {
    let t1: Vec<u8> = b"# simply \n".to_vec();
    let p = parse_heading(&t1, 0);
    assert!(p.is_some());
    let (label, end) = p.unwrap();
    assert_eq!(label, b"simply ".to_vec());
    assert_eq!(end, t1.len());
}

#[test]
fn heading_rejects_missing_space() {
    let t: Vec<u8> = b"#simply\n".to_vec();
    assert!(parse_heading(&t, 0).is_none());
}

#[test]
fn heading_rejects_double_hash() {
    let t: Vec<u8> = b"## simply\n".to_vec();
    assert!(parse_heading(&t, 0).is_none());
}

#[test]
fn heading_rejects_missing_line_ending() {
    let t: Vec<u8> = b"# simply".to_vec();
    assert!(parse_heading(&t, 0).is_none());
}

#[test]
fn heading_accepts_crlf() {
    let t: Vec<u8> = b"# simply\r\nrest".to_vec();
    let (label, end) = parse_heading(&t, 0).unwrap();
    assert_eq!(label, b"simply".to_vec());
    assert_eq!(end, b"# simply\r\n".len());
}

#[test]
fn parses_canonical_example() {
    let input = SAMPLE_TEXT.to_vec();
    let name = b"app".to_vec();
    let e = parse_entry(&input, &name).unwrap();
    assert_eq!(e.name, b"app".to_vec());
    assert_eq!(e.tldr, b"foo".to_vec());
    assert_eq!(e.info, b"bar".to_vec());
    assert_eq!(e.common_uses, b"baz".to_vec());
    assert_eq!(e.resources, b"qux".to_vec());
    assert_eq!(e.extra, b"Extra\nzap".to_vec());
}

#[test]
fn wrong_label_is_missing_heading() {
    let input =
        b"# TLDR \nfoo\n\n# Intro \nbar\n\n# Common Uses \nbaz\n\n# Resources \nqux\n\n# Extra\nzap\n"
            .to_vec();
    let name = b"app".to_vec();
    let r = parse_entry(&input, &name);
    assert_eq!(r, Err(FormatError::MissingHeading(Section::Info)));
}

#[test]
fn malformed_first_heading_is_missing_heading() {
    let input = b"TLDR\nfoo\n\n# Info \nbar\n".to_vec();
    let name = b"app".to_vec();
    let r = parse_entry(&input, &name);
    assert_eq!(r, Err(FormatError::MissingHeading(Section::Tldr)));
}

#[test]
fn empty_input_is_missing_heading() {
    let input = Vec::new();
    let name = b"app".to_vec();
    let r = parse_entry(&input, &name);
    assert_eq!(r, Err(FormatError::MissingHeading(Section::Tldr)));
}

#[test]
fn double_hash_marker_truncates_tldr() {
    // The section terminator is the raw two-byte substring "# ": in
    // "## Info" it matches at the second `#`, so the tldr body
    // swallows one `#` and the heading that follows still reads
    // "Info". This is the format's documented truncation limitation,
    // not a missing heading.
    let input =
        b"# TLDR \nfoo\n\n## Info \nbar\n\n# Common Uses \nbaz\n\n# Resources \nqux\n\n# Extra\nzap\n"
            .to_vec();
    let name = b"app".to_vec();
    let e = parse_entry(&input, &name).unwrap();
    assert_eq!(e.tldr, b"foo\n\n#".to_vec());
    assert_eq!(e.info, b"bar".to_vec());
}

#[test]
fn removed_terminator_is_unterminated_resources() {
    let input =
        b"# TLDR \nfoo\n\n# Info \nbar\n\n# Common Uses \nbaz\n\n# Resources \nqux\n\nExtra\nzap\n"
            .to_vec();
    let name = b"app".to_vec();
    let r = parse_entry(&input, &name);
    assert_eq!(r, Err(FormatError::UnterminatedSection(Section::Resources)));
}

#[test]
fn unterminated_tldr() {
    let input = b"# TLDR \nfoo with no further heading\n".to_vec();
    let name = b"app".to_vec();
    let r = parse_entry(&input, &name);
    assert_eq!(r, Err(FormatError::UnterminatedSection(Section::Tldr)));
}

#[test]
fn leading_blank_lines_are_skipped() {
    let mut input = b"\n\n   \n".to_vec();
    input.extend_from_slice(SAMPLE_TEXT);
    let name = b"app".to_vec();
    let e = parse_entry(&input, &name).unwrap();
    assert_eq!(e.tldr, b"foo".to_vec());
}

#[test]
fn bodies_are_trimmed_at_the_end() {
    let input =
        b"# TLDR \nfoo  \n\n# Info \nbar\t\n\n# Common Uses \nbaz\n\n# Resources \nqux\n\n# Extra\nzap  \n\n"
            .to_vec();
    let name = b"app".to_vec();
    let e = parse_entry(&input, &name).unwrap();
    assert_eq!(e.tldr, b"foo".to_vec());
    assert_eq!(e.info, b"bar".to_vec());
    assert_eq!(e.extra, b"Extra\nzap".to_vec());
}

#[test]
fn extra_keeps_inner_whitespace() {
    let input =
        b"# TLDR \nfoo\n\n# Info \nbar\n\n# Common Uses \nbaz\n\n# Resources \nqux\n\n# Extra \nzap  \nmore\n"
            .to_vec();
    let name = b"app".to_vec();
    let e = parse_entry(&input, &name).unwrap();
    assert_eq!(e.extra, b"Extra \nzap  \nmore".to_vec());
}

#[test]
fn serialize_canonical_bytes() {
    let e = sample_entry();
    let text = serialize(&e);
    assert_eq!(
        text,
        b"# TLDR \nfoo\n\n# Info \nbar\n\n# Common Uses \nbaz\n\n# Resources \nqux\n\n# Extra\nzap"
            .to_vec()
    );
}

#[test]
fn serialize_trims_sections() {
    let mut e = sample_entry();
    e.tldr = b"foo  ".to_vec();
    e.extra = b"Extra\nzap\n\n".to_vec();
    let text = serialize(&e);
    assert_eq!(
        text,
        b"# TLDR \nfoo\n\n# Info \nbar\n\n# Common Uses \nbaz\n\n# Resources \nqux\n\n# Extra\nzap"
            .to_vec()
    );
}

#[test]
fn into_bytes_matches_serialize() {
    let e = sample_entry();
    let text = serialize(&e);
    assert_eq!(e.into_bytes(), text);
}

#[test]
fn round_trip_parse_of_serialize() {
    let e = sample_entry();
    let text = serialize(&e);
    let back = parse_entry(&text, &e.name).unwrap();
    assert_eq!(back, e);
}

#[test]
fn serialize_is_idempotent_through_parse() {
    let e = sample_entry();
    let text = serialize(&e);
    let back = parse_entry(&text, &e.name).unwrap();
    assert_eq!(serialize(&back), text);
}

#[test]
fn default_template_fields() {
    let d = Entry::default();
    assert_eq!(d.name, b"name".to_vec());
    assert_eq!(
        d.tldr,
        b"\n What the application does in one to two sentences".to_vec()
    );
    assert_eq!(
        d.info,
        b"More information, generally useful tips and tricks\n- could\n- use\n- a\n- list"
            .to_vec()
    );
    assert_eq!(
        d.common_uses,
        b"\n## All of these can use subheadings\n\n`woman-e <app>`\nexamples with text explaining what they do"
            .to_vec()
    );
    assert_eq!(
        d.resources,
        b"\nAny links?\nhttps://github.com/woonters/woman".to_vec()
    );
    assert_eq!(
        d.extra,
        b"Extra\nAnything can go here, you can even edit the word 'Extra'".to_vec()
    );
}

#[test]
fn default_template_reparse_hits_marker_limitation() {
    // The template's common-uses section contains "## All of these
    // can use subheadings": the raw "# " terminator matches inside
    // "## ", so re-parsing the serialized template truncates that
    // section and then misses the Resources heading.
    let d = Entry::default();
    let text = serialize(&d);
    let r = parse_entry(&text, &b"name".to_vec());
    assert_eq!(r, Err(FormatError::MissingHeading(Section::Resources)));
}
