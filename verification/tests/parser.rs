//! Tests of the section parser: exact byte ranges, line numbers, last
//! lines, header recognition and duplicate handling.

use snaptest::parse::find_section;
use snaptest::parse::parse_sections;
use snaptest::SectionKind;

const FIXTURE: &str = "[a]\nhello\n[expected.fmt]\nHELLO\n\n";

#[test]
fn two_sections_partition_the_text() {
    let text = FIXTURE.as_bytes();
    let secs = parse_sections(text);
    assert_eq!(secs.len(), 2);

    assert_eq!(secs[0].name, b"a".to_vec());
    assert_eq!(secs[0].start, 0);
    assert_eq!(secs[0].body_start, 4);
    assert_eq!(secs[0].end, 10);
    assert_eq!(secs[0].line, 1);
    assert_eq!(secs[0].kind, SectionKind::Input);
    assert_eq!(secs[0].last_line, b"[expected.fmt]".to_vec());

    assert_eq!(secs[1].name, b"expected.fmt".to_vec());
    assert_eq!(secs[1].start, 10);
    assert_eq!(secs[1].body_start, 25);
    assert_eq!(secs[1].end, text.len());
    assert_eq!(secs[1].line, 3);
    assert_eq!(secs[1].kind, SectionKind::Expected);
    assert_eq!(secs[1].last_line, Vec::<u8>::new());

    // ranges are adjacent and reach the end: no gaps, no overlaps
    assert_eq!(secs[0].end, secs[1].start);
}

#[test]
fn three_sections_partition_without_gaps_or_overlaps() {
    let text = b"[alpha]\none\n[beta]\ntwo\nthree\n[expected.x]\nfour\n";
    let secs = parse_sections(text);
    assert_eq!(secs.len(), 3);
    assert_eq!(secs[0].start, 0);
    for w in secs.windows(2) {
        assert_eq!(w[0].end, w[1].start);
        assert_eq!(w[0].last_line.as_slice(), &text[w[1].start..w[1].start + w[1].name.len() + 2]);
    }
    assert_eq!(secs[2].end, text.len());
    assert_eq!(secs[2].last_line, Vec::<u8>::new());
    assert_eq!(secs[0].line, 1);
    assert_eq!(secs[1].line, 3);
    assert_eq!(secs[2].line, 6);
}

#[test]
fn no_headers_yields_no_sections() {
    assert_eq!(parse_sections(b"just some text\nwith lines\n").len(), 0);
    assert_eq!(parse_sections(b"").len(), 0);
}

#[test]
fn headers_may_carry_surrounding_whitespace() {
    let text = b"  [a]  \nx\n\t[b.c-d_e]\t\ny\n";
    let secs = parse_sections(text);
    assert_eq!(secs.len(), 2);
    assert_eq!(secs[0].name, b"a".to_vec());
    assert_eq!(secs[1].name, b"b.c-d_e".to_vec());
    assert_eq!(secs[0].last_line, b"\t[b.c-d_e]\t".to_vec());
}

#[test]
fn carriage_returns_are_stripped_from_lines() {
    let text = b"[a]\r\nbody\r\n[b]\r\nrest\r\n";
    let secs = parse_sections(text);
    assert_eq!(secs.len(), 2);
    assert_eq!(secs[0].name, b"a".to_vec());
    // the last line is the next header's visible text, without CR or LF
    assert_eq!(secs[0].last_line, b"[b]".to_vec());
}

#[test]
fn malformed_headers_are_not_recognized() {
    // digits, spaces and an empty name are outside the header grammar,
    // and an unterminated bracket is no header at all
    let text = b"[a1]\n[]\n[has space]\n[open\nplain\n";
    assert_eq!(parse_sections(text).len(), 0);
}

#[test]
fn text_before_the_first_header_belongs_to_no_section() {
    let text = b"preamble\n[a]\nbody\n";
    let secs = parse_sections(text);
    assert_eq!(secs.len(), 1);
    assert_eq!(secs[0].start, 9);
    assert_eq!(secs[0].line, 2);
    assert_eq!(secs[0].end, text.len());
}

#[test]
fn duplicate_names_resolve_to_the_later_occurrence() {
    let text = b"[a]\nfirst\n[a]\nsecond\n";
    let secs = parse_sections(text);
    assert_eq!(secs.len(), 2);
    let k = find_section(&secs, b"a").unwrap();
    assert_eq!(k, 1);
    assert_eq!(&text[secs[k].body_start..secs[k].end], b"second\n");
}

#[test]
fn find_section_misses_an_absent_name() {
    let secs = parse_sections(b"[a]\nx\n");
    assert!(find_section(&secs, b"b").is_none());
}
