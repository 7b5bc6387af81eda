//! The section parser: turns a fixture's raw bytes into a sequence of named,
//! exactly bounded sections, tracking byte offsets and line numbers.

use vstd::prelude::*;

verus! {

/// ASCII codes used by the header grammar.
pub const LBRACK: u8 = 91;

pub const RBRACK: u8 = 93;

pub const NEWLINE: u8 = 10;

pub const CARRIAGE: u8 = 13;

pub const SPACE: u8 = 32;

pub const TAB: u8 = 9;

pub const VTAB: u8 = 11;

pub const FORMFEED: u8 = 12;

pub const DOT: u8 = 46;

pub const DASH: u8 = 45;

pub const UNDERSCORE: u8 = 95;

/// A byte that may appear in a section name: ASCII letters, '.', '-', '_'.
pub open spec fn is_name_byte(b: u8) -> bool {
    (97 <= b && b <= 122) || (65 <= b && b <= 90) || b == DOT || b == DASH || b == UNDERSCORE
}

/// Horizontal whitespace that may surround a header on its line.
pub open spec fn is_space_byte(b: u8) -> bool {
    b == SPACE || b == TAB || b == CARRIAGE || b == VTAB || b == FORMFEED
}

/// Index of the first non-whitespace byte of `s` at or after `i`, or `s.len()`.
pub open spec fn first_nonspace_at(s: Seq<u8>, i: int) -> int
    decreases s.len() - i,
{
    if i < 0 || i >= s.len() {
        s.len() as int
    } else if is_space_byte(s[i]) {
        first_nonspace_at(s, i + 1)
    } else {
        i
    }
}

/// Index of the last non-whitespace byte of `s` strictly before `i`, or -1.
pub open spec fn last_nonspace_before(s: Seq<u8>, i: int) -> int
    decreases i,
{
    if i <= 0 || i > s.len() {
        -1
    } else if is_space_byte(s[i - 1]) {
        last_nonspace_before(s, i - 1)
    } else {
        i - 1
    }
}

/// A line is a section header iff, after trimming surrounding whitespace, it
/// is exactly `[`, one or more name bytes, `]`.
#[verifier::opaque]
pub open spec fn is_header_line(line: Seq<u8>) -> bool {
    let a = first_nonspace_at(line, 0);
    let z = last_nonspace_before(line, line.len() as int);
    &&& a < line.len()
    &&& z - a >= 2
    &&& line[a] == LBRACK
    &&& line[z] == RBRACK
    &&& forall|i: int| a < i < z ==> is_name_byte(#[trigger] line[i])
}

/// The name between the brackets of a header line.
#[verifier::opaque]
pub open spec fn header_name(line: Seq<u8>) -> Seq<u8> {
    line.subrange(first_nonspace_at(line, 0) + 1, last_nonspace_before(line, line.len() as int))
}

/// Index of the first line break at or after `i`, or `text.len()`.
pub open spec fn line_break_at(text: Seq<u8>, i: int) -> int
    decreases text.len() - i,
{
    if i < 0 || i >= text.len() {
        text.len() as int
    } else if text[i] == NEWLINE {
        i
    } else {
        line_break_at(text, i + 1)
    }
}

/// Start of the line following the one that begins at `i`.
pub open spec fn next_line_start(text: Seq<u8>, i: int) -> int {
    let b = line_break_at(text, i);
    if b < text.len() {
        b + 1
    } else {
        b
    }
}

/// End of the visible content of the line beginning at `i`: the line break,
/// stepping over a final carriage return.
pub open spec fn line_content_end(text: Seq<u8>, i: int) -> int {
    let b = line_break_at(text, i);
    if b > i && b - 1 < text.len() && text[b - 1] == CARRIAGE {
        b - 1
    } else {
        b
    }
}

/// The visible content of the line beginning at `i`.
#[verifier::opaque]
pub open spec fn line_text(text: Seq<u8>, i: int) -> Seq<u8> {
    text.subrange(i, line_content_end(text, i))
}

/// Whether `p` is the first byte of a line.
pub open spec fn is_line_start(text: Seq<u8>, p: int) -> bool {
    0 <= p <= text.len() && (p == 0 || text[p - 1] == NEWLINE)
}

/// Count of line breaks in `text` before index `i`.
pub open spec fn count_breaks_upto(text: Seq<u8>, i: int) -> int
    decreases i,
{
    if i <= 0 || i > text.len() {
        0
    } else {
        count_breaks_upto(text, i - 1) + if text[i - 1] == NEWLINE {
            1int
        } else {
            0int
        }
    }
}

/// The name prefix that marks a section as expected output: `expected.`.
pub open spec fn expected_prefix() -> Seq<u8> {
    seq![101u8, 120, 112, 101, 99, 116, 101, 100, DOT]
}

/// A name with the `expected.` prefix names a golden section; all others are
/// inputs to the function under test.
pub open spec fn is_expected_name(name: Seq<u8>) -> bool {
    name.len() >= 9 && name.subrange(0, 9) == expected_prefix()
}

#[derive(PartialEq, Eq, Structural, Clone, Copy, Debug)]
pub enum SectionKind {
    Input,
    Expected,
}

/// One named section of a fixture. `start` is the byte offset of its header
/// line, `body_start` the offset just past that line, `end` the offset of the
/// next header line (or the text's length). `line` is the 1-based line number
/// of the header, and `last_line` the verbatim text of the following
/// section's header, empty for the final section.
pub struct Section {
    pub name: Vec<u8>,
    pub kind: SectionKind,
    pub start: usize,
    pub body_start: usize,
    pub end: usize,
    pub line: usize,
    pub last_line: Vec<u8>,
}

/// Everything a section promises about itself relative to its fixture text,
/// except its `end` and `last_line`, which tie adjacent sections together.
pub open spec fn section_wf(text: Seq<u8>, s: Section) -> bool {
    &&& is_line_start(text, s.start as int)
    &&& is_header_line(line_text(text, s.start as int))
    &&& s.name@ == header_name(line_text(text, s.start as int))
    &&& s.body_start == next_line_start(text, s.start as int)
    &&& s.start < s.body_start <= s.end <= text.len()
    &&& s.line == 1 + count_breaks_upto(text, s.start as int)
    &&& (s.kind == SectionKind::Expected <==> is_expected_name(s.name@))
}

/// There is a parsed section whose header line begins at byte `p`.
pub open spec fn has_section_at(secs: Seq<Section>, p: int) -> bool {
    exists|k: int| 0 <= k < secs.len() && (#[trigger] secs[k]).start == p
}

/// The full contract of the section parser: every section is well formed, the
/// byte ranges are adjacent and reach the end of the text, each section's
/// last line is the verbatim header text of the next section (empty for the
/// final one), and every header line of the text opens exactly one section.
pub open spec fn parse_ok(text: Seq<u8>, secs: Seq<Section>) -> bool {
    let n = secs.len() as int;
    &&& forall|k: int| 0 <= k < n ==> section_wf(text, #[trigger] secs[k])
    &&& forall|k: int|
        #![trigger secs[k], secs[k + 1]]
        0 <= k < n - 1 ==> secs[k].end == secs[k + 1].start && secs[k].last_line@ == line_text(
            text,
            secs[k + 1].start as int,
        )
    &&& n > 0 ==> secs[n - 1].end == text.len() && secs[n - 1].last_line@ == Seq::<u8>::empty()
    &&& forall|p: int|
        is_line_start(text, p) && 0 <= p < text.len() && is_header_line(
            #[trigger] line_text(text, p),
        ) ==> has_section_at(secs, p)
}

/// Sections come in text order: an earlier section ends no later than a
/// later one begins.
pub proof fn lemma_sections_ordered(text: Seq<u8>, secs: Seq<Section>, k: int, j: int)
    requires
        parse_ok(text, secs),
        0 <= k < j < secs.len(),
    ensures
        secs[k].end <= secs[j].start,
    decreases j - k,
{
    if k + 1 < j {
        lemma_sections_ordered(text, secs, k, j - 1);
        assert(section_wf(text, secs[j - 1]));
        let kk: int = j - 1;
        assert(secs[kk].end == secs[kk + 1].start);
    } else {
        assert(secs[k].end == secs[k + 1].start);
    }
}

/// The parsed byte ranges partition the text from the first header line to
/// the end: every byte position from there on lies in exactly one section.
pub proof fn lemma_sections_partition(text: Seq<u8>, secs: Seq<Section>, p: int)
    requires
        parse_ok(text, secs),
        secs.len() > 0,
        secs[0].start <= p < text.len(),
    ensures
        exists|k: int| 0 <= k < secs.len() && (#[trigger] secs[k]).start <= p < secs[k].end,
        forall|k: int, j: int|
            #![trigger secs[k], secs[j]]
            0 <= k < secs.len() && 0 <= j < secs.len() && secs[k].start <= p < secs[k].end
                && secs[j].start <= p < secs[j].end ==> k == j,
{
    lemma_sections_cover(text, secs, p, 0);
    assert forall|k: int, j: int|
        #![trigger secs[k], secs[j]]
        0 <= k < secs.len() && 0 <= j < secs.len() && secs[k].start <= p < secs[k].end
            && secs[j].start <= p < secs[j].end implies k == j by {
        if k < j {
            lemma_sections_ordered(text, secs, k, j);
        }
        if j < k {
            lemma_sections_ordered(text, secs, j, k);
        }
    }
}

/// Helper for the partition lemma: walks the adjacent ranges until the one
/// holding `p` is reached.
proof fn lemma_sections_cover(text: Seq<u8>, secs: Seq<Section>, p: int, k: int)
    requires
        parse_ok(text, secs),
        0 <= k < secs.len(),
        secs[k].start <= p < text.len(),
    ensures
        exists|j: int| 0 <= j < secs.len() && (#[trigger] secs[j]).start <= p < secs[j].end,
    decreases secs.len() - k,
{
    if p < secs[k].end {
        assert(secs[k].start <= p < secs[k].end);
    } else {
        assert(section_wf(text, secs[k]));
        assert(k < secs.len() - 1) by {
            if k == secs.len() - 1 {
                assert(secs[k].end == text.len());
            }
        }
        lemma_sections_cover(text, secs, p, k + 1);
    }
}

/// First ensures of `lemma_line_break_at` and friends: facts about the line
/// break that the recursive definitions leave implicit.
pub proof fn lemma_line_break_at(text: Seq<u8>, i: int)
    requires
        0 <= i <= text.len(),
    ensures
        i <= line_break_at(text, i) <= text.len(),
        forall|t: int| i <= t < line_break_at(text, i) ==> #[trigger] text[t] != NEWLINE,
        line_break_at(text, i) < text.len() ==> text[line_break_at(text, i)] == NEWLINE,
    decreases text.len() - i,
{
    if i < text.len() && text[i] != NEWLINE {
        lemma_line_break_at(text, i + 1);
    }
}

/// A stretch of text without line breaks does not change the break count.
pub proof fn lemma_count_breaks_range(text: Seq<u8>, a: int, b: int)
    requires
        0 <= a <= b <= text.len(),
        forall|t: int| a <= t < b ==> #[trigger] text[t] != NEWLINE,
    ensures
        count_breaks_upto(text, b) == count_breaks_upto(text, a),
    decreases b - a,
{
    if b > a {
        lemma_count_breaks_range(text, a, b - 1);
    }
}

/// Finds the first line break at or after `i`.
fn find_line_break(text: &[u8], i: usize) -> (j: usize)
    requires
        i <= text@.len(),
    ensures
        j == line_break_at(text@, i as int),
        i <= j <= text@.len(),
{
    let nlen = text.len();
    let mut j: usize = i;
    while j < nlen && text[j] != NEWLINE
        invariant
            i <= j <= nlen == text@.len(),
            line_break_at(text@, i as int) == line_break_at(text@, j as int),
        decreases nlen - j,
    {
        j = j + 1;
    }
    j
}

/// Copies `text[a..b]` into a fresh vector.
pub(crate) fn copy_range(text: &[u8], a: usize, b: usize) -> (r: Vec<u8>)
    requires
        a <= b <= text@.len(),
    ensures
        r@ == text@.subrange(a as int, b as int),
{
    let mut r: Vec<u8> = Vec::new();
    let mut t: usize = a;
    while t < b
        invariant
            a <= t <= b <= text@.len(),
            r@ == text@.subrange(a as int, t as int),
        decreases b - t,
    {
        r.push(text[t]);
        assert(r@ =~= text@.subrange(a as int, t + 1));
        t = t + 1;
    }
    r
}

/// Whether `name` begins with the nine bytes of `expected.`.
fn has_expected_prefix(name: &Vec<u8>) -> (r: bool)
    ensures
        r == is_expected_name(name@),
{
    if name.len() < 9 {
        assert(!is_expected_name(name@));
        return false;
    }
    let r = name[0] == 101 && name[1] == 120 && name[2] == 112 && name[3] == 101 && name[4] == 99
        && name[5] == 116 && name[6] == 101 && name[7] == 100 && name[8] == DOT;
    proof {
        if r {
            assert(name@.subrange(0, 9) =~= expected_prefix());
        } else {
            assert(name@.subrange(0, 9) != expected_prefix()) by {
                if name@.subrange(0, 9) == expected_prefix() {
                    assert(name@[0] == name@.subrange(0, 9)[0]);
                    assert(name@[1] == name@.subrange(0, 9)[1]);
                    assert(name@[2] == name@.subrange(0, 9)[2]);
                    assert(name@[3] == name@.subrange(0, 9)[3]);
                    assert(name@[4] == name@.subrange(0, 9)[4]);
                    assert(name@[5] == name@.subrange(0, 9)[5]);
                    assert(name@[6] == name@.subrange(0, 9)[6]);
                    assert(name@[7] == name@.subrange(0, 9)[7]);
                    assert(name@[8] == name@.subrange(0, 9)[8]);
                }
            }
        }
    }
    r
}

/// Parses a fixture's bytes into its sections, in text order. Duplicate
/// names are kept here; a lookup resolves them in favour of the later
/// occurrence.
pub fn parse_sections(text: &[u8]) -> (secs: Vec<Section>)
    requires
        text@.len() < usize::MAX,
    ensures
        parse_ok(text@, secs@),
{
    let nlen = text.len();
    let mut secs: Vec<Section> = Vec::new();
    let mut cur: Option<Section> = None;
    let mut i: usize = 0;
    let mut ln: usize = 1;
    while i < nlen
        invariant
            nlen == text@.len() < usize::MAX,
            i <= nlen,
            is_line_start(text@, i as int) || i == nlen,
            ln == 1 + count_breaks_upto(text@, i as int),
            ln <= i + 1,
            parse_prefix_inv(text@, secs@, cur, i as int),
        decreases nlen - i,
    {
        let r = parse_step(text, &mut secs, &mut cur, i, ln);
        i = r.0;
        ln = r.1;
    }
    parse_finish(text, &mut secs, cur);
    secs
}

/// Consumes the line beginning at `i`: a header closes the open section and
/// opens a new one; any other line is body text. Returns the next line start
/// and line number.
#[verifier::rlimit(100)]
fn parse_step(
    text: &[u8],
    secs: &mut Vec<Section>,
    cur: &mut Option<Section>,
    i: usize,
    ln: usize,
) -> (r: (usize, usize))
    requires
        text@.len() < usize::MAX,
        i < text@.len(),
        is_line_start(text@, i as int),
        ln == 1 + count_breaks_upto(text@, i as int),
        ln <= i + 1,
        parse_prefix_inv(text@, old(secs)@, *old(cur), i as int),
    ensures
        i < r.0 <= text@.len(),
        is_line_start(text@, r.0 as int) || r.0 == text@.len(),
        r.1 == 1 + count_breaks_upto(text@, r.0 as int),
        r.1 <= r.0 + 1,
        parse_prefix_inv(text@, final(secs)@, *final(cur), r.0 as int),
{
    let ghost old_secs = secs@;
    let ghost old_cur = *cur;
    let ghost oi = i as int;
    let nlen = text.len();
    let j: usize = find_line_break(text, i);
    proof {
        lemma_line_break_at(text@, i as int);
    }
    let next_i: usize = if j < nlen {
        j + 1
    } else {
        j
    };
    assert(next_i == next_line_start(text@, i as int));
    assert forall|p: int| oi < p < next_i implies !is_line_start(text@, p) by {
        assert(text@[p - 1] != NEWLINE);
    }
    let ce: usize = if j > i && text[j - 1] == CARRIAGE {
        j - 1
    } else {
        j
    };
    assert(line_content_end(text@, i as int) == ce);
    assert(line_text(text@, i as int) == text@.subrange(i as int, ce as int)) by {
        reveal(crate::parse::line_text);
    }
    match scan_header(text, i, ce) {
        Some((ns, ne)) => {
            let name = copy_range(text, ns, ne);
            let kind = if has_expected_prefix(&name) {
                SectionKind::Expected
            } else {
                SectionKind::Input
            };
            let newsec = Section {
                name,
                kind,
                start: i,
                body_start: next_i,
                end: next_i,
                line: ln,
                last_line: Vec::new(),
            };
            assert(is_header_line(line_text(text@, i as int)));
            assert(newsec.name@ == header_name(line_text(text@, i as int)));
            let prev = cur.take();
            match prev {
                Some(mut p) => {
                    p.end = i;
                    p.last_line = copy_range(text, i, ce);
                    assert(p.last_line@ == line_text(text@, i as int));
                    assert(section_wf(text@, p));
                    secs.push(p);
                    assert(forall|k: int| 0 <= k < old_secs.len() ==> secs@[k] == old_secs[k]);
                    assert(secs@[old_secs.len() as int] == p);
                },
                None => {},
            }
            *cur = Some(newsec);
            assert forall|p: int|
                is_line_start(text@, p) && 0 <= p < next_i && p < text@.len() && is_header_line(
                    #[trigger] line_text(text@, p),
                ) implies has_section_at(secs@, p) || newsec.start == p by {
                if p < oi {
                    if has_section_at(old_secs, p) {
                        let k = choose|k: int|
                            0 <= k < old_secs.len() && (#[trigger] old_secs[k]).start == p;
                        assert(0 <= k < secs@.len() && secs@[k].start == p);
                    } else {
                        let k = old_secs.len() as int;
                        assert(old_cur is Some && old_cur.unwrap().start == p);
                        assert(0 <= k < secs@.len() && secs@[k].start == p);
                    }
                }
            }
        },
        None => {
            assert(!is_header_line(line_text(text@, i as int)));
        },
    }
    proof {
        lemma_count_breaks_range(text@, i as int, j as int);
    }
    if j < nlen {
        (j + 1, ln + 1)
    } else {
        (nlen, ln)
    }
}

/// Closes the section still open at end of text: its end is the text's
/// length and its last line is empty.
#[verifier::rlimit(100)]
fn parse_finish(text: &[u8], secs: &mut Vec<Section>, cur: Option<Section>)
    requires
        parse_prefix_inv(text@, old(secs)@, cur, text@.len() as int),
    ensures
        parse_ok(text@, final(secs)@),
{
    let ghost fin_secs = secs@;
    let nlen = text.len();
    match cur {
        Some(mut p) => {
            p.end = nlen;
            p.last_line = Vec::new();
            assert(p.last_line@ =~= Seq::<u8>::empty());
            assert(section_wf(text@, p));
            let ghost pg = p;
            secs.push(p);
            proof {
                let m = secs@.len() as int;
                assert(forall|k: int| 0 <= k < fin_secs.len() ==> secs@[k] == fin_secs[k]);
                assert(secs@[m - 1] == pg);
                assert forall|q: int|
                    is_line_start(text@, q) && 0 <= q < text@.len() && is_header_line(
                        #[trigger] line_text(text@, q),
                    ) implies has_section_at(secs@, q) by {
                    if has_section_at(fin_secs, q) {
                        let k = choose|k: int|
                            0 <= k < fin_secs.len() && (#[trigger] fin_secs[k]).start == q;
                        assert(0 <= k < secs@.len() && secs@[k].start == q);
                    } else {
                        assert(secs@[m - 1].start == q);
                    }
                }
            }
        },
        None => {
            assert(secs@.len() == 0);
        },
    }
}

/// The loop invariant of `parse_sections`: the closed sections chain up to
/// the open one, and every header line seen so far has been accounted for.
pub open spec fn parse_prefix_inv(
    text: Seq<u8>,
    secs: Seq<Section>,
    cur: Option<Section>,
    i: int,
) -> bool {
    let n = secs.len() as int;
    match cur {
        None => n == 0 && forall|p: int|
            is_line_start(text, p) && 0 <= p < i && p < text.len() ==> !is_header_line(
                #[trigger] line_text(text, p),
            ),
        Some(c) => {
            &&& is_line_start(text, c.start as int)
            &&& is_header_line(line_text(text, c.start as int))
            &&& c.name@ == header_name(line_text(text, c.start as int))
            &&& c.body_start == next_line_start(text, c.start as int)
            &&& c.start < c.body_start <= i <= text.len()
            &&& c.line == 1 + count_breaks_upto(text, c.start as int)
            &&& (c.kind == SectionKind::Expected <==> is_expected_name(c.name@))
            &&& forall|k: int| 0 <= k < n ==> section_wf(text, #[trigger] secs[k])
            &&& forall|k: int|
                #![trigger secs[k], secs[k + 1]]
                0 <= k < n - 1 ==> secs[k].end == secs[k + 1].start && secs[k].last_line@
                    == line_text(text, secs[k + 1].start as int)
            &&& n > 0 ==> secs[n - 1].end == c.start && secs[n - 1].last_line@ == line_text(
                text,
                c.start as int,
            )
            &&& forall|p: int|
                is_line_start(text, p) && 0 <= p < i && p < text.len() && is_header_line(
                    #[trigger] line_text(text, p),
                ) ==> has_section_at(secs, p) || c.start == p
        },
    }
}

/// Scans `text[lo..hi]` as one line. Returns the bounds of the section name
/// if the line is a header, `None` otherwise.
fn scan_header(text: &[u8], lo: usize, hi: usize) -> (r: Option<(usize, usize)>)
    requires
        lo <= hi <= text@.len(),
    ensures
        ({
            let line = text@.subrange(lo as int, hi as int);
            &&& (r is Some <==> is_header_line(line))
            &&& (r matches Some((ns, ne)) ==> lo < ns <= ne && ne < hi && text@.subrange(
                ns as int,
                ne as int,
            ) == header_name(line))
        }),
{
    let ghost line = text@.subrange(lo as int, hi as int);
    // first non-whitespace byte
    let mut a: usize = lo;
    while a < hi && is_space(text[a])
        invariant
            lo <= a <= hi <= text@.len(),
            line == text@.subrange(lo as int, hi as int),
            first_nonspace_at(line, 0) == first_nonspace_at(line, a - lo),
        decreases hi - a,
    {
        assert(line[a - lo] == text@[a as int]);
        a = a + 1;
    }
    if a == hi {
        assert(first_nonspace_at(line, a - lo) == line.len());
        assert(!is_header_line(line)) by {
            reveal(crate::parse::is_header_line);
        }
        return None;
    }
    assert(line[a - lo] == text@[a as int]);
    assert(first_nonspace_at(line, 0) == a - lo);
    // last non-whitespace byte
    let mut z: usize = hi;
    while z > a && is_space(text[z - 1])
        invariant
            lo <= a < z <= hi <= text@.len(),
            line == text@.subrange(lo as int, hi as int),
            !is_space_byte(line[a - lo]),
            last_nonspace_before(line, line.len() as int) == last_nonspace_before(line, z - lo),
        decreases z,
    {
        assert(line[z - 1 - lo] == text@[z - 1]);
        assert(z - 1 > a);
        z = z - 1;
    }
    assert(line[z - 1 - lo] == text@[z - 1]);
    assert(last_nonspace_before(line, line.len() as int) == z - 1 - lo);
    if !(text[a] == LBRACK) || !(text[z - 1] == RBRACK) || z - 1 - a < 2 {
        assert(!is_header_line(line)) by {
            reveal(crate::parse::is_header_line);
        }
        return None;
    }
    // every byte strictly between the brackets must be a name byte
    let mut k: usize = a + 1;
    while k < z - 1
        invariant
            lo <= a < k <= z - 1,
            z <= hi <= text@.len(),
            line == text@.subrange(lo as int, hi as int),
            first_nonspace_at(line, 0) == a - lo,
            last_nonspace_before(line, line.len() as int) == z - 1 - lo,
            forall|i: int| a - lo < i < k - lo ==> is_name_byte(#[trigger] line[i]),
        decreases z - k,
    {
        assert(line[k - lo] == text@[k as int]);
        if !is_name(text[k]) {
            assert(!is_header_line(line)) by {
                reveal(crate::parse::is_header_line);
                if is_header_line(line) {
                    assert(is_name_byte(line[k - lo]));
                }
            }
            return None;
        }
        k = k + 1;
    }
    assert(is_header_line(line)) by {
        reveal(crate::parse::is_header_line);
    }
    assert(text@.subrange(a + 1, z - 1) == header_name(line)) by {
        reveal(crate::parse::header_name);
        assert(header_name(line) == line.subrange(a - lo + 1, z - 1 - lo));
        assert(line.subrange(a - lo + 1, z - 1 - lo) =~= text@.subrange(a + 1, z - 1));
    }
    Some((a + 1, z - 1))
}

/// Executable twin of `is_space_byte`.
fn is_space(b: u8) -> (r: bool)
    ensures
        r == is_space_byte(b),
{
    b == SPACE || b == TAB || b == CARRIAGE || b == VTAB || b == FORMFEED
}

/// Executable twin of `is_name_byte`.
fn is_name(b: u8) -> (r: bool)
    ensures
        r == is_name_byte(b),
{
    (97 <= b && b <= 122) || (65 <= b && b <= 90) || b == DOT || b == DASH || b == UNDERSCORE
}

/// Compares two byte strings.
pub(crate) fn bytes_eq(a: &[u8], b: &[u8]) -> (r: bool)
    ensures
        r == (a@ == b@),
{
    if a.len() != b.len() {
        return false;
    }
    let n: usize = a.len();
    let mut t: usize = 0;
    while t < n
        invariant
            t <= n == a@.len() == b@.len(),
            forall|q: int| 0 <= q < t ==> a@[q] == b@[q],
        decreases n - t,
    {
        if a[t] != b[t] {
            return false;
        }
        t = t + 1;
    }
    assert(a@ =~= b@);
    true
}

/// Finds the section called `name`. When a name repeats within one fixture
/// the later occurrence wins, so the scan runs from the back.
pub fn find_section(secs: &Vec<Section>, name: &[u8]) -> (r: Option<usize>)
    ensures
        match r {
            Some(k) => k < secs@.len() && secs@[k as int].name@ == name@ && forall|j: int|
                k < j < secs@.len() ==> (#[trigger] secs@[j]).name@ != name@,
            None => forall|j: int| 0 <= j < secs@.len() ==> (#[trigger] secs@[j]).name@ != name@,
        },
{
    let mut k: usize = secs.len();
    while k > 0
        invariant
            k <= secs@.len(),
            forall|j: int| k <= j < secs@.len() ==> (#[trigger] secs@[j]).name@ != name@,
        decreases k,
    {
        k = k - 1;
        if bytes_eq(secs[k].name.as_slice(), name) {
            return Some(k);
        }
    }
    None
}

} // verus!
