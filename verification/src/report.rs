//! The comparator and reporter: decides whether a fixture matched, and on a
//! mismatch assembles everything the embedding program needs to render a
//! diff and write the sibling patch file.

use vstd::prelude::*;
use vstd::utf8::encode_utf8;
use crate::parse::copy_range;
use crate::parse::bytes_eq;
use crate::parse::Section;
use crate::parse::section_wf;
use crate::parse::DOT;
use crate::parse::LBRACK;
use crate::parse::RBRACK;
use crate::parse::NEWLINE;

verus! {

pub const SLASH: u8 = 47;

/// The terminal state of one fixture's processing.
#[derive(PartialEq, Eq, Structural, Clone, Copy, Debug)]
pub enum Outcome {
    Skipped,
    Matched,
    Mismatched,
    Panicked,
}

/// How the function under test came back: with a result, or abnormally.
pub enum TestReturn {
    Returned(String),
    Aborted,
}

/// The ingredients of the diff display and the sibling patch file for one
/// mismatched section.
pub struct MismatchReport {
    /// The expected section's stored text followed by its last line.
    pub expected: Vec<u8>,
    /// The reconstructed actual text built from the function's result.
    pub actual: Vec<u8>,
    /// 1-based line number of the expected section's header, the anchor for
    /// diff and patch offsets.
    pub line: usize,
    /// The fixture's file name, the patch's before label.
    pub before_label: Vec<u8>,
    /// The sibling file's name, the patch's after label.
    pub after_label: Vec<u8>,
    /// The fixture's modification time rendered in local time, used to stamp
    /// both patch labels.
    pub timestamp: String,
}

/// What is to happen to the sibling patch file beside the fixture.
pub enum SiblingAction {
    /// Leave any existing sibling exactly as it is.
    Untouched,
    /// Delete the sibling if one exists; never create one.
    DeleteIfExists,
    /// Write (or overwrite) the sibling with a patch built from the report.
    Write(MismatchReport),
}

/// The verdict on one fixture together with the sibling file it owns.
pub struct FixtureReport {
    pub outcome: Outcome,
    pub action: SiblingAction,
    /// The sibling patch file's full path.
    pub sibling: Vec<u8>,
}

/// Largest index `j < i` with `s[j] == b`, or -1.
pub open spec fn last_byte_before(s: Seq<u8>, b: u8, i: int) -> int
    decreases i,
{
    if i <= 0 || i > s.len() {
        -1
    } else if s[i - 1] == b {
        i - 1
    } else {
        last_byte_before(s, b, i - 1)
    }
}

/// `.<id>.new`: the extension chain a sibling file's name ends with.
pub open spec fn dot_suffix(id: Seq<u8>) -> Seq<u8> {
    seq![DOT] + id + seq![DOT, 110u8, 101u8, 119u8]
}

/// The sibling patch file's path: the fixture's path with its extension
/// replaced by `<id>.new` (appended when the file name has no extension).
pub open spec fn sibling_path_spec(path: Seq<u8>, id: Seq<u8>) -> Seq<u8> {
    let sl = last_byte_before(path, SLASH, path.len() as int);
    let dot = last_byte_before(path, DOT, path.len() as int);
    if dot > sl + 1 {
        path.subrange(0, dot) + dot_suffix(id)
    } else {
        path + dot_suffix(id)
    }
}

/// The file name at the end of a path.
pub open spec fn basename_spec(path: Seq<u8>) -> Seq<u8> {
    path.subrange(last_byte_before(path, SLASH, path.len() as int) + 1, path.len() as int)
}

/// The expected side of the comparison: the section's stored text (header
/// line included) followed by its last line.
pub open spec fn spec_expected_text(text: Seq<u8>, s: Section) -> Seq<u8> {
    text.subrange(s.start as int, s.end as int) + s.last_line@
}

/// The actual side of the comparison, reconstructed from the function's
/// result: `[<name>]`, the result, a blank line, the section's last line.
pub open spec fn spec_actual_text(name: Seq<u8>, out: Seq<char>, last_line: Seq<u8>) -> Seq<u8> {
    seq![LBRACK] + name + seq![RBRACK, NEWLINE] + encode_utf8(out) + seq![NEWLINE, NEWLINE]
        + last_line
}

/// The verdict the comparator reaches for one fixture whose expected section
/// is `s`: an abnormal return is Panicked; otherwise the reconstructed
/// actual text either equals the expected text byte for byte (Matched) or
/// does not (Mismatched).
pub open spec fn fixture_outcome(text: Seq<u8>, s: Section, tr: TestReturn) -> Outcome {
    match tr {
        TestReturn::Aborted => Outcome::Panicked,
        TestReturn::Returned(out) => if spec_actual_text(s.name@, out@, s.last_line@)
            == spec_expected_text(text, s) {
            Outcome::Matched
        } else {
            Outcome::Mismatched
        },
    }
}

/// Only a mismatch writes the sibling patch file.
pub open spec fn writes_sibling(o: Outcome) -> bool {
    o == Outcome::Mismatched
}

/// Only a match removes a stale sibling patch file.
pub open spec fn deletes_sibling(o: Outcome) -> bool {
    o == Outcome::Matched
}

/// A function result that gives back the expected section's stored body
/// verbatim — the section's text is exactly its header line, the result and
/// the blank-line separator — is Matched, and a matched fixture never has a
/// sibling written for it.
pub proof fn lemma_verbatim_return_matches(text: Seq<u8>, s: Section, out: String)
    requires
        text.subrange(s.start as int, s.end as int) == seq![LBRACK] + s.name@ + seq![
            RBRACK,
            NEWLINE,
        ] + encode_utf8(out@) + seq![NEWLINE, NEWLINE],
    ensures
        fixture_outcome(text, s, TestReturn::Returned(out)) == Outcome::Matched,
        !writes_sibling(fixture_outcome(text, s, TestReturn::Returned(out))),
{
    assert(spec_actual_text(s.name@, out@, s.last_line@) =~= spec_expected_text(text, s));
}

/// Re-running a fixture that matched is stable: the verdict is a function of
/// the fixture text and the function's result alone, so an identical re-run
/// is Matched again, never writes a sibling, and again deletes a stale one.
pub proof fn lemma_matched_rerun(text: Seq<u8>, s: Section, tr: TestReturn)
    requires
        fixture_outcome(text, s, tr) == Outcome::Matched,
    ensures
        !writes_sibling(fixture_outcome(text, s, tr)),
        deletes_sibling(fixture_outcome(text, s, tr)),
{
}

/// An abnormal return is Panicked: a failure with no patch, leaving any
/// stale sibling untouched.
pub proof fn lemma_abort_is_panic(text: Seq<u8>, s: Section)
    ensures
        fixture_outcome(text, s, TestReturn::Aborted) == Outcome::Panicked,
        !writes_sibling(fixture_outcome(text, s, TestReturn::Aborted)),
        !deletes_sibling(fixture_outcome(text, s, TestReturn::Aborted)),
{
}

/// Finds the largest index of `b` in `path`, as `last_byte_before` names it.
fn last_byte(path: &[u8], b: u8) -> (r: Option<usize>)
    ensures
        match r {
            Some(k) => k as int == last_byte_before(path@, b, path@.len() as int) && k
                < path@.len(),
            None => last_byte_before(path@, b, path@.len() as int) == -1,
        },
{
    let mut k: usize = path.len();
    while k > 0
        invariant
            k <= path@.len(),
            last_byte_before(path@, b, path@.len() as int) == last_byte_before(path@, b, k as int),
        decreases k,
    {
        if path[k - 1] == b {
            assert(last_byte_before(path@, b, k as int) == k - 1);
            return Some(k - 1);
        }
        k = k - 1;
    }
    None
}

/// Builds the sibling patch file's path beside the fixture.
pub fn sibling_path(path: &[u8], id: &[u8]) -> (r: Vec<u8>)
    ensures
        r@ == sibling_path_spec(path@, id@),
{
    let n: usize = path.len();
    let sl = last_byte(path, SLASH);
    let dot = last_byte(path, DOT);
    let stem_end: usize = match (dot, sl) {
        (Some(d), Some(s)) => if d > s + 1 {
            d
        } else {
            n
        },
        (Some(d), None) => if d > 0 {
            d
        } else {
            n
        },
        (None, _) => n,
    };
    let ghost spec_dot = last_byte_before(path@, DOT, path@.len() as int);
    let ghost spec_sl = last_byte_before(path@, SLASH, path@.len() as int);
    assert(stem_end == if spec_dot > spec_sl + 1 {
        spec_dot
    } else {
        path@.len() as int
    });
    let mut r = copy_range(path, 0, stem_end);
    r.push(DOT);
    append_bytes(&mut r, id);
    r.push(DOT);
    r.push(110);
    r.push(101);
    r.push(119);
    proof {
        if spec_dot > spec_sl + 1 {
            assert(r@ =~= path@.subrange(0, spec_dot) + dot_suffix(id@));
        } else {
            assert(r@ =~= path@ + dot_suffix(id@));
        }
    }
    r
}

/// The file name at the end of `path`.
pub fn basename(path: &[u8]) -> (r: Vec<u8>)
    ensures
        r@ == basename_spec(path@),
{
    let n: usize = path.len();
    let from: usize = match last_byte(path, SLASH) {
        Some(s) => s + 1,
        None => 0,
    };
    copy_range(path, from, n)
}

/// Appends a byte string to a buffer.
pub(crate) fn append_bytes(dst: &mut Vec<u8>, src: &[u8])
    ensures
        final (dst)@ == old(dst)@ + src@,
{
    let n: usize = src.len();
    let mut t: usize = 0;
    while t < n
        invariant
            t <= n == src@.len(),
            dst@ == old(dst)@ + src@.subrange(0, t as int),
        decreases n - t,
    {
        dst.push(src[t]);
        assert(dst@ =~= old(dst)@ + src@.subrange(0, t + 1));
        t = t + 1;
    }
    assert(dst@ =~= old(dst)@ + src@);
}

/// The expected side of the comparison for section `sec` of `text`.
pub fn expected_text(text: &[u8], sec: &Section) -> (r: Vec<u8>)
    requires
        sec.start <= sec.end <= text@.len(),
    ensures
        r@ == spec_expected_text(text@, *sec),
{
    let mut r = copy_range(text, sec.start, sec.end);
    append_bytes(&mut r, sec.last_line.as_slice());
    r
}

/// Reconstructs the actual text from the function's result, in the shape the
/// fixture stores: header line, result, blank line, next header.
pub fn format_actual(name: &[u8], out: &str, last_line: &[u8]) -> (r: Vec<u8>)
    ensures
        r@ == spec_actual_text(name@, out@, last_line@),
{
    let mut r: Vec<u8> = Vec::new();
    r.push(LBRACK);
    append_bytes(&mut r, name);
    r.push(RBRACK);
    r.push(NEWLINE);
    append_bytes(&mut r, out.as_bytes());
    r.push(NEWLINE);
    r.push(NEWLINE);
    append_bytes(&mut r, last_line);
    assert(r@ =~= spec_actual_text(name@, out@, last_line@));
    r
}

/// Relies on `SystemTime::duration_since(UNIX_EPOCH)`: the distance of the
/// instant from the epoch in whole seconds, with the flag set when the
/// instant lies before it (the error arm carries that same distance).
#[verifier::external_body]
fn seconds_since_epoch(t: &std::time::SystemTime) -> (r: (bool, u64)) {
    match t.duration_since(std::time::UNIX_EPOCH) {
        Ok(d) => (false, d.as_secs()),
        Err(e) => (true, e.duration().as_secs()),
    }
}

/// Relies on chrono: `DateTime::from_timestamp` is `Some` for any instant
/// within its documented range of about 262,000 years around the epoch, and
/// `%F %T %z` renders a nonempty text. The bound admitted here stays far
/// enough inside that range that the shift into the machine's local time
/// zone cannot leave it; the zone depends on the environment, so no more is
/// said of the text.
#[verifier::external_body]
fn render_local_timestamp(secs: i64) -> (r: String)
    requires
        -4_000_000_000_000 <= secs <= 4_000_000_000_000,
    ensures
        r@.len() > 0,
{
    let dt = chrono::DateTime::from_timestamp(secs, 0).expect("within the documented range");
    dt.with_timezone(&chrono::Local).format("%F %T %z").to_string()
}

/// The patch labels' timestamp: the fixture's modification time rendered in
/// local time. An instant beyond the renderable window of about 126,000
/// years around the epoch is clamped to that window's edge, so the text is
/// always produced and never empty.
fn format_modified_time(t: &std::time::SystemTime) -> (r: String)
    ensures
        r@.len() > 0,
{
    let (before_epoch, secs) = seconds_since_epoch(t);
    let clamped: i64 = if secs > 4_000_000_000_000 {
        4_000_000_000_000
    } else {
        secs as i64
    };
    let signed: i64 = if before_epoch {
        -clamped
    } else {
        clamped
    };
    render_local_timestamp(signed)
}

#[verifier::external_type_specification]
#[verifier::external_body]
pub struct ExSystemTime(std::time::SystemTime);

/// Judges one fixture once the function under test has come back: decides
/// Matched, Mismatched or Panicked, and assembles the sibling-file action.
/// `secs` must come from parsing `text` and `k` must index the expected
/// section for the run's identifier.
pub fn conclude_fixture(
    text: &[u8],
    secs: &Vec<Section>,
    k: usize,
    tr: TestReturn,
    path: &[u8],
    id: &[u8],
    modified: &std::time::SystemTime,
) -> (r: FixtureReport)
    requires
        k < secs@.len(),
        section_wf(text@, secs@[k as int]),
    ensures
        r.outcome == fixture_outcome(text@, secs@[k as int], tr),
        r.outcome != Outcome::Skipped,
        (r.outcome == Outcome::Matched <==> r.action is DeleteIfExists),
        (r.outcome == Outcome::Mismatched <==> r.action is Write),
        (r.outcome == Outcome::Panicked ==> r.action is Untouched),
        r.sibling@ == sibling_path_spec(path@, id@),
        (r.action matches SiblingAction::Write(m) ==> m.expected@ == spec_expected_text(
            text@,
            secs@[k as int],
        ) && m.timestamp@.len() > 0 && m.line == secs@[k as int].line && m.before_label@
            == basename_spec(path@)
            && m.after_label@ == basename_spec(sibling_path_spec(path@, id@)) && (
        tr matches TestReturn::Returned(out) && m.actual@ == spec_actual_text(
            secs@[k as int].name@,
            out@,
            secs@[k as int].last_line@,
        ))),
{
    let sib = sibling_path(path, id);
    match tr {
        TestReturn::Aborted => FixtureReport {
            outcome: Outcome::Panicked,
            action: SiblingAction::Untouched,
            sibling: sib,
        },
        TestReturn::Returned(out) => {
            let sec = secs.as_slice().get(k).unwrap();
            let expected = expected_text(text, sec);
            let actual = format_actual(sec.name.as_slice(), out.as_str(), sec.last_line.as_slice());
            if bytes_eq(expected.as_slice(), actual.as_slice()) {
                FixtureReport {
                    outcome: Outcome::Matched,
                    action: SiblingAction::DeleteIfExists,
                    sibling: sib,
                }
            } else {
                let after_label = basename(sib.as_slice());
                let m = MismatchReport {
                    expected,
                    actual,
                    line: sec.line,
                    before_label: basename(path),
                    after_label,
                    timestamp: format_modified_time(modified),
                };
                FixtureReport {
                    outcome: Outcome::Mismatched,
                    action: SiblingAction::Write(m),
                    sibling: sib,
                }
            }
        },
    }
}

} // verus!
