//! The test executor's and result aggregator's decisions: selecting the
//! expected section, building the input view, tallying outcomes and passing
//! judgement on the batch. The embedding program only carries these
//! decisions out.

use vstd::prelude::*;
use vstd::utf8::decode_utf8;
use vstd::utf8::valid_utf8;
use crate::inputs::bytes_to_string;
use crate::inputs::SnapError;
use crate::inputs::SnapshotInputs;
use crate::inputs::entries_map;
use crate::parse::copy_range;
use crate::parse::expected_prefix;
use crate::parse::is_expected_name;
use crate::parse::find_section;
use crate::parse::Section;
use crate::parse::SectionKind;
use crate::parse::DOT;
use crate::report::Outcome;
use crate::report::append_bytes;

verus! {

/// The name of the golden section for one test identifier: `expected.<id>`.
pub open spec fn expected_name_spec(id: Seq<u8>) -> Seq<u8> {
    expected_prefix() + id
}

/// Builds the name `expected.<id>`.
pub fn expected_name(id: &[u8]) -> (r: Vec<u8>)
    ensures
        r@ == expected_name_spec(id@),
{
    let mut r: Vec<u8> = Vec::new();
    r.push(101);
    r.push(120);
    r.push(112);
    r.push(101);
    r.push(99);
    r.push(116);
    r.push(101);
    r.push(100);
    r.push(DOT);
    append_bytes(&mut r, id);
    assert(r@ =~= expected_name_spec(id@));
    r
}

/// The name `expected.<id>` always marks a section as Expected-kind.
pub proof fn lemma_expected_name_is_expected(id: Seq<u8>)
    ensures
        is_expected_name(expected_name_spec(id)),
{
    assert(expected_name_spec(id).subrange(0, 9) =~= expected_prefix());
}

/// Finds the golden section for `id`, resolving duplicates in favour of the
/// later occurrence. `None` means the fixture is skipped for this identifier.
pub fn select_expected(secs: &Vec<Section>, id: &[u8]) -> (r: Option<usize>)
    ensures
        match r {
            Some(k) => k < secs@.len() && secs@[k as int].name@ == expected_name_spec(id@)
                && forall|j: int|
                k < j < secs@.len() ==> (#[trigger] secs@[j]).name@ != expected_name_spec(id@),
            None => forall|j: int|
                0 <= j < secs@.len() ==> (#[trigger] secs@[j]).name@ != expected_name_spec(id@),
        },
{
    let name = expected_name(id);
    find_section(secs, name.as_slice())
}

/// A section's body: the text between its header line and its end.
pub open spec fn section_body(text: Seq<u8>, s: Section) -> Seq<u8> {
    text.subrange(s.body_start as int, s.end as int)
}

/// The input view that a fixture's sections denote: every Input-kind
/// section's decoded body under its decoded name, later duplicates winning.
pub open spec fn inputs_map(text: Seq<u8>, secs: Seq<Section>) -> Map<Seq<char>, Seq<char>>
    decreases secs.len(),
{
    if secs.len() == 0 {
        Map::empty()
    } else {
        let m = inputs_map(text, secs.drop_last());
        let s = secs.last();
        if s.kind == SectionKind::Input {
            m.insert(decode_utf8(s.name@), decode_utf8(section_body(text, s)))
        } else {
            m
        }
    }
}

/// Assembles the read-only input view from all Input-kind sections. Fails
/// only when a section that must become text is not valid UTF-8.
pub fn build_inputs(text: &[u8], secs: &Vec<Section>) -> (r: Result<SnapshotInputs, SnapError>)
    requires
        forall|k: int|
            0 <= k < secs@.len() ==> (#[trigger] secs@[k]).body_start <= secs@[k].end
                <= text@.len(),
    ensures
        (r matches Ok(si) ==> si@ == inputs_map(text@, secs@)),
        (forall|k: int|
            0 <= k < secs@.len() && (#[trigger] secs@[k]).kind == SectionKind::Input ==> valid_utf8(
                secs@[k].name@,
            ) && valid_utf8(section_body(text@, secs@[k]))) ==> r is Ok,
        (r matches Err(e) ==> e is InvalidText),
{
    let mut entries: Vec<(String, String)> = Vec::new();
    let n: usize = secs.len();
    let mut k: usize = 0;
    while k < n
        invariant
            k <= n == secs@.len(),
            forall|j: int|
                0 <= j < secs@.len() ==> (#[trigger] secs@[j]).body_start <= secs@[j].end
                    <= text@.len(),
            entries_map(entries@) == inputs_map(text@, secs@.subrange(0, k as int)),
        decreases n - k,
    {
        let ghost pre = secs@.subrange(0, k as int);
        let ghost post = secs@.subrange(0, k + 1);
        assert(post.drop_last() =~= pre);
        assert(post.last() == secs@[k as int]);
        let sec = secs.as_slice().get(k).unwrap();
        match sec.kind {
            SectionKind::Input => {
                let namev = copy_range(sec.name.as_slice(), 0, sec.name.len());
                assert(namev@ =~= sec.name@);
                let name_s = match bytes_to_string(namev) {
                    Some(s) => s,
                    None => {
                        return Err(SnapError::InvalidText);
                    },
                };
                let bodyv = copy_range(text, sec.body_start, sec.end);
                let body_s = match bytes_to_string(bodyv) {
                    Some(s) => s,
                    None => {
                        return Err(SnapError::InvalidText);
                    },
                };
                let ghost e_pre = entries@;
                entries.push((name_s, body_s));
                proof {
                    assert(entries@.drop_last() =~= e_pre);
                    assert(entries_map(entries@) == entries_map(e_pre).insert(
                        name_s@,
                        body_s@,
                    ));
                }
            },
            SectionKind::Expected => {
            },
        }
        k = k + 1;
    }
    assert(secs@.subrange(0, n as int) =~= secs@);
    Ok(SnapshotInputs::from_entries(entries))
}

/// The counters of one aggregator run.
#[derive(PartialEq, Eq, Structural, Clone, Copy, Debug)]
pub struct ProcessingTally {
    pub processed: usize,
    pub succeeded: usize,
    pub skipped: usize,
}

/// Matched, Mismatched and Panicked fixtures count as processed; Skipped
/// ones never do.
pub open spec fn counts_processed(o: Outcome) -> bool {
    o == Outcome::Matched || o == Outcome::Mismatched || o == Outcome::Panicked
}

/// How one outcome moves the tally.
pub open spec fn tally_step(t: ProcessingTally, o: Outcome, t2: ProcessingTally) -> bool {
    &&& t2.processed == t.processed + (if counts_processed(o) {
        1int
    } else {
        0int
    })
    &&& t2.succeeded == t.succeeded + (if o == Outcome::Matched {
        1int
    } else {
        0int
    })
    &&& t2.skipped == t.skipped + (if o == Outcome::Skipped {
        1int
    } else {
        0int
    })
}

impl ProcessingTally {
    /// A fresh tally with every counter at zero.
    pub fn new() -> (r: ProcessingTally)
        ensures
            r.processed == 0 && r.succeeded == 0 && r.skipped == 0,
    {
        ProcessingTally { processed: 0, succeeded: 0, skipped: 0 }
    }
}

/// Records one fixture's outcome in the tally.
pub fn record(t: &mut ProcessingTally, o: Outcome)
    requires
        old(t).processed < usize::MAX,
        old(t).succeeded < usize::MAX,
        old(t).skipped < usize::MAX,
    ensures
        tally_step(*old(t), o, *final (t)),
{
    match o {
        Outcome::Skipped => {
            t.skipped = t.skipped + 1;
        },
        Outcome::Matched => {
            t.processed = t.processed + 1;
            t.succeeded = t.succeeded + 1;
        },
        Outcome::Mismatched => {
            t.processed = t.processed + 1;
        },
        Outcome::Panicked => {
            t.processed = t.processed + 1;
        },
    }
}

/// The succeeded counter can never pass the processed one: every success is
/// itself processed.
pub open spec fn tally_wf(t: ProcessingTally) -> bool {
    t.succeeded <= t.processed
}

/// Recording an outcome keeps the tally well formed.
pub proof fn lemma_record_preserves_wf(t: ProcessingTally, o: Outcome, t2: ProcessingTally)
    requires
        tally_wf(t),
        tally_step(t, o, t2),
    ensures
        tally_wf(t2),
{
}

/// The failure count of the final summary: processed fixtures that did not
/// succeed.
pub fn failed_count(t: &ProcessingTally) -> (r: usize)
    requires
        tally_wf(*t),
    ensures
        r == t.processed - t.succeeded,
{
    t.processed - t.succeeded
}

/// How a whole batch run ends.
#[derive(PartialEq, Eq, Structural, Clone, Copy, Debug)]
pub enum BatchResult {
    Passed,
    Failed,
    TimedOut,
}

/// The batch verdict depends on the deadline and on the processed and
/// succeeded counters alone; the skip count never reaches it.
pub open spec fn batch_verdict(timed_out: bool, processed: int, succeeded: int) -> BatchResult {
    if timed_out {
        BatchResult::TimedOut
    } else if succeeded == processed {
        BatchResult::Passed
    } else {
        BatchResult::Failed
    }
}

/// Passes judgement on the batch: a run past its deadline is a Timeout
/// failure whatever the tally says; otherwise it passes exactly when every
/// processed fixture succeeded.
pub fn batch_result(timed_out: bool, t: &ProcessingTally) -> (r: BatchResult)
    ensures
        r == batch_verdict(timed_out, t.processed as int, t.succeeded as int),
{
    if timed_out {
        BatchResult::TimedOut
    } else if t.succeeded == t.processed {
        BatchResult::Passed
    } else {
        BatchResult::Failed
    }
}

/// A batch that exceeds its deadline is reported as a Timeout, independent
/// of every individual fixture's outcome.
pub proof fn lemma_timeout_overrides(processed: int, succeeded: int)
    ensures
        batch_verdict(true, processed, succeeded) == BatchResult::TimedOut,
{
}

/// A fixture with no `expected.<id>` section is Skipped: the skip counter
/// rises and the processed and succeeded counters stay untouched, so a
/// skipped fixture can never fail the batch.
pub proof fn lemma_skipped_not_counted(t: ProcessingTally, t2: ProcessingTally, timed_out: bool)
    requires
        tally_step(t, Outcome::Skipped, t2),
    ensures
        t2.processed == t.processed,
        t2.succeeded == t.succeeded,
        t2.skipped == t.skipped + 1,
        batch_verdict(timed_out, t2.processed as int, t2.succeeded as int) == batch_verdict(
            timed_out,
            t.processed as int,
            t.succeeded as int,
        ),
{
}

} // verus!
