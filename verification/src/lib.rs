//! A snapshot-testing harness core. Fixture files hold named text sections;
//! the input sections feed a caller-supplied function and its result is
//! compared byte for byte against the `expected.<id>` section. Parsing,
//! the match/mismatch/panic verdict, sibling patch-file bookkeeping and the
//! batch tally are verified here; file discovery, threading, rendering of
//! diffs and all I/O stay with the embedding program, which only carries out
//! the decisions these functions return.

pub mod inputs;
pub mod parse;
pub mod report;
pub mod run;

pub use inputs::SnapError;
pub use inputs::SnapshotInputs;
pub use parse::Section;
pub use parse::SectionKind;
pub use report::FixtureReport;
pub use report::MismatchReport;
pub use report::Outcome;
pub use report::SiblingAction;
pub use report::TestReturn;
pub use run::BatchResult;
pub use run::ProcessingTally;
