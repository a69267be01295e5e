//! The data carried through a scanning pass: the extracted entry, the
//! aggregate result of a pass, and the closed error taxonomy.

use vstd::prelude::*;

verus! {

/// One extracted blood-glucose measurement, every field held as text.
///
/// The first four fields and `value` and `unit` are copied from the source
/// element's attributes and default to empty text where an attribute is
/// absent. `time` is derived: the start timestamp re-expressed as an Eastern
/// wall-clock display string.
#[derive(Debug, PartialEq, Eq)]
pub struct BloodGlucoseEntry {
    pub source_name: String,
    pub creation_date: String,
    pub start_date: String,
    pub end_date: String,
    pub time: String,
    pub value: String,
    pub unit: String,
}

/// Mathematical view of an entry: each field as its character sequence.
pub ghost struct EntryModel {
    pub source_name: Seq<char>,
    pub creation_date: Seq<char>,
    pub start_date: Seq<char>,
    pub end_date: Seq<char>,
    pub time: Seq<char>,
    pub value: Seq<char>,
    pub unit: Seq<char>,
}

impl View for BloodGlucoseEntry {
    type V = EntryModel;

    open spec fn view(&self) -> EntryModel {
        EntryModel {
            source_name: self.source_name@,
            creation_date: self.creation_date@,
            start_date: self.start_date@,
            end_date: self.end_date@,
            time: self.time@,
            value: self.value@,
            unit: self.unit@,
        }
    }
}

/// The aggregate of one scanning pass: the extracted entries in document
/// order, plus how many `Record` elements were seen and how many matched.
#[derive(Debug, PartialEq, Eq)]
pub struct RunResult {
    pub entries: Vec<BloodGlucoseEntry>,
    pub total_scanned: usize,
    pub total_matching: usize,
}

/// Mathematical view of a pass's aggregate.
pub ghost struct RunModel {
    pub entries: Seq<EntryModel>,
    pub total_scanned: int,
    pub total_matching: int,
}

impl RunModel {
    /// Every matching record was also scanned, and exactly the matching
    /// records produced entries.
    pub open spec fn wf(self) -> bool {
        &&& self.total_matching == self.entries.len()
        &&& self.total_matching <= self.total_scanned
    }
}

impl View for RunResult {
    type V = RunModel;

    open spec fn view(&self) -> RunModel {
        RunModel {
            entries: self.entries@.map_values(|e: BloodGlucoseEntry| e@),
            total_scanned: self.total_scanned as int,
            total_matching: self.total_matching as int,
        }
    }
}

/// Why a pass aborted. Every error is terminal: no partial result survives it.
#[derive(Debug)]
pub enum ScanError {
    /// The tokenizer found the document structurally malformed; the payload
    /// is its diagnostic text.
    MalformedXml(String),
    /// An attribute value held an escape sequence that could not be resolved;
    /// the payload is the diagnostic text.
    MalformedEscape(String),
    /// A start timestamp did not hold the expected fixed-offset pattern; the
    /// payload is the offending text.
    MalformedTimestamp(String),
}

/// The abstract reason of a `ScanError`, without the diagnostic text.
pub ghost enum ErrorKind {
    Xml,
    Escape,
    Timestamp,
}

/// Maps an error to its abstract reason.
pub open spec fn kind_of(e: ScanError) -> ErrorKind {
    match e {
        ScanError::MalformedXml(_) => ErrorKind::Xml,
        ScanError::MalformedEscape(_) => ErrorKind::Escape,
        ScanError::MalformedTimestamp(_) => ErrorKind::Timestamp,
    }
}

} // verus!
