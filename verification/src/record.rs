//! What the change source delivers: one record per change it reports.

use vstd::prelude::*;

verus! {

/// What a record says was done to the files it names.
#[derive(Clone, Copy, Debug, PartialEq, Eq, Structural)]
pub enum ChangeKind {
    /// A file or directory was created.
    Create,
    /// Contents were written, or the change is a modification that is
    /// none of the two below.
    Write,
    /// Permissions, ownership or times changed.
    Metadata,
    /// A rename reported in one record: the old path, then the new one.
    RenameBoth,
    /// A file or directory was removed.
    Remove,
    /// Anything else, such as an access.
    Other,
}

/// One record of the change source: a kind and the paths it concerns, in
/// the order the source gave them.
#[derive(Clone, Debug, PartialEq, Eq)]
pub struct RawChangeRecord {
    pub kind: ChangeKind,
    pub paths: Vec<String>,
}

/// The mathematical model of a [`RawChangeRecord`].
pub struct RecordView {
    pub kind: ChangeKind,
    pub paths: Seq<Seq<char>>,
}

impl View for RawChangeRecord {
    type V = RecordView;

    open spec fn view(&self) -> RecordView {
        RecordView {
            kind: self.kind,
            paths: Seq::new(self.paths@.len(), |i: int| self.paths@[i]@),
        }
    }
}

impl RecordView {
    /// No path is empty, and where there are two or more, the first two
    /// differ.
    pub open spec fn names_files(self) -> bool {
        &&& forall|i: int| 0 <= i < self.paths.len() ==> (#[trigger] self.paths[i]).len() > 0
        &&& self.paths.len() >= 2 ==> self.paths[0] != self.paths[1]
    }
}

impl RawChangeRecord {
    pub fn new(kind: ChangeKind, paths: Vec<String>) -> (record: RawChangeRecord)
        ensures
            record.kind == kind,
            record.paths == paths,
    {
        RawChangeRecord { kind, paths }
    }
}

} // verus!
