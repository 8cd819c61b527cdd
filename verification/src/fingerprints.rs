//! File fingerprints and the reconcile decisions derived from them.
use vstd::prelude::*;

verus! {

/// Identity of a file on disk: its path, size and modification time.
#[derive(Clone, Debug)]
pub struct FileFingerprint {
    pub path: String,
    pub size_bytes: u64,
    pub modified_unix_ms: u64,
}

/// Two fingerprints denote the same file state.
pub open spec fn same_file(a: FileFingerprint, b: FileFingerprint) -> bool {
    &&& a.path@ == b.path@
    &&& a.size_bytes == b.size_bytes
    &&& a.modified_unix_ms == b.modified_unix_ms
}

impl PartialEq for FileFingerprint {
    fn eq(&self, other: &Self) -> (r: bool) {
        self.path == other.path && self.size_bytes == other.size_bytes
            && self.modified_unix_ms == other.modified_unix_ms
    }
}

impl vstd::std_specs::cmp::PartialEqSpecImpl for FileFingerprint {
    open spec fn obeys_eq_spec() -> bool {
        true
    }

    open spec fn eq_spec(&self, other: &Self) -> bool {
        same_file(*self, *other)
    }
}


/// Equality of optional fingerprints, as `==` on `Option<FileFingerprint>` decides it.
pub open spec fn same_optional_file(a: Option<FileFingerprint>, b: Option<FileFingerprint>) -> bool {
    match (a, b) {
        (None, None) => true,
        (Some(x), Some(y)) => same_file(x, y),
        _ => false,
    }
}

/// Fingerprints of a library item: the book file and its optional metadata sidecar.
#[derive(Clone, Debug)]
pub struct ItemFingerprints {
    pub book_file: FileFingerprint,
    pub metadata_file: Option<FileFingerprint>,
}

/// What changed between two fingerprint captures of the same item.
#[derive(Clone, Copy, Debug, PartialEq, Eq, Structural)]
pub enum FingerprintChange {
    Unchanged,
    BookChanged,
    MetadataChanged,
    BookAndMetadataChanged,
}

/// Which part of an item has to be parsed again.
#[derive(Clone, Copy, Debug, PartialEq, Eq, Structural)]
pub enum ReparseScope {
    BookOnly,
    MetadataOnly,
    Full,
}

/// The reconcile decision for one item.
#[derive(Clone, Copy, Debug, PartialEq, Eq, Structural)]
pub enum ReconcileAction {
    Added,
    Removed,
    Unchanged,
    Reparse(ReparseScope),
}

/// The change between a previous and a current capture.
pub open spec fn spec_change(current: ItemFingerprints, previous: ItemFingerprints) -> FingerprintChange {
    let book_changed = !same_file(current.book_file, previous.book_file);
    let metadata_changed = !same_optional_file(current.metadata_file, previous.metadata_file);
    if !book_changed && !metadata_changed {
        FingerprintChange::Unchanged
    } else if book_changed && !metadata_changed {
        FingerprintChange::BookChanged
    } else if !book_changed && metadata_changed {
        FingerprintChange::MetadataChanged
    } else {
        FingerprintChange::BookAndMetadataChanged
    }
}

/// The scope of re-parsing a change calls for.
pub open spec fn spec_reparse_scope(change: FingerprintChange) -> Option<ReparseScope> {
    match change {
        FingerprintChange::Unchanged => None,
        FingerprintChange::BookChanged => Some(ReparseScope::BookOnly),
        FingerprintChange::MetadataChanged => Some(ReparseScope::MetadataOnly),
        FingerprintChange::BookAndMetadataChanged => Some(ReparseScope::Full),
    }
}

/// The reconcile action for an item seen before (`previous`) and now (`current`).
pub open spec fn spec_reconcile(
    previous: Option<ItemFingerprints>,
    current: Option<ItemFingerprints>,
) -> ReconcileAction {
    match (previous, current) {
        (None, Some(_)) => ReconcileAction::Added,
        (Some(_), None) => ReconcileAction::Removed,
        (None, None) => ReconcileAction::Unchanged,
        (Some(p), Some(c)) => match spec_reparse_scope(spec_change(c, p)) {
            Some(scope) => ReconcileAction::Reparse(scope),
            None => ReconcileAction::Unchanged,
        },
    }
}

fn optional_fingerprints_equal(a: &Option<FileFingerprint>, b: &Option<FileFingerprint>) -> (r: bool)
    ensures
        r == same_optional_file(*a, *b),
{
    match (a, b) {
        (None, None) => true,
        (Some(x), Some(y)) => x.eq(y),
        _ => false,
    }
}

impl ItemFingerprints {
    /// Classifies how `self` differs from the `previous` capture.
    pub fn change_from(&self, previous: &Self) -> (r: FingerprintChange)
        ensures
            r == spec_change(*self, *previous),
    {
        let book_changed = !self.book_file.eq(&previous.book_file);
        let metadata_changed = !optional_fingerprints_equal(&self.metadata_file, &previous.metadata_file);
        match (book_changed, metadata_changed) {
            (false, false) => FingerprintChange::Unchanged,
            (true, false) => FingerprintChange::BookChanged,
            (false, true) => FingerprintChange::MetadataChanged,
            (true, true) => FingerprintChange::BookAndMetadataChanged,
        }
    }
}

impl FingerprintChange {
    /// The part of the item to parse again, or `None` when nothing changed.
    pub fn reparse_scope(self) -> (r: Option<ReparseScope>)
        ensures
            r == spec_reparse_scope(self),
    {
        match self {
            FingerprintChange::Unchanged => None,
            FingerprintChange::BookChanged => Some(ReparseScope::BookOnly),
            FingerprintChange::MetadataChanged => Some(ReparseScope::MetadataOnly),
            FingerprintChange::BookAndMetadataChanged => Some(ReparseScope::Full),
        }
    }
}

/// Decides what the library scan does with one item, given its previous and current fingerprints.
pub fn classify_reconcile_action(
    previous: Option<&ItemFingerprints>,
    current: Option<&ItemFingerprints>,
) -> (r: ReconcileAction)
    ensures
        r == spec_reconcile(
            match previous { Some(p) => Some(*p), None => None },
            match current { Some(c) => Some(*c), None => None },
        ),
{
    match (previous, current) {
        (None, Some(_)) => ReconcileAction::Added,
        (Some(_), None) => ReconcileAction::Removed,
        (None, None) => ReconcileAction::Unchanged,
        (Some(previous), Some(current)) => match current.change_from(previous).reparse_scope() {
            Some(scope) => ReconcileAction::Reparse(scope),
            None => ReconcileAction::Unchanged,
        },
    }
}

/// An item compared with an identical capture of itself is unchanged, and needs no reparse.
pub proof fn lemma_change_from_self_is_unchanged(item: ItemFingerprints)
    ensures
        spec_change(item, item) == FingerprintChange::Unchanged,
        spec_reconcile(Some(item), Some(item)) == ReconcileAction::Unchanged,
{
}

/// A reparse is requested exactly when something changed, and the scope names what changed:
/// the book file is reparsed iff it changed, the metadata iff it changed.
pub proof fn lemma_reparse_scope_matches_change(current: ItemFingerprints, previous: ItemFingerprints)
    ensures
        (spec_reconcile(Some(previous), Some(current)) == ReconcileAction::Unchanged) <==> (
        same_file(current.book_file, previous.book_file) && same_optional_file(
            current.metadata_file,
            previous.metadata_file,
        )),
        spec_reconcile(Some(previous), Some(current)) == ReconcileAction::Reparse(ReparseScope::Full)
            <==> (!same_file(current.book_file, previous.book_file) && !same_optional_file(
            current.metadata_file,
            previous.metadata_file,
        )),
        spec_reconcile(Some(previous), Some(current)) == ReconcileAction::Reparse(
            ReparseScope::BookOnly,
        ) <==> (!same_file(current.book_file, previous.book_file) && same_optional_file(
            current.metadata_file,
            previous.metadata_file,
        )),
        spec_reconcile(Some(previous), Some(current)) == ReconcileAction::Reparse(
            ReparseScope::MetadataOnly,
        ) <==> (same_file(current.book_file, previous.book_file) && !same_optional_file(
            current.metadata_file,
            previous.metadata_file,
        )),
{
}

/// Appearance and disappearance: an item seen only now is added, one seen only before is removed.
pub proof fn lemma_reconcile_presence(item: ItemFingerprints)
    ensures
        spec_reconcile(None, Some(item)) == ReconcileAction::Added,
        spec_reconcile(Some(item), None) == ReconcileAction::Removed,
        spec_reconcile(None, None) == ReconcileAction::Unchanged,
{
}

/// Whether two captures of a file agree in path, size and modification time.
pub open spec fn identical_capture(a: FileFingerprint, b: FileFingerprint) -> bool {
    a.path@ == b.path@ && a.size_bytes == b.size_bytes && a.modified_unix_ms == b.modified_unix_ms
}

/// An item is unchanged exactly when its book file is captured identically (path, size and
/// modification time) and its metadata sidecar is absent both times or captured identically
/// both times; in particular a sidecar rewritten with the same path and size but a new
/// modification time is a metadata change, and it is reparsed as metadata only.
pub proof fn lemma_unchanged_means_identical_captures(current: ItemFingerprints, previous: ItemFingerprints)
    ensures
        (spec_change(current, previous) == FingerprintChange::Unchanged) <==> (identical_capture(
            current.book_file,
            previous.book_file,
        ) && match (current.metadata_file, previous.metadata_file) {
            (None, None) => true,
            (Some(x), Some(y)) => identical_capture(x, y),
            _ => false,
        }),
        (identical_capture(current.book_file, previous.book_file) && current.metadata_file is Some
            && previous.metadata_file is Some && current.metadata_file->0.path@
            == previous.metadata_file->0.path@ && current.metadata_file->0.size_bytes
            == previous.metadata_file->0.size_bytes && current.metadata_file->0.modified_unix_ms
            != previous.metadata_file->0.modified_unix_ms) ==> spec_change(current, previous)
            == FingerprintChange::MetadataChanged && spec_reconcile(Some(previous), Some(current))
            == ReconcileAction::Reparse(ReparseScope::MetadataOnly),
{
}

} // verus!
