use vstd::prelude::*;

verus! {

/// Decision returned by a filtering participant for one discovered entry.
///
/// Yielding and descending are decided independently: `Ignore` suppresses the
/// entry but still descends into it when it is a directory, while `IgnoreDir`
/// suppresses the entry and prunes its whole subtree.
#[derive(Clone, Copy, Debug, PartialEq, Eq, Structural)]
pub enum Filtering {
    /// Do not yield the current entry; if it is a directory, still descend
    /// into its children.
    Ignore,
    /// Do not yield the current entry and, if it is a directory, do not
    /// traverse its children. Has no further effect on entries that are not
    /// directories.
    IgnoreDir,
    /// Continue the normal processing: yield the entry and, if it is a
    /// directory, descend into it.
    Continue,
}

} // verus!
