use vstd::prelude::*;

verus! {

/// A query variable name, `v_<doc>_<seq>`: scoped to one input document by
/// the document's position in the input, and made unique inside the document
/// by a per-document allocation counter.
#[derive(Clone, Copy, PartialEq, Eq, Structural, Debug)]
pub struct VarName {
    pub doc: u64,
    pub seq: u64,
}

/// A node's identity reference: either bound to a query variable that looks
/// up an existing entity, or a fresh blank-node label for a node without any
/// deduplication key.
#[derive(Clone, Copy, PartialEq, Eq, Structural, Debug)]
pub enum IdentRef {
    Bound(VarName),
    Fresh(VarName),
}

} // verus!
