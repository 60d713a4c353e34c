use vstd::prelude::*;

verus! {

#[derive(Debug, Clone)]
pub struct HeaderDiffEntry {
    pub name: String,
    pub value_a: Option<String>,
    pub value_b: Option<String>,
    /// added, removed or modified.
    pub change_type: String,
}

} // verus!
