//! Crate-level laws.
//!
//! What single contracts cannot say on their own is stated and proved
//! here: indexing a document is deterministic, and JSON navigation is a
//! pure function of the value it reads.

use vstd::prelude::*;
use crate::json::JsonModel;
use crate::extract::DocumentIndex;
use crate::microdata::spec_obj_fields;
use crate::dom::spec_shapes;
use crate::pathlang::{SegStyle, spec_nav, spec_arrow_nav};

verus! {

/// Indexing is idempotent: two indices built over the same HTML hold
/// the same JSON-LD, microdata, meta-group, JavaScript and element
/// models — extraction twice from one document reads the same indices.
pub proof fn lemma_index_idempotent(a: DocumentIndex, b: DocumentIndex)
    requires
        a.wf(),
        b.wf(),
        a.html@ == b.html@,
    ensures
        a.jsonld.model() == b.jsonld.model(),
        a.microdata.model() == b.microdata.model(),
        a.og.model() == b.og.model(),
        spec_obj_fields(a.js@) == spec_obj_fields(b.js@),
        spec_shapes(a.doms@) == spec_shapes(b.doms@),
{
}

/// Navigation never mutates: the executable navigators borrow the value
/// immutably, so this law is the semantic half — segment navigation is
/// a function of the value alone, and two equal values navigate alike
/// from any position.
pub proof fn lemma_navigation_pure(
    v1: JsonModel,
    v2: JsonModel,
    path: Seq<Seq<char>>,
    i: int,
    style: SegStyle,
)
    requires
        v1 == v2,
    ensures
        spec_nav(v1, path, i, style) == spec_nav(v2, path, i, style),
{
}

/// The same, for arrow paths: navigating never changes the value read,
/// and equal values give equal arrow-path results.
pub proof fn lemma_arrow_navigation_pure(v1: JsonModel, v2: JsonModel, s: Seq<char>, pos: int)
    requires
        v1 == v2,
    ensures
        spec_arrow_nav(v1, s, pos) == spec_arrow_nav(v2, s, pos),
{
}

} // verus!
