//! The cut points of a list of entities: every start and every end, each
//! remembering which entity it belongs to.

use vstd::prelude::*;

verus! {

/// One end of one entity's span, in UTF-16 code units.
#[derive(Clone, Copy, Debug)]
pub struct CutPoint {
    /// Position in UTF-16 code units from the start of the text.
    pub position: usize,
    /// Index of the entity in the list.
    pub entity: usize,
    /// Whether this is the end of the span rather than its start.
    pub is_end: bool,
}

/// `cuts` is in order of increasing position.
pub open spec fn ascending(cuts: Seq<CutPoint>) -> bool {
    forall|i: int, j: int| 0 <= i <= j < cuts.len() ==> cuts[i].position <= cuts[j].position
}

/// `slice::sort_unstable_by_key` of std, keyed by the position: the vector
/// afterwards holds the same cut points, each as often as before, in order of
/// increasing position. Nothing is claimed about the order of cut points that
/// share a position.
#[verifier::external_body]
pub(crate) fn sort_by_position(cuts: &mut Vec<CutPoint>)
    ensures
        final(cuts)@.to_multiset() == old(cuts)@.to_multiset(),
        ascending(final(cuts)@),
{
    cuts.sort_unstable_by_key(|c| c.position);
}

/// Sorting keeps every cut point and invents none.
pub proof fn lemma_same_members(a: Seq<CutPoint>, b: Seq<CutPoint>)
    requires
        a.to_multiset() == b.to_multiset(),
    ensures
        forall|c: CutPoint| a.contains(c) <==> b.contains(c),
{
    assert forall|c: CutPoint| a.contains(c) <==> b.contains(c) by {
        a.to_multiset_ensures();
        b.to_multiset_ensures();
        assert(a.to_multiset().len() == a.len());
        assert(b.to_multiset().len() == b.len());
        assert(a.contains(c) <==> a.to_multiset().count(c) > 0);
        assert(b.contains(c) <==> b.to_multiset().count(c) > 0);
    }
}

} // verus!
