//! Grapheme clusters (user-perceived characters), as segmented by the
//! `unicode-segmentation` crate.

use unicode_segmentation::UnicodeSegmentation;
use vstd::prelude::*;

verus! {

broadcast use vstd::seq::group_seq_axioms;

/// The extended grapheme clusters of `s`, in order (UAX #29).
pub uninterp spec fn grapheme_clusters(s: Seq<char>) -> Seq<Seq<char>>;

/// Views of a sequence of string slices.
pub open spec fn views(v: Seq<&str>) -> Seq<Seq<char>> {
    v.map_values(|g: &str| g@)
}

/// Calls `UnicodeSegmentation::graphemes(s, true)` and collects the
/// clusters. The clusters are `grapheme_clusters(s@)`; as the crate slices
/// them from consecutive boundaries, they are non-empty and concatenate to
/// `s`.
#[verifier::external_body]
pub(crate) fn graphemes_of<'a>(s: &'a str) -> (v: Vec<&'a str>)
    ensures
        views(v@) == grapheme_clusters(s@),
        views(v@).flatten() == s@,
        forall|i: int| 0 <= i < v@.len() ==> (#[trigger] v@[i])@.len() > 0,
{
    s.graphemes(true).collect()
}

/// A prefix of the clusters flattens to a prefix of the text.
pub proof fn lemma_flatten_take(gs: Seq<Seq<char>>, m: int)
    requires
        0 <= m <= gs.len(),
    ensures
        gs.take(m).flatten() == gs.flatten().take(gs.take(m).flatten().len() as int),
        gs.take(m).flatten().len() <= gs.flatten().len(),
{
    assert(gs =~= gs.take(m) + gs.skip(m));
    vstd::seq_lib::lemma_flatten_concat(gs.take(m), gs.skip(m));
    let a = gs.take(m).flatten();
    let b = gs.skip(m).flatten();
    assert((a + b).take(a.len() as int) =~= a);
}

/// One more cluster appends it to the flattened prefix.
pub proof fn lemma_flatten_take_step(gs: Seq<Seq<char>>, i: int)
    requires
        0 <= i < gs.len(),
    ensures
        gs.take(i + 1).flatten() == gs.take(i).flatten() + gs[i],
{
    assert(gs.take(i + 1) =~= gs.take(i).push(gs[i]));
    gs.take(i).lemma_flatten_push(gs[i]);
}

/// Number of leading clusters needed to cover at least `n` characters.
pub open spec fn clusters_covering(gs: Seq<Seq<char>>, n: int) -> int
    decreases gs.len(),
{
    if gs.len() == 0 || n <= 0 {
        0
    } else {
        1 + clusters_covering(gs.drop_first(), n - gs[0].len())
    }
}

/// With non-empty clusters, covering `n` characters takes at most `n` clusters.
pub proof fn lemma_clusters_covering_le(gs: Seq<Seq<char>>, n: int)
    requires
        forall|i: int| 0 <= i < gs.len() ==> (#[trigger] gs[i]).len() > 0,
    ensures
        0 <= clusters_covering(gs, n) <= if n > 0 { n } else { 0 },
        clusters_covering(gs, n) <= gs.len(),
    decreases gs.len(),
{
    if gs.len() > 0 && n > 0 {
        let r = gs.drop_first();
        assert forall|i: int| 0 <= i < r.len() implies (#[trigger] r[i]).len() > 0 by {
            assert(r[i] == gs[i + 1]);
        }
        assert(gs[0].len() > 0);
        lemma_clusters_covering_le(r, n - gs[0].len());
    }
}

} // verus!
