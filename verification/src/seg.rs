use unicode_segmentation::UnicodeSegmentation;
use vstd::prelude::*;

verus! {

/// The extended grapheme clusters of a character sequence, in order.
pub uninterp spec fn grapheme_split(s: Seq<char>) -> Seq<Seq<char>>;

/// The clusters of `grapheme_split` partition the sequence they come from:
/// concatenated in order they give it back, and none of them is empty.
pub open spec fn grapheme_split_wf(s: Seq<char>) -> bool {
    &&& grapheme_split(s).flatten() == s
    &&& forall|i: int|
        0 <= i < grapheme_split(s).len() ==> (#[trigger] grapheme_split(s)[i]).len() >= 1
}

/// The number of grapheme clusters of a character sequence.
pub open spec fn grapheme_count(s: Seq<char>) -> nat {
    grapheme_split(s).len()
}

/// The number of characters in the first `k` clusters of `segs`.
pub open spec fn cluster_prefix_len(segs: Seq<Seq<char>>, k: int) -> nat
    decreases k,
{
    if k <= 0 {
        0
    } else {
        cluster_prefix_len(segs, k - 1) + segs[k - 1].len()
    }
}

/// The character offset at which grapheme `g` of `s` starts; the end of `s`
/// when `g` lies at or past the last cluster.
pub open spec fn grapheme_offset(s: Seq<char>, g: int) -> nat {
    cluster_prefix_len(
        grapheme_split(s),
        if g <= grapheme_count(s) {
            g
        } else {
            grapheme_count(s) as int
        },
    )
}

/// What `grapheme_lens` returns: the per-cluster character counts of the
/// well-formed cluster split of `s`.
pub open spec fn grapheme_lens_post(s: Seq<char>, r: Seq<usize>) -> bool {
    &&& r.len() == grapheme_split(s).len()
    &&& forall|i: int| 0 <= i < r.len() ==> r[i] == (#[trigger] grapheme_split(s)[i]).len()
    &&& grapheme_split_wf(s)
}

/// Relies on unicode_segmentation's `UnicodeSegmentation::graphemes` (over
/// extended grapheme clusters): the iterator yields the non-empty clusters
/// of the string in order, and concatenated they give the string back. The
/// returned vector holds each cluster's length in characters.
#[verifier::external_body]
pub(crate) fn grapheme_lens(s: &str) -> (r: Vec<usize>)
    ensures
        r@.len() == grapheme_split(s@).len(),
        grapheme_lens_post(s@, r@),
{
    s.graphemes(true).map(|g| g.chars().count()).collect()
}

/// Cluster prefix lengths never shrink as more clusters are taken.
pub proof fn lemma_cluster_prefix_mono(segs: Seq<Seq<char>>, k1: int, k2: int)
    requires
        k1 <= k2,
    ensures
        cluster_prefix_len(segs, k1) <= cluster_prefix_len(segs, k2),
    decreases k2,
{
    if k1 < k2 && k2 > 0 {
        lemma_cluster_prefix_mono(segs, k1, k2 - 1);
    }
}

/// Taking every cluster gives exactly the characters of the flattened
/// sequence.
pub proof fn lemma_cluster_prefix_all(segs: Seq<Seq<char>>, k: int)
    requires
        0 <= k <= segs.len(),
    ensures
        cluster_prefix_len(segs, k) == segs.subrange(0, k).flatten().len(),
    decreases k,
{
    if k == 0 {
        assert(segs.subrange(0, 0) =~= Seq::<Seq<char>>::empty());
        assert(Seq::<Seq<char>>::empty().flatten() =~= Seq::<char>::empty());
    } else {
        lemma_cluster_prefix_all(segs, k - 1);
        assert(segs.subrange(0, k) =~= segs.subrange(0, k - 1).push(segs[k - 1]));
        segs.subrange(0, k - 1).lemma_flatten_push(segs[k - 1]);
    }
}

/// For a well-formed split, grapheme offsets stay within the sequence, and
/// the offset of the cluster count is its very end.
pub proof fn lemma_grapheme_offset_in_range(s: Seq<char>, g: int)
    requires
        grapheme_split_wf(s),
    ensures
        grapheme_offset(s, g) <= s.len(),
        g >= grapheme_count(s) ==> grapheme_offset(s, g) == s.len(),
        0 <= g ==> grapheme_offset(s, g) <= grapheme_offset(s, g + 1),
{
    let segs = grapheme_split(s);
    let n = segs.len() as int;
    lemma_cluster_prefix_all(segs, n);
    assert(segs.subrange(0, n) =~= segs);
    let k = if g <= n { g } else { n };
    lemma_cluster_prefix_mono(segs, k, n);
    if 0 <= g {
        let k1 = if g + 1 <= n { g + 1 } else { n };
        lemma_cluster_prefix_mono(segs, k, k1);
    }
}

/// Inserting a cluster at position `g` leaves the prefix sums before `g`
/// untouched.
pub proof fn lemma_cluster_prefix_insert(segs: Seq<Seq<char>>, g: int, e: Seq<char>, k: int)
    requires
        0 <= k <= g <= segs.len(),
    ensures
        cluster_prefix_len(segs.insert(g, e), k) == cluster_prefix_len(segs, k),
    decreases k,
{
    if k > 0 {
        lemma_cluster_prefix_insert(segs, g, e, k - 1);
        assert(segs.insert(g, e)[k - 1] == segs[k - 1]);
    }
}

} // verus!
