//! Quality buckets: a score falls into the first threshold of a table that it
//! reaches, and histograms count scores per bucket.
use vstd::prelude::*;

verus! {

/// The first index at or after `i` whose threshold `score` reaches.
pub open spec fn bucket_from(thresholds: Seq<u8>, score: u8, i: int) -> Option<int>
    decreases thresholds.len() - i,
{
    if i < 0 || i >= thresholds.len() {
        None
    } else if score >= thresholds[i] {
        Some(i)
    } else {
        bucket_from(thresholds, score, i + 1)
    }
}

/// The bucket of `score`: the first threshold of the table that it reaches.
pub open spec fn bucket_of(thresholds: Seq<u8>, score: u8) -> Option<int> {
    bucket_from(thresholds, score, 0)
}

/// What `bucket_from` means, from index `i` on.
pub proof fn lemma_bucket_from(thresholds: Seq<u8>, score: u8, i: int)
    requires
        0 <= i <= thresholds.len(),
    ensures
        bucket_from(thresholds, score, i) matches Some(k) ==> {
            &&& i <= k < thresholds.len()
            &&& score >= thresholds[k]
            &&& forall|j: int| i <= j < k ==> score < #[trigger] thresholds[j]
        },
        bucket_from(thresholds, score, i) is None ==> forall|j: int|
            i <= j < thresholds.len() ==> score < #[trigger] thresholds[j],
    decreases thresholds.len() - i,
{
    if i < thresholds.len() && score < thresholds[i] {
        lemma_bucket_from(thresholds, score, i + 1);
    }
}

/// What `bucket_of` means: the first threshold reached, or none if no
/// threshold is reached.
pub proof fn lemma_bucket_of(thresholds: Seq<u8>, score: u8)
    ensures
        bucket_of(thresholds, score) matches Some(k) ==> {
            &&& 0 <= k < thresholds.len()
            &&& score >= thresholds[k]
            &&& forall|j: int| 0 <= j < k ==> score < #[trigger] thresholds[j]
        },
        bucket_of(thresholds, score) is None ==> forall|j: int|
            0 <= j < thresholds.len() ==> score < #[trigger] thresholds[j],
{
    lemma_bucket_from(thresholds, score, 0);
}

/// The thresholds fall strictly from first to last.
pub open spec fn strictly_descending(thresholds: Seq<u8>) -> bool {
    forall|i: int, j: int| 0 <= i < j < thresholds.len() ==> thresholds[i] > thresholds[j]
}

/// Bucket counts of `scores`: entry `k` counts the scores whose bucket is `k`.
pub open spec fn histogram(scores: Seq<u8>, thresholds: Seq<u8>) -> Seq<int>
    decreases scores.len(),
{
    if scores.len() == 0 {
        Seq::new(thresholds.len(), |k: int| 0)
    } else {
        let h = histogram(scores.drop_last(), thresholds);
        match bucket_of(thresholds, scores.last()) {
            Some(k) => h.update(k, h[k] + 1),
            None => h,
        }
    }
}

/// A histogram has one entry per threshold, each at most the number of scores.
pub proof fn lemma_histogram_bounds(scores: Seq<u8>, thresholds: Seq<u8>)
    ensures
        histogram(scores, thresholds).len() == thresholds.len(),
        forall|k: int|
            0 <= k < thresholds.len() ==> 0 <= #[trigger] histogram(scores, thresholds)[k]
                <= scores.len(),
    decreases scores.len(),
{
    if scores.len() > 0 {
        lemma_histogram_bounds(scores.drop_last(), thresholds);
        lemma_bucket_of(thresholds, scores.last());
    }
}

/// The counters as integers.
pub open spec fn counts_view(counts: Seq<usize>) -> Seq<int> {
    counts.map_values(|c: usize| c as int)
}

/// Index of the first threshold that `quality` reaches, if any.
pub fn bucket_index(thresholds: &Vec<u8>, quality: u8) -> (r: Option<usize>)
    ensures
        r matches Some(k) ==> bucket_of(thresholds@, quality) == Some(k as int),
        r is None ==> bucket_of(thresholds@, quality) is None,
{
    let mut i: usize = 0;
    while i < thresholds.len()
        invariant
            i <= thresholds@.len(),
            bucket_of(thresholds@, quality) == bucket_from(thresholds@, quality, i as int),
        decreases thresholds@.len() - i,
    {
        if quality >= thresholds[i] {
            return Some(i);
        }
        i = i + 1;
    }
    None
}

/// Counts `quality` into its bucket, if it has one.
pub fn increase_counter(count: &mut Vec<usize>, qualities: &Vec<u8>, quality: u8)
    requires
        old(count)@.len() == qualities@.len(),
        forall|k: int| 0 <= k < old(count)@.len() ==> old(count)@[k] < usize::MAX,
    ensures
        final(count)@.len() == old(count)@.len(),
        counts_view(final(count)@) == match bucket_of(qualities@, quality) {
            Some(k) => counts_view(old(count)@).update(k, counts_view(old(count)@)[k] + 1),
            None => counts_view(old(count)@),
        },
{
    proof {
        lemma_bucket_of(qualities@, quality);
    }
    if let Some(k) = bucket_index(qualities, quality) {
        let c = count[k];
        count.set(k, c + 1);
        assert(counts_view(count@) == counts_view(old(count)@).update(
            k as int,
            counts_view(old(count)@)[k as int] + 1,
        ));
    } else {
        assert(counts_view(count@) == counts_view(old(count)@));
    }
}

} // verus!
