//! Byte offsets of vertex attributes laid out one after the other.
use vstd::prelude::*;

verus! {

/// Sum of the first `n` counts.
pub open spec fn prefix_sum(counts: Seq<i32>, n: int) -> int
    decreases n,
{
    if n <= 0 {
        0
    } else {
        prefix_sum(counts, n - 1) + counts[n - 1]
    }
}

/// Every step of summing the counts, four bytes per float, stays within `i32`.
pub open spec fn offsets_fit(counts: Seq<i32>) -> bool {
    &&& forall|i: int| 0 <= i < counts.len() ==> i32::MIN <= 4 * #[trigger] counts[i] <= i32::MAX
    &&& forall|k: int| 0 <= k <= counts.len() ==> i32::MIN <= 4 * #[trigger] prefix_sum(counts, k) <= i32::MAX
}

/// The byte offset of each attribute whose float count is listed, each
/// attribute following the previous one: four bytes per float before it.
pub fn attrib_offsets(float_counts: &Vec<i32>) -> (offsets: Vec<i32>)
    requires
        offsets_fit(float_counts@),
    ensures
        offsets.len() == float_counts.len(),
        forall|i: int| 0 <= i < offsets.len() ==> offsets[i] == 4 * prefix_sum(float_counts@, i),
{
    let mut offsets: Vec<i32> = Vec::new();
    let mut offset: i32 = 0;
    let mut i: usize = 0;
    while i < float_counts.len()
        invariant
            offsets_fit(float_counts@),
            i <= float_counts.len(),
            offsets.len() == i,
            offset == 4 * prefix_sum(float_counts@, i as int),
            forall|j: int| 0 <= j < i ==> offsets[j] == 4 * prefix_sum(float_counts@, j),
        decreases float_counts.len() - i,
    {
        offsets.push(offset);
        assert(i32::MIN <= 4 * float_counts@[i as int] <= i32::MAX);
        assert(i32::MIN <= 4 * prefix_sum(float_counts@, i + 1) <= i32::MAX);
        offset = offset + float_counts[i] * 4;
        i = i + 1;
    }
    offsets
}

/// The first attribute starts at byte 0, and each next one starts four bytes
/// per float after the one before it.
pub proof fn lemma_offsets_step(counts: Seq<i32>)
    ensures
        prefix_sum(counts, 0) == 0,
        forall|i: int| 0 <= i < counts.len() ==> 4 * #[trigger] prefix_sum(counts, i + 1) == 4 * prefix_sum(counts, i) + 4
            * counts[i],
{
}

} // verus!
