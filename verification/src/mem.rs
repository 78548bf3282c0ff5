use vstd::prelude::*;

verus! {

/// One contiguous byte range inside a mapped region: `len` bytes starting at
/// byte `offset`.
pub struct ByteRange {
    pub offset: usize,
    pub len: usize,
}

/// Sum of a sequence of sizes, as an unbounded integer.
pub open spec fn spec_sum(sizes: Seq<usize>) -> int
    decreases sizes.len(),
{
    if sizes.len() == 0 {
        0
    } else {
        spec_sum(sizes.drop_last()) + sizes.last()
    }
}

/// Adding the next size extends a prefix sum by exactly that size.
pub proof fn lemma_sum_take_succ(sizes: Seq<usize>, i: int)
    requires
        0 <= i < sizes.len(),
    ensures
        spec_sum(sizes.take(i + 1)) == spec_sum(sizes.take(i)) + sizes[i],
{
    assert(sizes.take(i + 1).drop_last() =~= sizes.take(i));
}

/// A prefix sum never exceeds the full sum.
pub proof fn lemma_sum_take_le(sizes: Seq<usize>, i: int)
    requires
        0 <= i <= sizes.len(),
    ensures
        spec_sum(sizes.take(i)) <= spec_sum(sizes),
    decreases sizes.len() - i,
{
    if i == sizes.len() {
        assert(sizes.take(i) =~= sizes);
    } else {
        lemma_sum_take_succ(sizes, i);
        lemma_sum_take_le(sizes, i + 1);
    }
}

/// Partitions `total` mapped bytes into contiguous, non-overlapping ranges of
/// the requested sizes, in order, starting at offset zero; returns `None` if
/// and only if the sizes sum to more than `total`. This is the placement
/// computation behind a region's byte-range views; handing out the actual
/// views is the mapping owner's task.
pub fn byte_ranges(total: usize, sizes: &Vec<usize>) -> (r: Option<Vec<ByteRange>>)
    ensures
        match r {
            Some(ranges) => {
                &&& spec_sum(sizes@) <= total
                &&& ranges@.len() == sizes@.len()
                &&& forall|i: int|
                    0 <= i < ranges@.len() ==> {
                        &&& (#[trigger] ranges@[i]).len == sizes@[i]
                        &&& ranges@[i].offset as int == spec_sum(sizes@.take(i))
                        &&& ranges@[i].offset + ranges@[i].len <= total
                    }
            },
            None => spec_sum(sizes@) > total,
        },
{
    let mut ranges: Vec<ByteRange> = Vec::new();
    let mut offset: usize = 0;
    let mut i: usize = 0;
    proof {
        assert(sizes@.take(0) =~= Seq::<usize>::empty());
    }
    while i < sizes.len()
        invariant
            i <= sizes@.len(),
            ranges@.len() == i,
            offset as int == spec_sum(sizes@.take(i as int)),
            offset <= total,
            forall|j: int|
                0 <= j < i ==> {
                    &&& (#[trigger] ranges@[j]).len == sizes@[j]
                    &&& ranges@[j].offset as int == spec_sum(sizes@.take(j))
                    &&& ranges@[j].offset + ranges@[j].len <= total
                },
        decreases sizes@.len() - i,
    {
        let sz = sizes[i];
        proof {
            lemma_sum_take_succ(sizes@, i as int);
        }
        if sz > total - offset {
            proof {
                lemma_sum_take_le(sizes@, i as int + 1);
            }
            return None;
        }
        ranges.push(ByteRange { offset, len: sz });
        offset = offset + sz;
        i += 1;
    }
    proof {
        assert(sizes@.take(i as int) =~= sizes@);
    }
    Some(ranges)
}

} // verus!
