//! The transient value arena of a running program: a flat vector of values
//! partitioned into consecutive segments, one segment pushed per step.

use vstd::prelude::*;

verus! {

broadcast use vstd::std_specs::vec::group_vec_axioms, vstd::seq::group_seq_axioms;

/// A multi-segment vector: values laid out flat, with the segment borders
/// kept alongside.
pub struct MVec<T> {
    values: Vec<T>,
    ranges: Vec<usize>,
}

impl<T> MVec<T> {
    /// The borders are a sound partition of the flat values.
    pub closed spec fn wf(&self) -> bool {
        &&& self.ranges@.len() >= 1
        &&& self.ranges@[0] == 0
        &&& forall|i: int|
            0 <= i < self.ranges@.len() - 1 ==> #[trigger] self.ranges@[i] <= self.ranges@[i + 1]
        &&& self.ranges@.last() == self.values@.len()
    }

    /// The flat sequence of all stored values.
    pub closed spec fn all_values(&self) -> Seq<T> {
        self.values@
    }

    /// The stored segments.
    pub closed spec fn segments(&self) -> Seq<Seq<T>> {
        Seq::new(
            (self.ranges@.len() - 1) as nat,
            |i: int| self.values@.subrange(self.ranges@[i] as int, self.ranges@[i + 1] as int),
        )
    }

    /// An empty arena: no values, no segments.
    pub fn new() -> (r: MVec<T>)
        ensures
            r.wf(),
            r.segments() == Seq::<Seq<T>>::empty(),
            r.all_values() == Seq::<T>::empty(),
    {
        let mut ranges: Vec<usize> = Vec::new();
        ranges.push(0);
        let r = MVec { values: Vec::new(), ranges };
        proof {
            assert(r.segments() =~= Seq::<Seq<T>>::empty());
        }
        r
    }

    /// The total number of stored values.
    pub fn len(&self) -> (n: usize)
        ensures
            n == self.all_values().len(),
    {
        self.values.len()
    }

    /// Where a segment lies in the flat values.
    pub fn range(&self, index: usize) -> (r: (usize, usize))
        requires
            self.wf(),
            index < self.segments().len(),
        ensures
            r.0 <= r.1 <= self.all_values().len(),
            self.segments()[index as int] == self.all_values().subrange(r.0 as int, r.1 as int),
    {
        let n = self.ranges.len();
        proof {
            assert(index as int + 1 < n as int);
        }
        let from = self.ranges[index];
        let to = self.ranges[index + 1];
        proof {
            lemma_ranges_sorted(self.ranges@, index as int, self.ranges@.len() as int - 1);
            lemma_ranges_sorted(self.ranges@, index as int + 1, self.ranges@.len() as int - 1);
        }
        (from, to)
    }

    /// Append a segment; the result names the new segment's position.
    pub fn push(&mut self, data: Vec<T>) -> (index: usize)
        requires
            old(self).wf(),
            old(self).all_values().len() + data@.len() <= usize::MAX,
        ensures
            final(self).wf(),
            index == old(self).segments().len(),
            final(self).segments() == old(self).segments().push(data@),
            final(self).all_values() == old(self).all_values() + data@,
    {
        let ghost osegs = self.segments();
        let ghost ovals = self.values@;
        let ghost oranges = self.ranges@;
        let mut data = data;
        let ghost dv = data@;
        self.values.append(&mut data);
        let end = self.values.len();
        self.ranges.push(end);
        let index = self.ranges.len() - 2;
        proof {
            assert(self.values@ == ovals + dv);
            assert(self.ranges@ == oranges.push(end as usize));
            assert forall|i: int|
                0 <= i < self.ranges@.len() - 1 implies #[trigger] self.ranges@[i]
                <= self.ranges@[i + 1] by {
                if i < oranges.len() - 1 {
                    assert(self.ranges@[i] == oranges[i]);
                } else {
                    lemma_ranges_sorted(oranges, i, oranges.len() as int - 1);
                }
            }
            assert(self.segments() =~= osegs.push(dv)) by {
                assert forall|j: int| 0 <= j < osegs.len() implies self.segments()[j] == osegs[j] by {
                    lemma_ranges_sorted(oranges, j + 1, oranges.len() as int - 1);
                    assert(self.values@.subrange(
                        self.ranges@[j] as int,
                        self.ranges@[j + 1] as int,
                    ) =~= ovals.subrange(oranges[j] as int, oranges[j + 1] as int));
                }
                assert(self.segments()[osegs.len() as int] =~= dv);
            }
        }
        index
    }
}

/// Earlier borders never exceed later ones.
proof fn lemma_ranges_sorted(ranges: Seq<usize>, i: int, j: int)
    requires
        forall|k: int| 0 <= k < ranges.len() - 1 ==> #[trigger] ranges[k] <= ranges[k + 1],
        0 <= i <= j < ranges.len(),
    ensures
        ranges[i] <= ranges[j],
    decreases j - i,
{
    if i < j {
        lemma_ranges_sorted(ranges, i + 1, j);
    }
}

} // verus!
