//! Running state of one aggregate function over a stream of integer values.

use vstd::prelude::*;
use crate::types::{AggregateType, DataType, ExecutionError};

verus! {

broadcast use vstd::seq_lib::group_to_multiset_ensures;

/// Smallest element of a non-empty sequence.
pub open spec fn seq_min(s: Seq<int>) -> int
    decreases s.len(),
{
    if s.len() <= 1 {
        s[0]
    } else {
        let m = seq_min(s.drop_last());
        if s.last() < m { s.last() } else { m }
    }
}

/// Largest element of a non-empty sequence.
pub open spec fn seq_max(s: Seq<int>) -> int
    decreases s.len(),
{
    if s.len() <= 1 {
        s[0]
    } else {
        let m = seq_max(s.drop_last());
        if s.last() > m { s.last() } else { m }
    }
}

/// Sum of the elements of a sequence (zero when empty).
pub open spec fn seq_sum(s: Seq<int>) -> int
    decreases s.len(),
{
    if s.len() == 0 {
        0
    } else {
        seq_sum(s.drop_last()) + s.last()
    }
}

/// The result of aggregate `kind` over `s`: no value before the first input.
pub open spec fn aggregate_of(kind: AggregateType, s: Seq<int>) -> Option<int> {
    if s.len() == 0 {
        None
    } else {
        match kind {
            AggregateType::Min => Some(seq_min(s)),
            AggregateType::Max => Some(seq_max(s)),
            AggregateType::Sum => Some(seq_sum(s)),
            AggregateType::Count => Some(s.len() as int),
        }
    }
}

pub open spec fn in_i64_range(s: Seq<int>) -> bool {
    forall|i: int| 0 <= i < s.len() ==> i64::MIN <= #[trigger] s[i] <= i64::MAX
}

pub open spec fn opt_view(r: Option<i128>) -> Option<int> {
    match r {
        Some(v) => Some(v as int),
        None => None,
    }
}

/// The minimum of a non-empty sequence is one of its elements and below all of them.
pub proof fn lemma_min_props(s: Seq<int>)
    requires
        s.len() > 0,
    ensures
        s.contains(seq_min(s)),
        forall|i: int| 0 <= i < s.len() ==> seq_min(s) <= #[trigger] s[i],
    decreases s.len(),
{
    if s.len() > 1 {
        lemma_min_props(s.drop_last());
        assert(s.drop_last().contains(seq_min(s.drop_last())));
        let i = choose|i: int| 0 <= i < s.len() - 1 && s.drop_last()[i] == seq_min(s.drop_last());
        assert(s[i] == s.drop_last()[i]);
        assert(s[s.len() - 1] == s.last());
        assert forall|j: int| 0 <= j < s.len() implies seq_min(s) <= #[trigger] s[j] by {
            if j < s.len() - 1 {
                assert(s[j] == s.drop_last()[j]);
            }
        }
    }
}

/// The maximum of a non-empty sequence is one of its elements and above all of them.
pub proof fn lemma_max_props(s: Seq<int>)
    requires
        s.len() > 0,
    ensures
        s.contains(seq_max(s)),
        forall|i: int| 0 <= i < s.len() ==> seq_max(s) >= #[trigger] s[i],
    decreases s.len(),
{
    if s.len() > 1 {
        lemma_max_props(s.drop_last());
        assert(s.drop_last().contains(seq_max(s.drop_last())));
        let i = choose|i: int| 0 <= i < s.len() - 1 && s.drop_last()[i] == seq_max(s.drop_last());
        assert(s[i] == s.drop_last()[i]);
        assert(s[s.len() - 1] == s.last());
        assert forall|j: int| 0 <= j < s.len() implies seq_max(s) >= #[trigger] s[j] by {
            if j < s.len() - 1 {
                assert(s[j] == s.drop_last()[j]);
            }
        }
    }
}

/// An element that lies in `s` and below all of `s` is its minimum.
pub proof fn lemma_min_unique(s: Seq<int>, m: int)
    requires
        s.contains(m),
        forall|i: int| 0 <= i < s.len() ==> m <= #[trigger] s[i],
    ensures
        seq_min(s) == m,
{
    lemma_min_props(s);
    let i = choose|i: int| 0 <= i < s.len() && s[i] == m;
    let k = choose|k: int| 0 <= k < s.len() && s[k] == seq_min(s);
    assert(m <= s[k]);
    assert(seq_min(s) <= s[i]);
}

/// An element that lies in `s` and above all of `s` is its maximum.
pub proof fn lemma_max_unique(s: Seq<int>, m: int)
    requires
        s.contains(m),
        forall|i: int| 0 <= i < s.len() ==> m >= #[trigger] s[i],
    ensures
        seq_max(s) == m,
{
    lemma_max_props(s);
    let i = choose|i: int| 0 <= i < s.len() && s[i] == m;
    let k = choose|k: int| 0 <= k < s.len() && s[k] == seq_max(s);
    assert(m >= s[k]);
    assert(seq_max(s) >= s[i]);
}

/// Removing any one element takes exactly that element off the sum.
pub proof fn lemma_sum_remove(s: Seq<int>, j: int)
    requires
        0 <= j < s.len(),
    ensures
        seq_sum(s) == s[j] + seq_sum(s.remove(j)),
    decreases s.len(),
{
    if j == s.len() - 1 {
        assert(s.remove(j) =~= s.drop_last());
    } else {
        lemma_sum_remove(s.drop_last(), j);
        assert(s.remove(j).drop_last() =~= s.drop_last().remove(j));
        assert(s.remove(j).last() == s.last());
    }
}

/// Sequences holding the same multiset of values have the same sum.
pub proof fn lemma_sum_permutation(s1: Seq<int>, s2: Seq<int>)
    requires
        s1.to_multiset() == s2.to_multiset(),
    ensures
        seq_sum(s1) == seq_sum(s2),
    decreases s1.len(),
{
    if s1.len() == 0 {
        assert(s2.to_multiset().len() == 0);
    } else {
        let x = s1.last();
        assert(s1 =~= s1.drop_last().push(x));
        assert(s1.drop_last().push(x).to_multiset() == s1.drop_last().to_multiset().insert(x));
        assert(s2.to_multiset().count(x) > 0);
        assert(s2.contains(x));
        let j = choose|j: int| 0 <= j < s2.len() && s2[j] == x;
        assert(s2.remove(j).to_multiset() == s2.to_multiset().remove(x));
        assert(s1.drop_last().to_multiset() =~= s2.remove(j).to_multiset());
        lemma_sum_permutation(s1.drop_last(), s2.remove(j));
        lemma_sum_remove(s2, j);
    }
}

/// Sequences holding the same multiset of values contain the same values.
proof fn lemma_same_elements(s1: Seq<int>, s2: Seq<int>)
    requires
        s1.to_multiset() == s2.to_multiset(),
    ensures
        forall|x: int| s1.contains(x) <==> s2.contains(x),
        s1.len() == s2.len(),
{
    assert forall|x: int| s1.contains(x) <==> s2.contains(x) by {
        vstd::seq_lib::to_multiset_contains(s1, x);
        vstd::seq_lib::to_multiset_contains(s2, x);
    }
    vstd::seq_lib::to_multiset_len(s1);
    vstd::seq_lib::to_multiset_len(s2);
}

/// The order in which values reach an accumulator does not change its result:
/// any permutation of the same values gives the same MIN, MAX, SUM and COUNT.
pub proof fn lemma_aggregate_permutation(kind: AggregateType, s1: Seq<int>, s2: Seq<int>)
    requires
        s1.to_multiset() == s2.to_multiset(),
    ensures
        aggregate_of(kind, s1) == aggregate_of(kind, s2),
{
    lemma_same_elements(s1, s2);
    if s1.len() > 0 {
        match kind {
            AggregateType::Min => {
                lemma_min_props(s1);
                lemma_min_props(s2);
                assert forall|i: int| 0 <= i < s2.len() implies seq_min(s1) <= #[trigger] s2[i] by {
                    assert(s2.contains(s2[i]));
                    assert(s1.contains(s2[i]));
                }
                lemma_min_unique(s2, seq_min(s1));
            },
            AggregateType::Max => {
                lemma_max_props(s1);
                lemma_max_props(s2);
                assert forall|i: int| 0 <= i < s2.len() implies seq_max(s1) >= #[trigger] s2[i] by {
                    assert(s2.contains(s2[i]));
                    assert(s1.contains(s2[i]));
                }
                lemma_max_unique(s2, seq_max(s1));
            },
            AggregateType::Sum => {
                lemma_sum_permutation(s1, s2);
            },
            AggregateType::Count => {},
        }
    }
}

/// Summing values of the 64-bit range stays within `len * 2^63` in magnitude.
proof fn lemma_sum_bound(s: Seq<int>)
    requires
        in_i64_range(s),
    ensures
        -(s.len() * 0x8000_0000_0000_0000) <= seq_sum(s) <= s.len() * 0x8000_0000_0000_0000,
    decreases s.len(),
{
    if s.len() > 0 {
        assert(in_i64_range(s.drop_last())) by {
            assert forall|i: int| 0 <= i < s.drop_last().len() implies i64::MIN <= #[trigger] s.drop_last()[i] <= i64::MAX by {
                assert(s.drop_last()[i] == s[i]);
            }
        }
        lemma_sum_bound(s.drop_last());
        assert(s[s.len() - 1] == s.last());
    }
}

/// The minimum of a concatenation is the smaller of the two minima.
pub proof fn lemma_min_concat(a: Seq<int>, b: Seq<int>)
    requires
        a.len() > 0,
        b.len() > 0,
    ensures
        seq_min(a + b) == if seq_min(b) < seq_min(a) { seq_min(b) } else { seq_min(a) },
{
    lemma_min_props(a);
    lemma_min_props(b);
    let m = if seq_min(b) < seq_min(a) { seq_min(b) } else { seq_min(a) };
    let ab = a + b;
    assert forall|i: int| 0 <= i < ab.len() implies m <= #[trigger] ab[i] by {
        if i >= a.len() {
            assert(ab[i] == b[i - a.len()]);
        }
    }
    if seq_min(b) < seq_min(a) {
        let k = choose|k: int| 0 <= k < b.len() && b[k] == seq_min(b);
        assert(ab[a.len() + k] == b[k]);
    } else {
        let k = choose|k: int| 0 <= k < a.len() && a[k] == seq_min(a);
        assert(ab[k] == a[k]);
    }
    lemma_min_unique(ab, m);
}

/// The maximum of a concatenation is the larger of the two maxima.
pub proof fn lemma_max_concat(a: Seq<int>, b: Seq<int>)
    requires
        a.len() > 0,
        b.len() > 0,
    ensures
        seq_max(a + b) == if seq_max(b) > seq_max(a) { seq_max(b) } else { seq_max(a) },
{
    lemma_max_props(a);
    lemma_max_props(b);
    let m = if seq_max(b) > seq_max(a) { seq_max(b) } else { seq_max(a) };
    let ab = a + b;
    assert forall|i: int| 0 <= i < ab.len() implies m >= #[trigger] ab[i] by {
        if i >= a.len() {
            assert(ab[i] == b[i - a.len()]);
        }
    }
    if seq_max(b) > seq_max(a) {
        let k = choose|k: int| 0 <= k < b.len() && b[k] == seq_max(b);
        assert(ab[a.len() + k] == b[k]);
    } else {
        let k = choose|k: int| 0 <= k < a.len() && a[k] == seq_max(a);
        assert(ab[k] == a[k]);
    }
    lemma_max_unique(ab, m);
}

/// Running state of one aggregate function. It remembers, as a ghost
/// sequence, every value it has absorbed; its result is always the
/// aggregate of that sequence.
pub struct Accumulator {
    kind: AggregateType,
    data_type: DataType,
    count: u64,
    value: i128,
    inputs: Ghost<Seq<int>>,
}

impl Accumulator {
    pub closed spec fn spec_kind(&self) -> AggregateType {
        self.kind
    }

    pub closed spec fn spec_data_type(&self) -> DataType {
        self.data_type
    }

    /// Every value absorbed so far, in arrival order.
    pub closed spec fn inputs(&self) -> Seq<int> {
        self.inputs@
    }

    pub closed spec fn wf(&self) -> bool {
        &&& self.count as int == self.inputs@.len()
        &&& in_i64_range(self.inputs@)
        &&& self.inputs@.len() > 0 ==> match self.kind {
            AggregateType::Min => self.value as int == seq_min(self.inputs@),
            AggregateType::Max => self.value as int == seq_max(self.inputs@),
            AggregateType::Sum => self.value as int == seq_sum(self.inputs@),
            AggregateType::Count => true,
        }
    }

    /// A fresh accumulator that has seen no value.
    pub fn new(kind: AggregateType, data_type: DataType) -> (r: Self)
        ensures
            r.wf(),
            r.spec_kind() == kind,
            r.spec_data_type() == data_type,
            r.inputs() == Seq::<int>::empty(),
    {
        Accumulator { kind, data_type, count: 0, value: 0, inputs: Ghost(Seq::empty()) }
    }

    pub fn kind(&self) -> (r: AggregateType)
        ensures
            r == self.spec_kind(),
    {
        self.kind
    }

    /// The declared type of the values this accumulator reads.
    pub fn data_type(&self) -> (r: DataType)
        ensures
            r == self.spec_data_type(),
    {
        self.data_type
    }

    /// The number of values absorbed so far.
    pub fn count(&self) -> (r: u64)
        requires
            self.wf(),
        ensures
            r as int == self.inputs().len(),
    {
        self.count
    }

    /// Feeds one value. Fails with `Overflow`, changing nothing, when the
    /// count of absorbed values is already at its largest.
    pub fn accumulate(&mut self, v: i64) -> (r: Result<(), ExecutionError>)
        requires
            old(self).wf(),
        ensures
            final(self).wf(),
            final(self).spec_kind() == old(self).spec_kind(),
            final(self).spec_data_type() == old(self).spec_data_type(),
            r is Ok <==> old(self).inputs().len() < u64::MAX,
            r is Ok ==> final(self).inputs() == old(self).inputs().push(v as int),
            r is Err ==> r == Err::<(), ExecutionError>(ExecutionError::Overflow) && *final(self) == *old(self),
    {
        if self.count == u64::MAX {
            return Err(ExecutionError::Overflow);
        }
        let ghost old_inputs = self.inputs@;
        let ghost new_inputs = old_inputs.push(v as int);
        assert(new_inputs.drop_last() =~= old_inputs);
        assert(in_i64_range(new_inputs)) by {
            assert forall|i: int| 0 <= i < new_inputs.len() implies i64::MIN <= #[trigger] new_inputs[i] <= i64::MAX by {
                if i < old_inputs.len() {
                    assert(new_inputs[i] == old_inputs[i]);
                }
            }
        }
        proof {
            lemma_sum_bound(new_inputs);
        }
        assert(new_inputs.last() == v as int);
        assert(seq_sum(new_inputs) == seq_sum(old_inputs) + v);
        let first = self.count == 0;
        match self.kind {
            AggregateType::Min => {
                if first || (v as i128) < self.value {
                    self.value = v as i128;
                }
            },
            AggregateType::Max => {
                if first || (v as i128) > self.value {
                    self.value = v as i128;
                }
            },
            AggregateType::Sum => {
                if first {
                    self.value = v as i128;
                } else {
                    assert(seq_sum(new_inputs) == self.value + v);
                    assert(new_inputs.len() <= u64::MAX);
                    assert(new_inputs.len() * 0x8000_0000_0000_0000 <= u64::MAX * 0x8000_0000_0000_0000);
                    self.value = self.value + v as i128;
                }
            },
            AggregateType::Count => {},
        }
        self.count = self.count + 1;
        self.inputs = Ghost(new_inputs);
        Ok(())
    }

    /// Feeds a whole non-empty run of values at once, given its minimum (for
    /// MIN) or maximum (for MAX) already computed. Fails with `Overflow`,
    /// changing nothing, when the count would no longer fit.
    pub fn absorb_extreme(&mut self, values: Ghost<Seq<int>>, n: usize, extreme: i64) -> (r: Result<(), ExecutionError>)
        requires
            old(self).wf(),
            n as int == values@.len(),
            n > 0,
            in_i64_range(values@),
            old(self).spec_kind() is Min ==> extreme as int == seq_min(values@),
            old(self).spec_kind() is Max ==> extreme as int == seq_max(values@),
            old(self).spec_kind() is Min || old(self).spec_kind() is Max,
        ensures
            final(self).wf(),
            final(self).spec_kind() == old(self).spec_kind(),
            final(self).spec_data_type() == old(self).spec_data_type(),
            r is Ok <==> old(self).inputs().len() + n <= u64::MAX,
            r is Ok ==> final(self).inputs() == old(self).inputs() + values@,
            r is Err ==> r == Err::<(), ExecutionError>(ExecutionError::Overflow) && *final(self) == *old(self),
    {
        if self.count > u64::MAX - n as u64 {
            return Err(ExecutionError::Overflow);
        }
        let ghost old_inputs = self.inputs@;
        let ghost new_inputs = old_inputs + values@;
        assert(in_i64_range(new_inputs)) by {
            assert forall|i: int| 0 <= i < new_inputs.len() implies i64::MIN <= #[trigger] new_inputs[i] <= i64::MAX by {
                if i < old_inputs.len() {
                    assert(new_inputs[i] == old_inputs[i]);
                } else {
                    assert(new_inputs[i] == values@[i - old_inputs.len()]);
                }
            }
        }
        if self.count == 0 {
            assert(new_inputs =~= values@);
            self.value = extreme as i128;
        } else {
            match self.kind {
                AggregateType::Min => {
                    proof { lemma_min_concat(old_inputs, values@); }
                    if (extreme as i128) < self.value {
                        self.value = extreme as i128;
                    }
                },
                _ => {
                    proof { lemma_max_concat(old_inputs, values@); }
                    if (extreme as i128) > self.value {
                        self.value = extreme as i128;
                    }
                },
            }
        }
        self.count = self.count + n as u64;
        self.inputs = Ghost(new_inputs);
        Ok(())
    }

    /// The aggregate of every value absorbed so far.
    pub fn result(&self) -> (r: Option<i128>)
        requires
            self.wf(),
        ensures
            opt_view(r) == aggregate_of(self.spec_kind(), self.inputs()),
    {
        if self.count == 0 {
            None
        } else {
            match self.kind {
                AggregateType::Count => Some(self.count as i128),
                _ => Some(self.value),
            }
        }
    }
}

} // verus!
