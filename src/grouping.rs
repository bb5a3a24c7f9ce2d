//! The grouping map: distinct group keys in first-seen order, each owning
//! one accumulator per aggregate expression.

use vstd::prelude::*;
use fnv::FnvHashMap;
use crate::types::{AggregateType, DataType, ExecutionError};
use crate::accumulator::{Accumulator, aggregate_of, in_i64_range, opt_view, seq_max, seq_min};
use crate::column::{GroupByScalar, key_view};
use crate::expr::AggregateExpr;

verus! {

/// The view of a group key.
pub type KeyView = Seq<(int, int, Seq<char>)>;

/// Hash index from group key to the key's position in the table.
#[verifier::external_body]
pub struct GroupIndex {
    map: FnvHashMap<Vec<GroupByScalar>, usize>,
}

/// What a `GroupIndex` holds, keyed by the view of each group key.
pub uninterp spec fn index_contents(m: GroupIndex) -> Map<KeyView, usize>;

impl GroupIndex {
    /// Relies on `FnvHashMap::default`: a map with no entries.
    #[verifier::external_body]
    fn new() -> (r: GroupIndex)
        ensures
            index_contents(r).dom() == Set::<KeyView>::empty(),
    {
        GroupIndex { map: FnvHashMap::default() }
    }

    /// Relies on `HashMap::get` over the derived, structural `Eq` and `Hash`
    /// of `GroupByScalar`: keys with equal views are equal keys.
    #[verifier::external_body]
    fn get(&self, key: &Vec<GroupByScalar>) -> (r: Option<usize>)
        ensures
            r == (if index_contents(*self).contains_key(key_view(key@)) {
                Some(index_contents(*self)[key_view(key@)])
            } else {
                None
            }),
    {
        self.map.get(key).copied()
    }

    /// Relies on `HashMap::insert`: afterwards the key maps to `value` and
    /// every other key keeps its entry.
    #[verifier::external_body]
    fn insert(&mut self, key: Vec<GroupByScalar>, value: usize)
        ensures
            index_contents(*final(self)) == index_contents(*old(self)).insert(key_view(key@), value),
    {
        self.map.insert(key, value);
    }
}

/// Distinct group keys in first-seen order with their accumulators.
pub struct GroupTable {
    index: GroupIndex,
    keys: Vec<Vec<GroupByScalar>>,
    entries: Vec<Vec<Accumulator>>,
}

/// Fresh accumulators for each aggregate expression absorb nothing.
pub open spec fn empty_inputs(n: nat) -> Seq<Seq<int>> {
    Seq::new(n, |j: int| Seq::<int>::empty())
}

impl GroupTable {
    /// The group keys, in the order they were first seen.
    pub closed spec fn keys(&self) -> Seq<KeyView> {
        self.keys@.map_values(|k: Vec<GroupByScalar>| key_view(k@))
    }

    /// For each group, for each aggregate expression, the values absorbed.
    pub closed spec fn inputs(&self) -> Seq<Seq<Seq<int>>> {
        self.entries@.map_values(|e: Vec<Accumulator>| e@.map_values(|a: Accumulator| a.inputs()))
    }

    pub closed spec fn wf(&self, aggr: Seq<AggregateExpr>) -> bool {
        let m = index_contents(self.index);
        &&& self.entries@.len() == self.keys@.len()
        &&& forall|i: int| 0 <= i < self.keys@.len() ==> #[trigger] m.contains_key(self.keys()[i]) && m[self.keys()[i]] == i
        &&& forall|k: KeyView| #[trigger] m.contains_key(k) ==> m[k] < self.keys@.len() && self.keys()[m[k] as int] == k
        &&& forall|i: int| 0 <= i < self.entries@.len() ==> (#[trigger] self.entries@[i])@.len() == aggr.len()
        &&& forall|i: int, j: int| 0 <= i < self.entries@.len() && 0 <= j < aggr.len() ==> {
            let a = #[trigger] self.entries@[i]@[j];
            &&& a.wf()
            &&& a.spec_kind() == aggr[j].func
            &&& a.spec_data_type() == aggr[j].arg.data_type
        }
    }

    /// The result of aggregate `j` of group `g`.
    pub closed spec fn result_of(&self, g: int, j: int, aggr: Seq<AggregateExpr>) -> Option<int> {
        aggregate_of(aggr[j].func, self.inputs()[g][j])
    }

    pub fn new() -> (r: GroupTable)
        ensures
            forall|aggr: Seq<AggregateExpr>| r.wf(aggr),
            r.keys() == Seq::<KeyView>::empty(),
            r.inputs() == Seq::<Seq<Seq<int>>>::empty(),
    {
        let r = GroupTable { index: GroupIndex::new(), keys: Vec::new(), entries: Vec::new() };
        assert forall|k: KeyView| !index_contents(r.index).contains_key(k) by {
            assert(!index_contents(r.index).dom().contains(k));
        }
        assert(r.keys() =~= Seq::<KeyView>::empty());
        assert(r.inputs() =~= Seq::<Seq<Seq<int>>>::empty());
        r
    }

    pub fn len(&self) -> (r: usize)
        ensures
            r == self.keys().len(),
    {
        self.keys.len()
    }

    /// One entry per key, one value sequence per aggregate expression.
    pub proof fn lemma_shape(&self, aggr: Seq<AggregateExpr>)
        requires
            self.wf(aggr),
        ensures
            self.inputs().len() == self.keys().len(),
            forall|g: int| 0 <= g < self.inputs().len() ==> (#[trigger] self.inputs()[g]).len() == aggr.len(),
    {
        assert forall|g: int| 0 <= g < self.inputs().len() implies (#[trigger] self.inputs()[g]).len() == aggr.len() by {
            assert(self.entries@[g]@.len() == aggr.len());
        }
    }

    /// Distinct positions hold distinct keys.
    pub proof fn lemma_keys_distinct(&self, aggr: Seq<AggregateExpr>, i: int, j: int)
        requires
            self.wf(aggr),
            0 <= i < self.keys().len(),
            0 <= j < self.keys().len(),
        ensures
            self.keys()[i] == self.keys()[j] <==> i == j,
    {
        let m = index_contents(self.index);
        assert(m.contains_key(self.keys()[i]));
        assert(m.contains_key(self.keys()[j]));
    }

    /// The position of `key`, adding it with fresh accumulators when it is new.
    pub fn find_or_insert(&mut self, key: Vec<GroupByScalar>, aggr: &Vec<AggregateExpr>) -> (r: usize)
        requires
            old(self).wf(aggr@),
        ensures
            final(self).wf(aggr@),
            r < final(self).keys().len(),
            final(self).keys()[r as int] == key_view(key@),
            old(self).keys().contains(key_view(key@)) ==> final(self).keys() == old(self).keys()
                && final(self).inputs() == old(self).inputs(),
            !old(self).keys().contains(key_view(key@)) ==> final(self).keys() == old(self).keys().push(key_view(key@))
                && final(self).inputs() == old(self).inputs().push(empty_inputs(aggr@.len()))
                && r == old(self).keys().len(),
    {
        let ghost kv = key_view(key@);
        match self.index.get(&key) {
            Some(i) => {
                assert(self.keys().contains(kv));
                i
            },
            None => {
                assert(!self.keys().contains(kv)) by {
                    if self.keys().contains(kv) {
                        let i = choose|i: int| 0 <= i < self.keys().len() && self.keys()[i] == kv;
                        assert(index_contents(self.index).contains_key(self.keys()[i]));
                    }
                }
                let mut accs: Vec<Accumulator> = Vec::new();
                let mut j: usize = 0;
                while j < aggr.len()
                    invariant
                        j <= aggr@.len(),
                        accs@.len() == j,
                        forall|t: int| 0 <= t < j ==> {
                            let a = #[trigger] accs@[t];
                            &&& a.wf()
                            &&& a.spec_kind() == aggr@[t].func
                            &&& a.spec_data_type() == aggr@[t].arg.data_type
                            &&& a.inputs() == Seq::<int>::empty()
                        },
                    decreases aggr@.len() - j,
                {
                    accs.push(Accumulator::new(aggr[j].func, aggr[j].arg.data_type));
                    j = j + 1;
                }
                let n = self.keys.len();
                let ghost old_keys = self.keys();
                let ghost old_inputs = self.inputs();
                let copy = crate::column::copy_key(&key);
                self.index.insert(copy, n);
                self.keys.push(key);
                self.entries.push(accs);
                assert(self.keys() =~= old_keys.push(kv));
                assert(accs@.map_values(|a: Accumulator| a.inputs()) =~= empty_inputs(aggr@.len()));
                assert(self.inputs() =~= old_inputs.push(empty_inputs(aggr@.len())));
                n
            },
        }
    }

    /// Feeds `v` to aggregate `j` of group `g`.
    pub fn feed(&mut self, g: usize, j: usize, v: i64, aggr: &Vec<AggregateExpr>) -> (r: Result<(), ExecutionError>)
        requires
            old(self).wf(aggr@),
            g < old(self).keys().len(),
            j < aggr@.len(),
        ensures
            final(self).wf(aggr@),
            final(self).keys() == old(self).keys(),
            r is Ok <==> old(self).inputs()[g as int][j as int].len() < u64::MAX,
            r is Ok ==> final(self).inputs() == old(self).inputs().update(g as int,
                old(self).inputs()[g as int].update(j as int, old(self).inputs()[g as int][j as int].push(v as int))),
            r is Err ==> r == Err::<(), ExecutionError>(ExecutionError::Overflow) && final(self).inputs() == old(self).inputs(),
    {
        let ghost old_inputs = self.inputs();
        let ghost old_keys = self.keys();
        let ghost old_entries = self.entries@;
        let mut row: Vec<Accumulator> = Vec::new();
        std::mem::swap(&mut row, &mut self.entries[g]);
        assert(row@[j as int].wf());
        let mut acc = Accumulator::new(AggregateType::Count, DataType::Int64);
        std::mem::swap(&mut acc, &mut row[j]);
        let r = acc.accumulate(v);
        let ghost updated = acc;
        std::mem::swap(&mut acc, &mut row[j]);
        std::mem::swap(&mut row, &mut self.entries[g]);
        assert(self.keys() =~= old_keys);
        proof {
            assert(self.entries@ == old_entries.update(g as int, self.entries@[g as int]));
            assert(self.entries@[g as int]@ == old_entries[g as int]@.update(j as int, updated));
            assert(self.inputs()[g as int] =~= old_inputs[g as int].update(j as int, updated.inputs()));
            if r is Ok {
                assert(self.inputs() =~= old_inputs.update(g as int,
                    old_inputs[g as int].update(j as int, old_inputs[g as int][j as int].push(v as int))));
            } else {
                assert(updated.inputs() == old_inputs[g as int][j as int]);
                assert(self.inputs()[g as int] =~= old_inputs[g as int]);
                assert(self.inputs() =~= old_inputs);
            }
        }
        r
    }

    /// Feeds a non-empty run of values to MIN or MAX aggregate `j` of group
    /// `g` through its precomputed extreme.
    pub fn feed_extreme(&mut self, g: usize, j: usize, values: Ghost<Seq<int>>, n: usize, extreme: i64, aggr: &Vec<AggregateExpr>) -> (r: Result<(), ExecutionError>)
        requires
            old(self).wf(aggr@),
            g < old(self).keys().len(),
            j < aggr@.len(),
            n as int == values@.len(),
            n > 0,
            in_i64_range(values@),
            aggr@[j as int].func is Min ==> extreme as int == seq_min(values@),
            aggr@[j as int].func is Max ==> extreme as int == seq_max(values@),
            aggr@[j as int].func is Min || aggr@[j as int].func is Max,
        ensures
            final(self).wf(aggr@),
            final(self).keys() == old(self).keys(),
            r is Ok <==> old(self).inputs()[g as int][j as int].len() + n <= u64::MAX,
            r is Ok ==> final(self).inputs() == old(self).inputs().update(g as int,
                old(self).inputs()[g as int].update(j as int, old(self).inputs()[g as int][j as int] + values@)),
            r is Err ==> r == Err::<(), ExecutionError>(ExecutionError::Overflow) && final(self).inputs() == old(self).inputs(),
    {
        let ghost old_inputs = self.inputs();
        let ghost old_keys = self.keys();
        let ghost old_entries = self.entries@;
        let mut row: Vec<Accumulator> = Vec::new();
        std::mem::swap(&mut row, &mut self.entries[g]);
        assert(row@[j as int].wf());
        let mut acc = Accumulator::new(AggregateType::Count, DataType::Int64);
        std::mem::swap(&mut acc, &mut row[j]);
        let r = acc.absorb_extreme(values, n, extreme);
        let ghost updated = acc;
        std::mem::swap(&mut acc, &mut row[j]);
        std::mem::swap(&mut row, &mut self.entries[g]);
        assert(self.keys() =~= old_keys);
        proof {
            assert(self.entries@ == old_entries.update(g as int, self.entries@[g as int]));
            assert(self.entries@[g as int]@ == old_entries[g as int]@.update(j as int, updated));
            assert(self.inputs()[g as int] =~= old_inputs[g as int].update(j as int, updated.inputs()));
            if r is Ok {
                assert(self.inputs() =~= old_inputs.update(g as int,
                    old_inputs[g as int].update(j as int, old_inputs[g as int][j as int] + values@)));
            } else {
                assert(updated.inputs() == old_inputs[g as int][j as int]);
                assert(self.inputs()[g as int] =~= old_inputs[g as int]);
                assert(self.inputs() =~= old_inputs);
            }
        }
        r
    }

    /// The current result of aggregate `j` of group `g`.
    pub fn result(&self, g: usize, j: usize, aggr: &Vec<AggregateExpr>) -> (r: Option<i128>)
        requires
            self.wf(aggr@),
            g < self.keys().len(),
            j < aggr@.len(),
        ensures
            opt_view(r) == aggregate_of(aggr@[j as int].func, self.inputs()[g as int][j as int]),
    {
        assert(self.entries@[g as int]@[j as int].wf());
        self.entries[g][j].result()
    }

    /// The key of group `g`.
    pub fn key(&self, g: usize) -> (r: &Vec<GroupByScalar>)
        requires
            g < self.keys().len(),
        ensures
            key_view(r@) == self.keys()[g as int],
    {
        &self.keys[g]
    }
}

} // verus!
