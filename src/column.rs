//! Columns and batches as plain values, and group-key scalars read out of them.

use vstd::prelude::*;
use crate::types::DataType;

verus! {

/// One typed column of values.
pub enum Column {
    Boolean(Vec<bool>),
    Int32(Vec<i32>),
    Int64(Vec<i64>),
    Utf8(Vec<String>),
}

/// A named, typed column slot of a schema.
pub struct Field {
    pub name: String,
    pub data_type: DataType,
    pub nullable: bool,
}

/// A set of equal-length columns described by a schema.
pub struct Batch {
    pub schema: Vec<Field>,
    pub columns: Vec<Column>,
    pub num_rows: usize,
}

/// A scalar of a group key; two keys compare by structure.
#[derive(Debug, PartialEq, Eq, Hash)]
pub enum GroupByScalar {
    Boolean(bool),
    Int32(i32),
    Int64(i64),
    Utf8(String),
}

impl View for GroupByScalar {
    /// Variant tag, integer payload, text payload.
    type V = (int, int, Seq<char>);

    open spec fn view(&self) -> (int, int, Seq<char>) {
        match self {
            GroupByScalar::Boolean(b) => (0, if *b { 1int } else { 0int }, Seq::empty()),
            GroupByScalar::Int32(v) => (1, *v as int, Seq::empty()),
            GroupByScalar::Int64(v) => (2, *v as int, Seq::empty()),
            GroupByScalar::Utf8(s) => (3, 0, s@),
        }
    }
}

/// The view of a whole group key.
pub open spec fn key_view(k: Seq<GroupByScalar>) -> Seq<(int, int, Seq<char>)> {
    k.map_values(|s: GroupByScalar| s@)
}

impl Column {
    pub open spec fn spec_len(&self) -> nat {
        match self {
            Column::Boolean(v) => v@.len(),
            Column::Int32(v) => v@.len(),
            Column::Int64(v) => v@.len(),
            Column::Utf8(v) => v@.len(),
        }
    }

    pub open spec fn spec_data_type(&self) -> DataType {
        match self {
            Column::Boolean(_) => DataType::Boolean,
            Column::Int32(_) => DataType::Int32,
            Column::Int64(_) => DataType::Int64,
            Column::Utf8(_) => DataType::Utf8,
        }
    }

    /// Two columns hold the same type and the same values.
    pub open spec fn same_as(&self, o: &Column) -> bool {
        match (self, o) {
            (Column::Boolean(a), Column::Boolean(b)) => a@ == b@,
            (Column::Int32(a), Column::Int32(b)) => a@ == b@,
            (Column::Int64(a), Column::Int64(b)) => a@ == b@,
            (Column::Utf8(a), Column::Utf8(b)) => a@.map_values(|s: String| s@) == b@.map_values(|s: String| s@),
            _ => false,
        }
    }

    /// The group-key scalar at `row`.
    pub open spec fn key_at(&self, row: int) -> (int, int, Seq<char>) {
        match self {
            Column::Boolean(v) => (0, if v@[row] { 1int } else { 0int }, Seq::empty()),
            Column::Int32(v) => (1, v@[row] as int, Seq::empty()),
            Column::Int64(v) => (2, v@[row] as int, Seq::empty()),
            Column::Utf8(v) => (3, 0, v@[row]@),
        }
    }

    /// The integer at `row` of an integer column.
    pub open spec fn int_at(&self, row: int) -> int {
        match self {
            Column::Int32(v) => v@[row] as int,
            Column::Int64(v) => v@[row] as int,
            _ => 0,
        }
    }

    /// All values of an integer column, widened.
    pub open spec fn int_values(&self) -> Seq<int> {
        Seq::new(self.spec_len(), |i: int| self.int_at(i))
    }

    pub fn len(&self) -> (r: usize)
        ensures
            r == self.spec_len(),
    {
        match self {
            Column::Boolean(v) => v.len(),
            Column::Int32(v) => v.len(),
            Column::Int64(v) => v.len(),
            Column::Utf8(v) => v.len(),
        }
    }

    pub fn data_type(&self) -> (r: DataType)
        ensures
            r == self.spec_data_type(),
    {
        match self {
            Column::Boolean(_) => DataType::Boolean,
            Column::Int32(_) => DataType::Int32,
            Column::Int64(_) => DataType::Int64,
            Column::Utf8(_) => DataType::Utf8,
        }
    }

    /// A copy of this column with the same type and values.
    pub fn duplicate(&self) -> (r: Column)
        ensures
            r.same_as(self),
            r.spec_len() == self.spec_len(),
            r.spec_data_type() == self.spec_data_type(),
    {
        match self {
            Column::Boolean(v) => Column::Boolean(copy_plain(v)),
            Column::Int32(v) => Column::Int32(copy_plain(v)),
            Column::Int64(v) => Column::Int64(copy_plain(v)),
            Column::Utf8(v) => {
                let mut out: Vec<String> = Vec::new();
                let mut i: usize = 0;
                while i < v.len()
                    invariant
                        i <= v@.len(),
                        out@.len() == i,
                        forall|k: int| 0 <= k < i ==> #[trigger] out@[k]@ == v@[k]@,
                    decreases v@.len() - i,
                {
                    out.push(v[i].clone());
                    i = i + 1;
                }
                assert(out@.map_values(|s: String| s@) =~= v@.map_values(|s: String| s@));
                Column::Utf8(out)
            },
        }
    }

    /// The group-key scalar at `row`.
    pub fn key_scalar(&self, row: usize) -> (r: GroupByScalar)
        requires
            row < self.spec_len(),
        ensures
            r@ == self.key_at(row as int),
    {
        match self {
            Column::Boolean(v) => GroupByScalar::Boolean(v[row]),
            Column::Int32(v) => GroupByScalar::Int32(v[row]),
            Column::Int64(v) => GroupByScalar::Int64(v[row]),
            Column::Utf8(v) => GroupByScalar::Utf8(v[row].clone()),
        }
    }

    /// The integer at `row`, widened; zero for a non-integer column.
    pub fn int_value(&self, row: usize) -> (r: i64)
        requires
            row < self.spec_len(),
        ensures
            r as int == self.int_at(row as int),
    {
        match self {
            Column::Int32(v) => v[row] as i64,
            Column::Int64(v) => v[row],
            _ => 0,
        }
    }

    /// All values of the column widened to 64 bits.
    pub fn to_i64_values(&self) -> (r: Vec<i64>)
        ensures
            r@.len() == self.spec_len(),
            forall|k: int| 0 <= k < r@.len() ==> #[trigger] r@[k] as int == self.int_at(k),
    {
        let n = self.len();
        let mut out: Vec<i64> = Vec::new();
        let mut i: usize = 0;
        while i < n
            invariant
                n == self.spec_len(),
                i <= n,
                out@.len() == i,
                forall|k: int| 0 <= k < i ==> #[trigger] out@[k] as int == self.int_at(k),
            decreases n - i,
        {
            out.push(self.int_value(i));
            i = i + 1;
        }
        out
    }
}

fn copy_plain<T: Copy>(v: &Vec<T>) -> (r: Vec<T>)
    ensures
        r@ == v@,
{
    let mut out: Vec<T> = Vec::new();
    let mut i: usize = 0;
    while i < v.len()
        invariant
            i <= v@.len(),
            out@ == v@.subrange(0, i as int),
        decreases v@.len() - i,
    {
        out.push(v[i]);
        i = i + 1;
    }
    assert(out@ =~= v@);
    out
}

impl GroupByScalar {
    /// A copy with the same view.
    pub fn duplicate(&self) -> (r: GroupByScalar)
        ensures
            r@ == self@,
    {
        match self {
            GroupByScalar::Boolean(b) => GroupByScalar::Boolean(*b),
            GroupByScalar::Int32(v) => GroupByScalar::Int32(*v),
            GroupByScalar::Int64(v) => GroupByScalar::Int64(*v),
            GroupByScalar::Utf8(s) => GroupByScalar::Utf8(s.clone()),
        }
    }
}

/// A copy of a group key with the same view.
pub fn copy_key(k: &Vec<GroupByScalar>) -> (r: Vec<GroupByScalar>)
    ensures
        key_view(r@) == key_view(k@),
{
    let mut out: Vec<GroupByScalar> = Vec::new();
    let mut i: usize = 0;
    while i < k.len()
        invariant
            i <= k@.len(),
            out@.len() == i,
            forall|j: int| 0 <= j < i ==> #[trigger] out@[j]@ == k@[j]@,
        decreases k@.len() - i,
    {
        out.push(k[i].duplicate());
        i = i + 1;
    }
    assert(key_view(out@) =~= key_view(k@));
    out
}

impl Field {
    pub fn duplicate(&self) -> (r: Field)
        ensures
            r.name@ == self.name@,
            r.data_type == self.data_type,
            r.nullable == self.nullable,
    {
        Field { name: self.name.clone(), data_type: self.data_type, nullable: self.nullable }
    }
}

impl Batch {
    /// Every column has `num_rows` values and the type its field declares.
    pub open spec fn wf(&self) -> bool {
        &&& self.schema@.len() == self.columns@.len()
        &&& forall|i: int| 0 <= i < self.columns@.len() ==> (#[trigger] self.columns@[i]).spec_len() == self.num_rows
        &&& forall|i: int| 0 <= i < self.columns@.len() ==> self.schema@[i].data_type == (#[trigger] self.columns@[i]).spec_data_type()
    }
}

} // verus!
