//! Columns of values, and sets of columns of one length.

use vstd::prelude::*;
use crate::error::{Error, ErrorView};
use crate::schema::Datatype;
use crate::text::same_text;

verus! {

/// The values of `values`, each as often as `reps` says at its place.
pub open spec fn repeated<T>(values: Seq<T>, reps: Seq<nat>) -> Seq<T>
    decreases values.len(),
{
    if values.len() == 0 || reps.len() == 0 {
        Seq::empty()
    } else {
        repeated(values.drop_last(), reps.drop_last()) + Seq::new(reps.last(), |k: int| values.last())
    }
}

/// The number of values that the first `n` places of `reps` ask for.
pub open spec fn total(reps: Seq<nat>, n: int) -> int
    decreases n,
{
    if n <= 0 {
        0
    } else {
        total(reps, n - 1) + reps[n - 1]
    }
}

/// As many values come out as the places of `reps` ask for together.
pub proof fn lemma_repeated_len<T>(values: Seq<T>, reps: Seq<nat>)
    requires
        values.len() == reps.len(),
    ensures
        repeated(values, reps).len() == total(reps, reps.len() as int),
    decreases values.len(),
{
    if values.len() > 0 {
        let front_reps = reps.drop_last();
        lemma_repeated_len(values.drop_last(), front_reps);
        lemma_total_of_prefix(reps, front_reps, front_reps.len() as int);
    }
}

/// The value that stands at place `k` of the run of the value at place `i`.
pub open spec fn run_value<T>(values: Seq<T>, reps: Seq<nat>, i: int, k: int) -> T {
    repeated(values, reps)[total(reps, i) + k]
}

/// The run of the value at place `i` begins where the runs before it
/// end, and holds that value throughout.
pub proof fn lemma_repeated_run<T>(values: Seq<T>, reps: Seq<nat>, i: int, k: int)
    requires
        values.len() == reps.len(),
        0 <= i < values.len(),
        0 <= k < reps[i],
    ensures
        0 <= total(reps, i) + k < repeated(values, reps).len(),
        run_value(values, reps, i, k) == values[i],
    decreases values.len(),
{
    let front = values.drop_last();
    let front_reps = reps.drop_last();
    let n = front.len() as int;
    let all = repeated(values, reps);
    let block = Seq::new(reps.last(), |j: int| values.last());
    assert(all == repeated(front, front_reps) + block);
    lemma_repeated_len(front, front_reps);
    lemma_total_of_prefix(reps, front_reps, n);
    lemma_total_rises(reps, 0, i);
    if i < n {
        lemma_repeated_run(front, front_reps, i, k);
        lemma_total_of_prefix(reps, front_reps, i);
        assert(front[i] == values[i]);
        assert(all[total(reps, i) + k] == repeated(front, front_reps)[total(front_reps, i) + k]);
    } else {
        assert(all[total(reps, n) + k] == block[k]);
    }
}

/// Whether the run of the value at place `i` lies in the result and
/// holds that value at its place `k`.
pub open spec fn run_holds<T>(values: Seq<T>, reps: Seq<nat>, i: int, k: int) -> bool {
    &&& 0 <= total(reps, i) + k < repeated(values, reps).len()
    &&& run_value(values, reps, i, k) == values[i]
}

/// Every value is repeated as often as asked, one run behind the other.
pub proof fn lemma_repeated_runs<T>(values: Seq<T>, reps: Seq<nat>)
    requires
        values.len() == reps.len(),
    ensures
        repeated(values, reps).len() == total(reps, reps.len() as int),
        forall|i: int, k: int|
            0 <= i < values.len() && 0 <= k < reps[i] ==> #[trigger] run_holds(values, reps, i, k),
{
    lemma_repeated_len(values, reps);
    assert forall|i: int, k: int| 0 <= i < values.len() && 0 <= k < reps[i] implies #[trigger] run_holds(
        values,
        reps,
        i,
        k,
    ) by {
        lemma_repeated_run(values, reps, i, k);
    }
}

/// The total of a prefix is the total of the same places of the whole.
pub proof fn lemma_total_of_prefix(reps: Seq<nat>, front: Seq<nat>, n: int)
    requires
        0 <= n <= front.len() <= reps.len(),
        forall|i: int| 0 <= i < front.len() ==> front[i] == reps[i],
    ensures
        total(front, n) == total(reps, n),
    decreases n,
{
    if n > 0 {
        lemma_total_of_prefix(reps, front, n - 1);
    }
}

/// Totals do not fall.
pub proof fn lemma_total_rises(reps: Seq<nat>, a: int, b: int)
    requires
        0 <= a <= b,
    ensures
        total(reps, a) <= total(reps, b),
    decreases b - a,
{
    if a < b {
        lemma_total_rises(reps, a, b - 1);
    }
}

/// The numbers of a list, as natural numbers.
pub open spec fn counts(reps: Seq<usize>) -> Seq<nat> {
    Seq::new(reps.len(), |i: int| reps[i] as nat)
}

/// The values of `values`, each as often as `reps` says at its place.
pub(crate) fn repeat_items<T: Copy>(values: &Vec<T>, reps: &Vec<usize>) -> (out: Vec<T>)
    requires
        values.len() == reps.len(),
    ensures
        out@ == repeated(values@, counts(reps@)),
{
    let mut out: Vec<T> = Vec::new();
    let ghost all = counts(reps@);
    let mut i: usize = 0;
    assert(repeated(values@.take(0), all.take(0)) =~= Seq::<T>::empty());
    while i < values.len()
        invariant
            i <= values.len(),
            values.len() == reps.len(),
            all == counts(reps@),
            out@ == repeated(values@.take(i as int), all.take(i as int)),
        decreases values.len() - i,
    {
        let ghost before = out@;
        let value = values[i];
        let mut k: usize = 0;
        while k < reps[i]
            invariant
                i < reps.len(),
                k <= reps[i as int],
                out@ == before + Seq::new(k as nat, |j: int| value),
            decreases reps[i as int] - k,
        {
            out.push(value);
            k += 1;
            assert(out@ =~= before + Seq::new(k as nat, |j: int| value));
        }
        assert(values@.take(i + 1).drop_last() =~= values@.take(i as int));
        assert(all.take(i + 1).drop_last() =~= all.take(i as int));
        assert(values@.take(i + 1).last() == value);
        assert(all.take(i + 1).last() == reps@[i as int]);
        assert(out@ =~= repeated(values@.take(i + 1), all.take(i + 1)));
        i += 1;
    }
    assert(values@.take(values@.len() as int) =~= values@);
    assert(all.take(reps@.len() as int) =~= all);
    out
}

/// The values of `values` at the places `rows`, in the order of `rows`.
pub open spec fn picked<T>(values: Seq<T>, rows: Seq<usize>) -> Seq<T> {
    Seq::new(rows.len(), |i: int| values[rows[i] as int])
}

/// The values of `values` at the places `rows`, in the order of `rows`.
pub(crate) fn pick_items<T: Copy>(values: &Vec<T>, rows: &Vec<usize>) -> (out: Vec<T>)
    requires
        forall|i: int| 0 <= i < rows.len() ==> #[trigger] rows[i] < values.len(),
    ensures
        out@ == picked(values@, rows@),
{
    let mut out: Vec<T> = Vec::new();
    let mut i: usize = 0;
    while i < rows.len()
        invariant
            i <= rows.len(),
            forall|i: int| 0 <= i < rows.len() ==> #[trigger] rows[i] < values.len(),
            out.len() == i,
            forall|j: int| 0 <= j < i ==> #[trigger] out@[j] == values@[rows@[j] as int],
        decreases rows.len() - i,
    {
        out.push(values[rows[i]]);
        i += 1;
    }
    assert(out@ =~= picked(values@, rows@));
    out
}

// ---------------------------------------------------------------------------
// Columns

/// A column of values of one type.
#[derive(Debug, PartialEq, Eq)]
pub enum ColVec {
    U8(Vec<u8>),
    U8N(Vec<Option<u8>>),
    I8(Vec<i8>),
    I8N(Vec<Option<i8>>),
    U16(Vec<u16>),
    U16N(Vec<Option<u16>>),
    I16(Vec<i16>),
    I16N(Vec<Option<i16>>),
    U32(Vec<u32>),
    U32N(Vec<Option<u32>>),
    I32(Vec<i32>),
    I32N(Vec<Option<i32>>),
    U64(Vec<u64>),
    U64N(Vec<Option<u64>>),
    I64(Vec<i64>),
    I64N(Vec<Option<i64>>),
    /// 32-bit floating point numbers, each by its bits.
    F32(Vec<u32>),
    F32N(Vec<Option<u32>>),
    /// 64-bit floating point numbers, each by its bits.
    F64(Vec<u64>),
    F64N(Vec<Option<u64>>),
    /// Days, each by the seconds from 1970-01-01 to its start.
    Date(Vec<i64>),
    DateN(Vec<Option<i64>>),
    /// Points in time, each by the seconds from 1970-01-01.
    DateTime(Vec<i64>),
    DateTimeN(Vec<Option<i64>>),
}

/// Mathematical value of a [`ColVec`]: its type, and its values as
/// integers, `None` standing for `NULL`.
pub struct ColVecView {
    pub datatype: Datatype,
    pub values: Seq<Option<int>>,
}

pub open spec fn u8_int() -> spec_fn(u8) -> int {
    |x: u8| x as int
}

pub open spec fn i8_int() -> spec_fn(i8) -> int {
    |x: i8| x as int
}

pub open spec fn u16_int() -> spec_fn(u16) -> int {
    |x: u16| x as int
}

pub open spec fn i16_int() -> spec_fn(i16) -> int {
    |x: i16| x as int
}

pub open spec fn u32_int() -> spec_fn(u32) -> int {
    |x: u32| x as int
}

pub open spec fn i32_int() -> spec_fn(i32) -> int {
    |x: i32| x as int
}

pub open spec fn u64_int() -> spec_fn(u64) -> int {
    |x: u64| x as int
}

pub open spec fn i64_int() -> spec_fn(i64) -> int {
    |x: i64| x as int
}

/// The values of a column without `NULL`.
pub open spec fn plain<T>(v: Seq<T>, f: spec_fn(T) -> int) -> Seq<Option<int>> {
    Seq::new(v.len(), |i: int| Some(f(v[i])))
}

/// The values of a column that may hold `NULL`.
pub open spec fn nullable<T>(v: Seq<Option<T>>, f: spec_fn(T) -> int) -> Seq<Option<int>> {
    Seq::new(
        v.len(),
        |i: int|
            match v[i] {
                Some(x) => Some(f(x)),
                None => None,
            },
    )
}

/// Repeating values and reading them as integers can be done in either order.
pub proof fn lemma_plain_repeated<T>(v: Seq<T>, reps: Seq<nat>, f: spec_fn(T) -> int)
    ensures
        plain(repeated(v, reps), f) == repeated(plain(v, f), reps),
    decreases v.len(),
{
    if v.len() > 0 && reps.len() > 0 {
        lemma_plain_repeated(v.drop_last(), reps.drop_last(), f);
        assert(plain(v, f).drop_last() =~= plain(v.drop_last(), f));
        assert(plain(repeated(v, reps), f) =~= plain(repeated(v.drop_last(), reps.drop_last()), f)
            + Seq::new(reps.last(), |k: int| plain(v, f).last()));
    } else {
        assert(plain(repeated(v, reps), f) =~= repeated(plain(v, f), reps));
    }
}

/// Repeating values and reading them as integers can be done in either order.
pub proof fn lemma_nullable_repeated<T>(v: Seq<Option<T>>, reps: Seq<nat>, f: spec_fn(T) -> int)
    ensures
        nullable(repeated(v, reps), f) == repeated(nullable(v, f), reps),
    decreases v.len(),
{
    if v.len() > 0 && reps.len() > 0 {
        lemma_nullable_repeated(v.drop_last(), reps.drop_last(), f);
        assert(nullable(v, f).drop_last() =~= nullable(v.drop_last(), f));
        assert(nullable(repeated(v, reps), f) =~= nullable(
            repeated(v.drop_last(), reps.drop_last()),
            f,
        ) + Seq::new(reps.last(), |k: int| nullable(v, f).last()));
    } else {
        assert(nullable(repeated(v, reps), f) =~= repeated(nullable(v, f), reps));
    }
}

impl View for ColVec {
    type V = ColVecView;

    open spec fn view(&self) -> ColVecView {
        match self {
            ColVec::U8(v) => ColVecView { datatype: Datatype::U8, values: plain(v@, u8_int()) },
            ColVec::U8N(v) => ColVecView { datatype: Datatype::U8N, values: nullable(v@, u8_int()) },
            ColVec::I8(v) => ColVecView { datatype: Datatype::I8, values: plain(v@, i8_int()) },
            ColVec::I8N(v) => ColVecView { datatype: Datatype::I8N, values: nullable(v@, i8_int()) },
            ColVec::U16(v) => ColVecView { datatype: Datatype::U16, values: plain(v@, u16_int()) },
            ColVec::U16N(v) => ColVecView { datatype: Datatype::U16N, values: nullable(v@, u16_int()) },
            ColVec::I16(v) => ColVecView { datatype: Datatype::I16, values: plain(v@, i16_int()) },
            ColVec::I16N(v) => ColVecView { datatype: Datatype::I16N, values: nullable(v@, i16_int()) },
            ColVec::U32(v) => ColVecView { datatype: Datatype::U32, values: plain(v@, u32_int()) },
            ColVec::U32N(v) => ColVecView { datatype: Datatype::U32N, values: nullable(v@, u32_int()) },
            ColVec::I32(v) => ColVecView { datatype: Datatype::I32, values: plain(v@, i32_int()) },
            ColVec::I32N(v) => ColVecView { datatype: Datatype::I32N, values: nullable(v@, i32_int()) },
            ColVec::U64(v) => ColVecView { datatype: Datatype::U64, values: plain(v@, u64_int()) },
            ColVec::U64N(v) => ColVecView { datatype: Datatype::U64N, values: nullable(v@, u64_int()) },
            ColVec::I64(v) => ColVecView { datatype: Datatype::I64, values: plain(v@, i64_int()) },
            ColVec::I64N(v) => ColVecView { datatype: Datatype::I64N, values: nullable(v@, i64_int()) },
            ColVec::F32(v) => ColVecView { datatype: Datatype::F32, values: plain(v@, u32_int()) },
            ColVec::F32N(v) => ColVecView { datatype: Datatype::F32N, values: nullable(v@, u32_int()) },
            ColVec::F64(v) => ColVecView { datatype: Datatype::F64, values: plain(v@, u64_int()) },
            ColVec::F64N(v) => ColVecView { datatype: Datatype::F64N, values: nullable(v@, u64_int()) },
            ColVec::Date(v) => ColVecView { datatype: Datatype::Date, values: plain(v@, i64_int()) },
            ColVec::DateN(v) => ColVecView { datatype: Datatype::DateN, values: nullable(v@, i64_int()) },
            ColVec::DateTime(v) => ColVecView { datatype: Datatype::DateTime, values: plain(v@, i64_int()) },
            ColVec::DateTimeN(v) => ColVecView { datatype: Datatype::DateTimeN, values: nullable(v@, i64_int()) },
        }
    }
}

impl ColVec {
    /// The number of values.
    pub fn len(&self) -> (n: usize)
        ensures
            n == self@.values.len(),
    {
        match self {
            ColVec::U8(v) => v.len(),
            ColVec::U8N(v) => v.len(),
            ColVec::I8(v) => v.len(),
            ColVec::I8N(v) => v.len(),
            ColVec::U16(v) => v.len(),
            ColVec::U16N(v) => v.len(),
            ColVec::I16(v) => v.len(),
            ColVec::I16N(v) => v.len(),
            ColVec::U32(v) => v.len(),
            ColVec::U32N(v) => v.len(),
            ColVec::I32(v) => v.len(),
            ColVec::I32N(v) => v.len(),
            ColVec::U64(v) => v.len(),
            ColVec::U64N(v) => v.len(),
            ColVec::I64(v) => v.len(),
            ColVec::I64N(v) => v.len(),
            ColVec::F32(v) => v.len(),
            ColVec::F32N(v) => v.len(),
            ColVec::F64(v) => v.len(),
            ColVec::F64N(v) => v.len(),
            ColVec::Date(v) => v.len(),
            ColVec::DateN(v) => v.len(),
            ColVec::DateTime(v) => v.len(),
            ColVec::DateTimeN(v) => v.len(),
        }
    }

    pub fn is_empty(&self) -> (b: bool)
        ensures
            b == (self@.values.len() == 0),
    {
        self.len() == 0
    }

    /// The type of the values.
    pub fn datatype(&self) -> (d: Datatype)
        ensures
            d == self@.datatype,
    {
        match self {
            ColVec::U8(_) => Datatype::U8,
            ColVec::U8N(_) => Datatype::U8N,
            ColVec::I8(_) => Datatype::I8,
            ColVec::I8N(_) => Datatype::I8N,
            ColVec::U16(_) => Datatype::U16,
            ColVec::U16N(_) => Datatype::U16N,
            ColVec::I16(_) => Datatype::I16,
            ColVec::I16N(_) => Datatype::I16N,
            ColVec::U32(_) => Datatype::U32,
            ColVec::U32N(_) => Datatype::U32N,
            ColVec::I32(_) => Datatype::I32,
            ColVec::I32N(_) => Datatype::I32N,
            ColVec::U64(_) => Datatype::U64,
            ColVec::U64N(_) => Datatype::U64N,
            ColVec::I64(_) => Datatype::I64,
            ColVec::I64N(_) => Datatype::I64N,
            ColVec::F32(_) => Datatype::F32,
            ColVec::F32N(_) => Datatype::F32N,
            ColVec::F64(_) => Datatype::F64,
            ColVec::F64N(_) => Datatype::F64N,
            ColVec::Date(_) => Datatype::Date,
            ColVec::DateN(_) => Datatype::DateN,
            ColVec::DateTime(_) => Datatype::DateTime,
            ColVec::DateTimeN(_) => Datatype::DateTimeN,
        }
    }

    /// The column with each value as often as `reps` says at its place.
    pub(crate) fn repeat(&self, reps: &Vec<usize>) -> (out: ColVec)
        requires
            self@.values.len() == reps.len(),
        ensures
            out@.datatype == self@.datatype,
            out@.values == repeated(self@.values, counts(reps@)),
    {
        match self {
            ColVec::U8(v) => {
                proof {
                    lemma_plain_repeated(v@, counts(reps@), u8_int());
                }
                ColVec::U8(repeat_items(v, reps))
            },
            ColVec::U8N(v) => {
                proof {
                    lemma_nullable_repeated(v@, counts(reps@), u8_int());
                }
                ColVec::U8N(repeat_items(v, reps))
            },
            ColVec::I8(v) => {
                proof {
                    lemma_plain_repeated(v@, counts(reps@), i8_int());
                }
                ColVec::I8(repeat_items(v, reps))
            },
            ColVec::I8N(v) => {
                proof {
                    lemma_nullable_repeated(v@, counts(reps@), i8_int());
                }
                ColVec::I8N(repeat_items(v, reps))
            },
            ColVec::U16(v) => {
                proof {
                    lemma_plain_repeated(v@, counts(reps@), u16_int());
                }
                ColVec::U16(repeat_items(v, reps))
            },
            ColVec::U16N(v) => {
                proof {
                    lemma_nullable_repeated(v@, counts(reps@), u16_int());
                }
                ColVec::U16N(repeat_items(v, reps))
            },
            ColVec::I16(v) => {
                proof {
                    lemma_plain_repeated(v@, counts(reps@), i16_int());
                }
                ColVec::I16(repeat_items(v, reps))
            },
            ColVec::I16N(v) => {
                proof {
                    lemma_nullable_repeated(v@, counts(reps@), i16_int());
                }
                ColVec::I16N(repeat_items(v, reps))
            },
            ColVec::U32(v) => {
                proof {
                    lemma_plain_repeated(v@, counts(reps@), u32_int());
                }
                ColVec::U32(repeat_items(v, reps))
            },
            ColVec::U32N(v) => {
                proof {
                    lemma_nullable_repeated(v@, counts(reps@), u32_int());
                }
                ColVec::U32N(repeat_items(v, reps))
            },
            ColVec::I32(v) => {
                proof {
                    lemma_plain_repeated(v@, counts(reps@), i32_int());
                }
                ColVec::I32(repeat_items(v, reps))
            },
            ColVec::I32N(v) => {
                proof {
                    lemma_nullable_repeated(v@, counts(reps@), i32_int());
                }
                ColVec::I32N(repeat_items(v, reps))
            },
            ColVec::U64(v) => {
                proof {
                    lemma_plain_repeated(v@, counts(reps@), u64_int());
                }
                ColVec::U64(repeat_items(v, reps))
            },
            ColVec::U64N(v) => {
                proof {
                    lemma_nullable_repeated(v@, counts(reps@), u64_int());
                }
                ColVec::U64N(repeat_items(v, reps))
            },
            ColVec::I64(v) => {
                proof {
                    lemma_plain_repeated(v@, counts(reps@), i64_int());
                }
                ColVec::I64(repeat_items(v, reps))
            },
            ColVec::I64N(v) => {
                proof {
                    lemma_nullable_repeated(v@, counts(reps@), i64_int());
                }
                ColVec::I64N(repeat_items(v, reps))
            },
            ColVec::F32(v) => {
                proof {
                    lemma_plain_repeated(v@, counts(reps@), u32_int());
                }
                ColVec::F32(repeat_items(v, reps))
            },
            ColVec::F32N(v) => {
                proof {
                    lemma_nullable_repeated(v@, counts(reps@), u32_int());
                }
                ColVec::F32N(repeat_items(v, reps))
            },
            ColVec::F64(v) => {
                proof {
                    lemma_plain_repeated(v@, counts(reps@), u64_int());
                }
                ColVec::F64(repeat_items(v, reps))
            },
            ColVec::F64N(v) => {
                proof {
                    lemma_nullable_repeated(v@, counts(reps@), u64_int());
                }
                ColVec::F64N(repeat_items(v, reps))
            },
            ColVec::Date(v) => {
                proof {
                    lemma_plain_repeated(v@, counts(reps@), i64_int());
                }
                ColVec::Date(repeat_items(v, reps))
            },
            ColVec::DateN(v) => {
                proof {
                    lemma_nullable_repeated(v@, counts(reps@), i64_int());
                }
                ColVec::DateN(repeat_items(v, reps))
            },
            ColVec::DateTime(v) => {
                proof {
                    lemma_plain_repeated(v@, counts(reps@), i64_int());
                }
                ColVec::DateTime(repeat_items(v, reps))
            },
            ColVec::DateTimeN(v) => {
                proof {
                    lemma_nullable_repeated(v@, counts(reps@), i64_int());
                }
                ColVec::DateTimeN(repeat_items(v, reps))
            },
        }
    }

    /// The column of the values at the places `rows`, in the order of `rows`.
    pub(crate) fn pick(&self, rows: &Vec<usize>) -> (out: ColVec)
        requires
            forall|i: int| 0 <= i < rows.len() ==> #[trigger] rows[i] < self@.values.len(),
        ensures
            out@.datatype == self@.datatype,
            out@.values == picked(self@.values, rows@),
    {
        match self {
            ColVec::U8(v) => {
                assert(plain(picked(v@, rows@), u8_int()) =~= picked(plain(v@, u8_int()), rows@));
                ColVec::U8(pick_items(v, rows))
            },
            ColVec::U8N(v) => {
                assert(nullable(picked(v@, rows@), u8_int()) =~= picked(
                    nullable(v@, u8_int()),
                    rows@,
                ));
                ColVec::U8N(pick_items(v, rows))
            },
            ColVec::I8(v) => {
                assert(plain(picked(v@, rows@), i8_int()) =~= picked(plain(v@, i8_int()), rows@));
                ColVec::I8(pick_items(v, rows))
            },
            ColVec::I8N(v) => {
                assert(nullable(picked(v@, rows@), i8_int()) =~= picked(
                    nullable(v@, i8_int()),
                    rows@,
                ));
                ColVec::I8N(pick_items(v, rows))
            },
            ColVec::U16(v) => {
                assert(plain(picked(v@, rows@), u16_int()) =~= picked(plain(v@, u16_int()), rows@));
                ColVec::U16(pick_items(v, rows))
            },
            ColVec::U16N(v) => {
                assert(nullable(picked(v@, rows@), u16_int()) =~= picked(
                    nullable(v@, u16_int()),
                    rows@,
                ));
                ColVec::U16N(pick_items(v, rows))
            },
            ColVec::I16(v) => {
                assert(plain(picked(v@, rows@), i16_int()) =~= picked(plain(v@, i16_int()), rows@));
                ColVec::I16(pick_items(v, rows))
            },
            ColVec::I16N(v) => {
                assert(nullable(picked(v@, rows@), i16_int()) =~= picked(
                    nullable(v@, i16_int()),
                    rows@,
                ));
                ColVec::I16N(pick_items(v, rows))
            },
            ColVec::U32(v) => {
                assert(plain(picked(v@, rows@), u32_int()) =~= picked(plain(v@, u32_int()), rows@));
                ColVec::U32(pick_items(v, rows))
            },
            ColVec::U32N(v) => {
                assert(nullable(picked(v@, rows@), u32_int()) =~= picked(
                    nullable(v@, u32_int()),
                    rows@,
                ));
                ColVec::U32N(pick_items(v, rows))
            },
            ColVec::I32(v) => {
                assert(plain(picked(v@, rows@), i32_int()) =~= picked(plain(v@, i32_int()), rows@));
                ColVec::I32(pick_items(v, rows))
            },
            ColVec::I32N(v) => {
                assert(nullable(picked(v@, rows@), i32_int()) =~= picked(
                    nullable(v@, i32_int()),
                    rows@,
                ));
                ColVec::I32N(pick_items(v, rows))
            },
            ColVec::U64(v) => {
                assert(plain(picked(v@, rows@), u64_int()) =~= picked(plain(v@, u64_int()), rows@));
                ColVec::U64(pick_items(v, rows))
            },
            ColVec::U64N(v) => {
                assert(nullable(picked(v@, rows@), u64_int()) =~= picked(
                    nullable(v@, u64_int()),
                    rows@,
                ));
                ColVec::U64N(pick_items(v, rows))
            },
            ColVec::I64(v) => {
                assert(plain(picked(v@, rows@), i64_int()) =~= picked(plain(v@, i64_int()), rows@));
                ColVec::I64(pick_items(v, rows))
            },
            ColVec::I64N(v) => {
                assert(nullable(picked(v@, rows@), i64_int()) =~= picked(
                    nullable(v@, i64_int()),
                    rows@,
                ));
                ColVec::I64N(pick_items(v, rows))
            },
            ColVec::F32(v) => {
                assert(plain(picked(v@, rows@), u32_int()) =~= picked(plain(v@, u32_int()), rows@));
                ColVec::F32(pick_items(v, rows))
            },
            ColVec::F32N(v) => {
                assert(nullable(picked(v@, rows@), u32_int()) =~= picked(
                    nullable(v@, u32_int()),
                    rows@,
                ));
                ColVec::F32N(pick_items(v, rows))
            },
            ColVec::F64(v) => {
                assert(plain(picked(v@, rows@), u64_int()) =~= picked(plain(v@, u64_int()), rows@));
                ColVec::F64(pick_items(v, rows))
            },
            ColVec::F64N(v) => {
                assert(nullable(picked(v@, rows@), u64_int()) =~= picked(
                    nullable(v@, u64_int()),
                    rows@,
                ));
                ColVec::F64N(pick_items(v, rows))
            },
            ColVec::Date(v) => {
                assert(plain(picked(v@, rows@), i64_int()) =~= picked(plain(v@, i64_int()), rows@));
                ColVec::Date(pick_items(v, rows))
            },
            ColVec::DateN(v) => {
                assert(nullable(picked(v@, rows@), i64_int()) =~= picked(
                    nullable(v@, i64_int()),
                    rows@,
                ));
                ColVec::DateN(pick_items(v, rows))
            },
            ColVec::DateTime(v) => {
                assert(plain(picked(v@, rows@), i64_int()) =~= picked(plain(v@, i64_int()), rows@));
                ColVec::DateTime(pick_items(v, rows))
            },
            ColVec::DateTimeN(v) => {
                assert(nullable(picked(v@, rows@), i64_int()) =~= picked(
                    nullable(v@, i64_int()),
                    rows@,
                ));
                ColVec::DateTimeN(pick_items(v, rows))
            },
        }
    }
}


// ---------------------------------------------------------------------------
// Sets of columns

/// A named column, by its value.
pub type NamedColumn = (Seq<char>, ColVecView);

/// The columns of a list, each by its value.
pub open spec fn named_columns(columns: Seq<(String, ColVec)>) -> Seq<NamedColumn> {
    Seq::new(columns.len(), |i: int| (columns[i].0@, columns[i].1@))
}

/// Whether all columns have one length and no two of them one name.
pub open spec fn is_columnset(columns: Seq<NamedColumn>) -> bool {
    &&& forall|i: int, j: int|
        0 <= i < columns.len() && 0 <= j < columns.len() ==> (#[trigger] columns[i]).1.values.len() == (
        #[trigger] columns[j]).1.values.len()
    &&& forall|i: int, j: int|
        0 <= i < j < columns.len() ==> (#[trigger] columns[i]).0 != (#[trigger] columns[j]).0
}

/// The number of rows: the length of the columns, 0 where there is none.
pub open spec fn rows_of(columns: Seq<NamedColumn>) -> nat {
    if columns.len() == 0 {
        0
    } else {
        columns[0].1.values.len()
    }
}

/// The place of the column `name`, or -1.
pub open spec fn column_index(columns: Seq<NamedColumn>, name: Seq<char>) -> int {
    if exists|i: int| 0 <= i < columns.len() && columns[i].0 == name {
        choose|i: int|
            0 <= i < columns.len() && columns[i].0 == name && forall|j: int|
                0 <= j < i ==> columns[j].0 != name
    } else {
        -1
    }
}

/// Columns of one length under names of their own.
#[derive(Debug, PartialEq, Eq)]
pub struct ColumnSet {
    columns: Vec<(String, ColVec)>,
}

impl View for ColumnSet {
    type V = Seq<NamedColumn>;

    closed spec fn view(&self) -> Seq<NamedColumn> {
        named_columns(self.columns@)
    }
}

/// The place of the column `name` in `columns`.
pub(crate) fn find_named(columns: &Vec<(String, ColVec)>, name: &str) -> (at: Option<usize>)
    ensures
        match at {
            Some(i) => i < columns.len() && column_index(named_columns(columns@), name@) == i,
            None => column_index(named_columns(columns@), name@) == -1,
        },
{
    let ghost views = named_columns(columns@);
    let mut i: usize = 0;
    while i < columns.len()
        invariant
            i <= columns.len(),
            views == named_columns(columns@),
            forall|j: int| 0 <= j < i ==> views[j].0 != name@,
        decreases columns.len() - i,
    {
        if same_text(columns[i].0.as_str(), name) {
            assert(views[i as int].0 == name@);
            return Some(i);
        }
        i += 1;
    }
    None
}

impl ColumnSet {
    #[verifier::type_invariant]
    pub closed spec fn well_formed(&self) -> bool {
        is_columnset(named_columns(self.columns@))
    }

    /// The columns of the set.
    pub(crate) fn columns(&self) -> (columns: &Vec<(String, ColVec)>)
        ensures
            named_columns(columns@) == self@,
            is_columnset(self@),
    {
        proof {
            use_type_invariant(self);
        }
        &self.columns
    }

    /// The set of the columns of a list.
    pub(crate) fn from_columns(columns: Vec<(String, ColVec)>) -> (set: ColumnSet)
        requires
            is_columnset(named_columns(columns@)),
        ensures
            set@ == named_columns(columns@),
    {
        ColumnSet { columns }
    }

    /// A set without columns.
    pub fn new() -> (set: ColumnSet)
        ensures
            set@ == Seq::<NamedColumn>::empty(),
    {
        let set = ColumnSet { columns: Vec::new() };
        assert(set@ =~= Seq::<NamedColumn>::empty());
        set
    }

    /// The number of rows.
    pub fn len(&self) -> (n: usize)
        ensures
            n == rows_of(self@),
            is_columnset(self@),
    {
        proof {
            use_type_invariant(self);
        }
        if self.columns.len() == 0 {
            0
        } else {
            self.columns[0].1.len()
        }
    }

    pub fn is_empty(&self) -> (b: bool)
        ensures
            b == (rows_of(self@) == 0),
    {
        self.len() == 0
    }

    /// The number of columns.
    pub fn num_columns(&self) -> (n: usize)
        ensures
            n == self@.len(),
    {
        self.columns.len()
    }

    /// The column `name`.
    pub fn get(&self, name: &str) -> (column: Option<&ColVec>)
        ensures
            match column {
                Some(c) => column_index(self@, name@) >= 0 && c@ == self@[column_index(
                    self@,
                    name@,
                )].1,
                None => column_index(self@, name@) == -1,
            },
    {
        match find_named(&self.columns, name) {
            Some(i) => Some(&self.columns[i].1),
            None => None,
        }
    }

    /// The names of the columns, in their order.
    pub fn column_names(&self) -> (names: Vec<String>)
        ensures
            crate::text::texts(names@) == Seq::new(self@.len(), |i: int| self@[i].0),
    {
        let mut names: Vec<String> = Vec::new();
        let mut i: usize = 0;
        while i < self.columns.len()
            invariant
                i <= self.columns.len(),
                names.len() == i,
                forall|j: int| 0 <= j < i ==> (#[trigger] names@[j])@ == self.columns@[j].0@,
            decreases self.columns.len() - i,
        {
            names.push(self.columns[i].0.clone());
            i += 1;
        }
        assert(crate::text::texts(names@) =~= Seq::new(self@.len(), |i: int| self@[i].0));
        names
    }

    /// Adds the column `name` at the end. The column must have the length
    /// of the columns that the set holds, and a name of its own.
    pub fn add_column(self, name: &str, values: ColVec) -> (r: Result<ColumnSet, Error>)
        ensures
            match r {
                Ok(set) => {
                    &&& set@ == self@.push((name@, values@))
                    &&& column_index(self@, name@) == -1
                    &&& self@.len() > 0 ==> values@.values.len() == rows_of(self@)
                },
                Err(e) => if self@.len() > 0 && values@.values.len() != rows_of(self@) {
                    e@ == ErrorView::DifferentColumnLength(
                        name@,
                        rows_of(self@) as usize,
                        values@.values.len() as usize,
                    )
                } else {
                    column_index(self@, name@) >= 0 && e@ == ErrorView::SchemaValidationError(
                        "ColumnSet"@,
                        "column "@ + name@ + " exists"@,
                    )
                },
            },
    {
        proof {
            use_type_invariant(&self);
        }
        let rows = self.len();
        if self.columns.len() > 0 && values.len() != rows {
            return Err(Error::DifferentColumnLength(String::from_str(name), rows, values.len()));
        }
        if find_named(&self.columns, name).is_some() {
            let mut message = String::new();
            message.append("column ");
            message.append(name);
            message.append(" exists");
            return Err(Error::SchemaValidationError(String::from_str("ColumnSet"), message));
        }
        let ghost before = named_columns(self.columns@);
        let mut columns = self.columns;
        columns.push((String::from_str(name), values));
        proof {
            let after = named_columns(columns@);
            assert(after =~= before.push((name@, values@)));
            assert forall|i: int, j: int| 0 <= i < j < after.len() implies (#[trigger] after[i]).0 != (
            #[trigger] after[j]).0 by {
                if j < before.len() {
                    assert(after[i] == before[i] && after[j] == before[j]);
                } else {
                    assert(after[i] == before[i]);
                }
            }
            assert forall|i: int, j: int|
                0 <= i < after.len() && 0 <= j < after.len() implies (#[trigger] after[i]).1.values.len()
                == (#[trigger] after[j]).1.values.len() by {
                if before.len() > 0 {
                    if i < before.len() {
                        assert(after[i] == before[i]);
                        assert(before[i].1.values.len() == before[0].1.values.len());
                    }
                    if j < before.len() {
                        assert(after[j] == before[j]);
                        assert(before[j].1.values.len() == before[0].1.values.len());
                    }
                }
            }
        }
        Ok(ColumnSet { columns })
    }
}


} // verus!
