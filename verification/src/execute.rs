//! The query executor: filter, stable sort, slice and project, in that
//! order, each step specified as a function of the previous step's rows.
use vstd::prelude::*;

use crate::dataset::DataSet;
use crate::errors::QueryError;
use crate::plan::{CmpOp, Pred, PredV, Projection, ProjectionV, QueryPlan};
use crate::value::{clone_row, clone_value, spec_val_cmp, val_cmp, val_rank, Value, ValueV};

verus! {

/// The first column with this name, or -1.
pub open spec fn spec_col_index(cols: Seq<Seq<char>>, name: Seq<char>) -> int
    decreases cols.len(),
{
    if cols.len() == 0 {
        -1
    } else if cols[0] == name {
        0
    } else if spec_col_index(cols.drop_first(), name) < 0 {
        -1
    } else {
        1 + spec_col_index(cols.drop_first(), name)
    }
}

pub proof fn lemma_spec_col_index(cols: Seq<Seq<char>>, name: Seq<char>, j: int)
    requires
        0 <= j <= cols.len(),
        forall|k: int| 0 <= k < j ==> cols[k] != name,
        j < cols.len() ==> cols[j] == name,
    ensures
        j < cols.len() ==> spec_col_index(cols, name) == j,
        j == cols.len() ==> spec_col_index(cols, name) == -1,
    decreases cols.len(),
{
    if cols.len() > 0 {
        if cols[0] == name {
        } else {
            assert(forall|k: int| 0 <= k < j - 1 ==> cols.drop_first()[k] == cols[k + 1]);
            lemma_spec_col_index(cols.drop_first(), name, if j == 0 {
                0
            } else {
                j - 1
            });
        }
    }
}

/// The first column of `ds` with this name, or nothing.
pub fn col_index_of(ds: &DataSet, name: &String) -> (r: Option<usize>)
    ensures
        match r {
            Some(i) => spec_col_index(ds.spec_cols(), name@) == i && i < ds.spec_cols().len(),
            None => spec_col_index(ds.spec_cols(), name@) == -1,
        },
{
    let r = ds.col_index(name.as_str());
    proof {
        match r {
            Some(i) => {
                lemma_spec_col_index(ds.spec_cols(), name@, i as int);
            },
            None => {
                lemma_spec_col_index(ds.spec_cols(), name@, ds.spec_cols().len() as int);
            },
        }
    }
    r
}

/// A predicate value counts as true exactly when it is the boolean true.
pub open spec fn spec_truth(v: ValueV) -> bool {
    v == ValueV::Bool(true)
}

/// Cells compare only within one kind, and null compares with nothing.
pub open spec fn spec_comparable(a: ValueV, b: ValueV) -> bool {
    val_rank(a) == val_rank(b) && !(a is Null)
}

/// What one comparison yields: false on incomparable operands.
pub open spec fn spec_cmp_eval(op: CmpOp, a: ValueV, b: ValueV) -> bool {
    if !spec_comparable(a, b) {
        false
    } else {
        let c = spec_val_cmp(a, b);
        match op {
            CmpOp::Eq => c == 0,
            CmpOp::NotEq => c != 0,
            CmpOp::Lt => c < 0,
            CmpOp::LtEq => c <= 0,
            CmpOp::Gt => c > 0,
            CmpOp::GtEq => c >= 0,
        }
    }
}

/// The value a predicate node takes on one row.
pub open spec fn spec_eval(p: PredV, cols: Seq<Seq<char>>, row: Seq<ValueV>) -> ValueV
    decreases p,
{
    match p {
        PredV::Column(c) => {
            let j = spec_col_index(cols, c);
            if 0 <= j < row.len() {
                row[j]
            } else {
                ValueV::Null
            }
        },
        PredV::Literal(v) => v,
        PredV::Compare(op, l, r) => ValueV::Bool(
            spec_cmp_eval(op, spec_eval(*l, cols, row), spec_eval(*r, cols, row)),
        ),
        PredV::And(l, r) => ValueV::Bool(
            spec_truth(spec_eval(*l, cols, row)) && spec_truth(spec_eval(*r, cols, row)),
        ),
        PredV::Or(l, r) => ValueV::Bool(
            spec_truth(spec_eval(*l, cols, row)) || spec_truth(spec_eval(*r, cols, row)),
        ),
        PredV::Not(q) => ValueV::Bool(!spec_truth(spec_eval(*q, cols, row))),
    }
}

/// A row of cells, viewed mathematically.
pub open spec fn row_v(row: Seq<Value>) -> Seq<ValueV> {
    row.map_values(|v: Value| v@)
}

/// Rows of cells, viewed mathematically.
pub open spec fn rows_vv(rows: Seq<Seq<Value>>) -> Seq<Seq<ValueV>> {
    rows.map_values(|row: Seq<Value>| row_v(row))
}

/// Whether the filter keeps a row.
pub open spec fn spec_row_keep(p: PredV, cols: Seq<Seq<char>>, row: Seq<Value>) -> bool {
    spec_truth(spec_eval(p, cols, row_v(row)))
}

/// The rows that pass the filter, in their original order.
pub open spec fn spec_filter(p: PredV, cols: Seq<Seq<char>>, rows: Seq<Seq<Value>>) -> Seq<
    Seq<Value>,
>
    decreases rows.len(),
{
    if rows.len() == 0 {
        rows
    } else {
        spec_filter(p, cols, rows.drop_last()) + (if spec_row_keep(p, cols, rows.last()) {
            seq![rows.last()]
        } else {
            Seq::empty()
        })
    }
}

/// Whether every column a predicate names exists.
pub open spec fn spec_pred_cols_ok(p: PredV, cols: Seq<Seq<char>>) -> bool
    decreases p,
{
    match p {
        PredV::Column(c) => spec_col_index(cols, c) >= 0,
        PredV::Literal(_) => true,
        PredV::Compare(_, l, r) => spec_pred_cols_ok(*l, cols) && spec_pred_cols_ok(*r, cols),
        PredV::And(l, r) => spec_pred_cols_ok(*l, cols) && spec_pred_cols_ok(*r, cols),
        PredV::Or(l, r) => spec_pred_cols_ok(*l, cols) && spec_pred_cols_ok(*r, cols),
        PredV::Not(q) => spec_pred_cols_ok(*q, cols),
    }
}

/// Check that every column a predicate names exists.
fn check_pred_cols(p: &Pred, ds: &DataSet) -> (r: bool)
    ensures
        r == spec_pred_cols_ok(p@, ds.spec_cols()),
    decreases *p,
{
    match p {
        Pred::Column(c) => {
            match ds.col_index(c.as_str()) {
                Some(i) => {
                    proof {
                        lemma_spec_col_index(ds.spec_cols(), c@, i as int);
                    }
                    true
                },
                None => {
                    proof {
                        lemma_spec_col_index(ds.spec_cols(), c@, ds.spec_cols().len() as int);
                    }
                    false
                },
            }
        },
        Pred::Literal(_) => true,
        Pred::Compare(_, l, r) => check_pred_cols(l, ds) && check_pred_cols(r, ds),
        Pred::And(l, r) => check_pred_cols(l, ds) && check_pred_cols(r, ds),
        Pred::Or(l, r) => check_pred_cols(l, ds) && check_pred_cols(r, ds),
        Pred::Not(q) => check_pred_cols(q, ds),
    }
}

/// Evaluate one predicate node on one row.
fn eval_value(p: &Pred, ds: &DataSet, row: &Vec<Value>) -> (r: Value)
    requires
        row@.len() == ds.spec_cols().len(),
    ensures
        r@ == spec_eval(p@, ds.spec_cols(), row_v(row@)),
    decreases *p,
{
    match p {
        Pred::Column(c) => {
            match col_index_of(ds, c) {
                Some(j) => {
                    proof {
                        assert(row_v(row@)[j as int] == row@[j as int]@);
                    }
                    clone_value(&row[j])
                },
                None => Value::Null,
            }
        },
        Pred::Literal(v) => clone_value(v),
        Pred::Compare(op, l, r) => {
            let a = eval_value(l, ds, row);
            let b = eval_value(r, ds, row);
            let ra = rank_of(&a);
            let rb = rank_of(&b);
            let comparable = ra == rb && ra != 0;
            if !comparable {
                Value::Bool(false)
            } else {
                let c = val_cmp(&a, &b);
                let keep = match op {
                    CmpOp::Eq => c == 0,
                    CmpOp::NotEq => c != 0,
                    CmpOp::Lt => c < 0,
                    CmpOp::LtEq => c <= 0,
                    CmpOp::Gt => c > 0,
                    CmpOp::GtEq => c >= 0,
                };
                Value::Bool(keep)
            }
        },
        Pred::And(l, r) => {
            let a = truth_of(&eval_value(l, ds, row));
            let b = truth_of(&eval_value(r, ds, row));
            Value::Bool(a && b)
        },
        Pred::Or(l, r) => {
            let a = truth_of(&eval_value(l, ds, row));
            let b = truth_of(&eval_value(r, ds, row));
            Value::Bool(a || b)
        },
        Pred::Not(q) => {
            let a = truth_of(&eval_value(q, ds, row));
            Value::Bool(!a)
        },
    }
}

/// The sort rank of a cell's kind.
fn rank_of(v: &Value) -> (r: i32)
    ensures
        r as int == val_rank(v@),
{
    match v {
        Value::Null => 0,
        Value::Bool(_) => 1,
        Value::Int(_) => 2,
        Value::Dec(_) => 2,
        Value::Str(_) => 3,
    }
}

/// Whether a predicate value counts as true.
fn truth_of(v: &Value) -> (r: bool)
    ensures
        r == spec_truth(v@),
{
    match v {
        Value::Bool(b) => *b,
        _ => false,
    }
}

/// Keep the rows on which the predicate holds, in order.
fn filter_rows(p: &Pred, ds: &DataSet) -> (r: Vec<Vec<Value>>)
    requires
        ds.wf(),
    ensures
        r@.map_values(|row: Vec<Value>| row@) == spec_filter(p@, ds.spec_cols(), ds.spec_rows()),
        forall|i: int| 0 <= i < r@.len() ==> (#[trigger] r@[i])@.len() == ds.spec_cols().len(),
{
    let mut out: Vec<Vec<Value>> = Vec::new();
    let n = ds.nrows();
    let mut i: usize = 0;
    while i < n
        invariant
            i <= n,
            n == ds.spec_rows().len(),
            ds.wf(),
            out@.map_values(|row: Vec<Value>| row@) =~= spec_filter(
                p@,
                ds.spec_cols(),
                ds.spec_rows().take(i as int),
            ),
            forall|k: int| 0 <= k < out@.len() ==> (#[trigger] out@[k])@.len()
                == ds.spec_cols().len(),
        decreases n - i,
    {
        let row = ds.row_clone(i);
        let keep = truth_of(&eval_value(p, ds, &row));
        let ghost prev = out;
        if keep {
            out.push(row);
        }
        proof {
            assert(ds.spec_rows().take(i as int + 1).drop_last() =~= ds.spec_rows().take(
                i as int,
            ));
            assert(ds.spec_rows().take(i as int + 1).last() == ds.spec_rows()[i as int]);
            if keep {
                assert(out@.map_values(|row: Vec<Value>| row@) =~= prev@.map_values(
                    |row: Vec<Value>| row@,
                ).push(ds.spec_rows()[i as int]));
            }
            assert(out@.map_values(|row: Vec<Value>| row@) =~= spec_filter(
                p@,
                ds.spec_cols(),
                ds.spec_rows().take(i as int + 1),
            ));
        }
        i = i + 1;
    }
    proof {
        assert(ds.spec_rows().take(ds.spec_rows().len() as int) =~= ds.spec_rows());
    }
    out
}

/// Three-way comparison of two rows over the sort keys, leftmost key first;
/// a descending key reverses that key's comparison.
pub open spec fn spec_row_cmp(
    keys: Seq<(Seq<char>, bool)>,
    cols: Seq<Seq<char>>,
    a: Seq<Value>,
    b: Seq<Value>,
) -> int
    decreases keys.len(),
{
    if keys.len() == 0 {
        0
    } else {
        let j = spec_col_index(cols, keys[0].0);
        let av = if 0 <= j < a.len() {
            a[j]@
        } else {
            ValueV::Null
        };
        let bv = if 0 <= j < b.len() {
            b[j]@
        } else {
            ValueV::Null
        };
        let c0 = spec_val_cmp(av, bv);
        let c = if keys[0].1 {
            -c0
        } else {
            c0
        };
        if c != 0 {
            c
        } else {
            spec_row_cmp(keys.drop_first(), cols, a, b)
        }
    }
}

/// Strict order on row positions: by the keys, ties by original position.
/// This is the total order a stable sort realizes.
pub open spec fn spec_idx_lt(
    keys: Seq<(Seq<char>, bool)>,
    cols: Seq<Seq<char>>,
    rows: Seq<Seq<Value>>,
    i1: usize,
    i2: usize,
) -> bool {
    let c = spec_row_cmp(keys, cols, rows[i1 as int], rows[i2 as int]);
    c < 0 || (c == 0 && i1 < i2)
}

/// Insert a position into a run of positions, before exactly the suffix of
/// positions strictly above it.
pub open spec fn spec_insert_idx(
    keys: Seq<(Seq<char>, bool)>,
    cols: Seq<Seq<char>>,
    rows: Seq<Seq<Value>>,
    sorted: Seq<usize>,
    x: usize,
) -> Seq<usize>
    decreases sorted.len(),
{
    if sorted.len() == 0 {
        seq![x]
    } else if spec_idx_lt(keys, cols, rows, sorted.last(), x) {
        sorted.push(x)
    } else {
        spec_insert_idx(keys, cols, rows, sorted.drop_last(), x).push(sorted.last())
    }
}

/// The permutation a stable insertion sort of the first `n` rows leaves.
pub open spec fn spec_sort_idx(
    keys: Seq<(Seq<char>, bool)>,
    cols: Seq<Seq<char>>,
    rows: Seq<Seq<Value>>,
    n: int,
) -> Seq<usize>
    decreases n,
{
    if n <= 0 {
        Seq::empty()
    } else {
        spec_insert_idx(
            keys,
            cols,
            rows,
            spec_sort_idx(keys, cols, rows, n - 1),
            (n - 1) as usize,
        )
    }
}

/// The rows in sorted order.
pub open spec fn spec_sorted_rows(
    keys: Seq<(Seq<char>, bool)>,
    cols: Seq<Seq<char>>,
    rows: Seq<Seq<Value>>,
) -> Seq<Seq<Value>> {
    let perm = spec_sort_idx(keys, cols, rows, rows.len() as int);
    Seq::new(perm.len(), |k: int| rows[perm[k] as int])
}

/// Compare two rows over the sort keys.
fn cmp_rows(keys: &Vec<crate::plan::SortKey>, ds: &DataSet, a: &Vec<Value>, b: &Vec<Value>) -> (r:
    i32)
    ensures
        r as int == spec_row_cmp(keys.deep_view(), ds.spec_cols(), a@, b@),
{
    let ghost kv = keys.deep_view();
    let mut t: usize = 0;
    proof {
        assert(kv.skip(0) =~= kv);
        assert(kv.len() == keys@.len());
    }
    loop
        invariant
            t <= keys@.len(),
            kv == keys.deep_view(),
            kv.len() == keys@.len(),
            spec_row_cmp(kv, ds.spec_cols(), a@, b@) == spec_row_cmp(
                kv.skip(t as int),
                ds.spec_cols(),
                a@,
                b@,
            ),
        decreases keys@.len() - t,
    {
        if t >= keys.len() {
            proof {
                assert(kv.skip(t as int).len() == 0);
            }
            return 0;
        }
        let key = &keys[t];
        proof {
            assert(kv.skip(t as int)[0] == kv[t as int]);
            assert(kv[t as int] == keys@[t as int].deep_view());
        }
        let j = col_index_of(ds, &key.column);
        let av: Value = match j {
            Some(jj) => {
                if jj < a.len() {
                    clone_value(&a[jj])
                } else {
                    Value::Null
                }
            },
            None => Value::Null,
        };
        let bv: Value = match j {
            Some(jj) => {
                if jj < b.len() {
                    clone_value(&b[jj])
                } else {
                    Value::Null
                }
            },
            None => Value::Null,
        };
        let c0 = val_cmp(&av, &bv);
        let c = if key.descending {
            -c0
        } else {
            c0
        };
        if c != 0 {
            return c;
        }
        proof {
            assert(kv.skip(t as int).drop_first() =~= kv.skip(t as int + 1));
        }
        t = t + 1;
    }
}

proof fn lemma_insert_idx_at(
    keys: Seq<(Seq<char>, bool)>,
    cols: Seq<Seq<char>>,
    rows: Seq<Seq<Value>>,
    s: Seq<usize>,
    x: usize,
    k: int,
)
    requires
        0 <= k <= s.len(),
        forall|j: int| k <= j < s.len() ==> !spec_idx_lt(keys, cols, rows, s[j], x),
        k > 0 ==> spec_idx_lt(keys, cols, rows, s[k - 1], x),
    ensures
        spec_insert_idx(keys, cols, rows, s, x) =~= s.subrange(0, k) + seq![x] + s.subrange(
            k,
            s.len() as int,
        ),
    decreases s.len(),
{
    if k == s.len() {
        if k > 0 {
            assert(spec_idx_lt(keys, cols, rows, s.last(), x));
        }
    } else {
        assert(!spec_idx_lt(keys, cols, rows, s.last(), x));
        lemma_insert_idx_at(keys, cols, rows, s.drop_last(), x, k);
    }
}

/// The stable sort permutation of the rows, computed by insertion.
fn sort_perm(keys: &Vec<crate::plan::SortKey>, ds: &DataSet, rows: &Vec<Vec<Value>>) -> (perm:
    Vec<usize>)
    ensures
        perm@ == spec_sort_idx(
            keys.deep_view(),
            ds.spec_cols(),
            rows@.map_values(|row: Vec<Value>| row@),
            rows@.len() as int,
        ),
        forall|k: int| 0 <= k < perm@.len() ==> (#[trigger] perm@[k]) < rows@.len(),
        perm@.len() == rows@.len(),
{
    let ghost kv = keys.deep_view();
    let ghost cols = ds.spec_cols();
    let ghost rseq = rows@.map_values(|row: Vec<Value>| row@);
    let mut perm: Vec<usize> = Vec::new();
    let mut x: usize = 0;
    while x < rows.len()
        invariant
            x <= rows@.len(),
            kv == keys.deep_view(),
            cols == ds.spec_cols(),
            rseq == rows@.map_values(|row: Vec<Value>| row@),
            perm@ == spec_sort_idx(kv, cols, rseq, x as int),
            perm@.len() == x,
            forall|k: int| 0 <= k < perm@.len() ==> (#[trigger] perm@[k]) < x,
        decreases rows@.len() - x,
    {
        let mut k: usize = perm.len();
        let mut done = false;
        while !done && k > 0
            invariant
                k <= perm@.len(),
                x < rows@.len(),
                kv == keys.deep_view(),
                cols == ds.spec_cols(),
                rseq == rows@.map_values(|row: Vec<Value>| row@),
                perm@.len() < rows@.len(),
                forall|kk: int| 0 <= kk < perm@.len() ==> (#[trigger] perm@[kk]) < rows@.len(),
                forall|j: int| k <= j < perm@.len() ==> !spec_idx_lt(kv, cols, rseq, perm@[j], x),
                done ==> k > 0 && spec_idx_lt(kv, cols, rseq, perm@[k - 1], x),
            decreases k + (if done {
                0int
            } else {
                1int
            }),
        {
            let prev_idx = perm[k - 1];
            let c = cmp_rows(keys, ds, &rows[prev_idx], &rows[x]);
            let lt = c < 0 || (c == 0 && prev_idx < x);
            proof {
                assert(rseq[perm@[k - 1] as int] == rows@[perm@[k - 1] as int]@);
                assert(rseq[x as int] == rows@[x as int]@);
            }
            if lt {
                done = true;
            } else {
                k = k - 1;
            }
        }
        proof {
            if k > 0 {
                assert(spec_idx_lt(kv, cols, rseq, perm@[k - 1], x));
            }
            lemma_insert_idx_at(kv, cols, rseq, perm@, x, k as int);
        }
        let ghost prev = perm@;
        perm.insert(k, x);
        proof {
            assert(perm@ =~= prev.subrange(0, k as int) + seq![x] + prev.subrange(
                k as int,
                prev.len() as int,
            ));
            assert(perm@ =~= spec_insert_idx(kv, cols, rseq, prev, x));
        }
        x = x + 1;
    }
    perm
}

/// The sorted rows in full: every key applied leftmost first, ties left in
/// their original order.
fn sort_rows(keys: &Vec<crate::plan::SortKey>, ds: &DataSet, rows: Vec<Vec<Value>>) -> (r: Vec<
    Vec<Value>,
>)
    ensures
        r@.map_values(|row: Vec<Value>| row@) == spec_sorted_rows(
            keys.deep_view(),
            ds.spec_cols(),
            rows@.map_values(|row: Vec<Value>| row@),
        ),
        forall|i: int| 0 <= i < r@.len() ==> exists|j: int|
            0 <= j < rows@.len() && (#[trigger] r@[i])@ == rows@[j]@,
{
    let ghost rseq = rows@.map_values(|row: Vec<Value>| row@);
    let perm = sort_perm(keys, ds, &rows);
    let mut out: Vec<Vec<Value>> = Vec::new();
    let mut k: usize = 0;
    while k < perm.len()
        invariant
            k <= perm@.len(),
            rseq == rows@.map_values(|row: Vec<Value>| row@),
            perm@.len() == rows@.len(),
            forall|t: int| 0 <= t < perm@.len() ==> (#[trigger] perm@[t]) < rows@.len(),
            out@.map_values(|row: Vec<Value>| row@) =~= Seq::new(
                k as nat,
                |t: int| rseq[perm@[t] as int],
            ),
            forall|i: int| 0 <= i < out@.len() ==> exists|j: int|
                0 <= j < rows@.len() && (#[trigger] out@[i])@ == rows@[j]@,
        decreases perm@.len() - k,
    {
        let idx = perm[k];
        let row = clone_row(&rows[idx]);
        let ghost prevout = out@;
        out.push(row);
        proof {
            assert(rseq[idx as int] == rows@[idx as int]@);
            let m = out@.map_values(|row: Vec<Value>| row@);
            let pm = prevout.map_values(|row: Vec<Value>| row@);
            assert(pm.len() == prevout.len());
            assert(prevout.len() == k);
            assert(out@.len() == k + 1);
            assert(m.len() == out@.len());
            assert forall|t: int| 0 <= t < k + 1 implies m[t] == rseq[perm@[t] as int] by {
                assert(m[t] == out@[t]@);
                if t < k {
                    assert(out@[t] == prevout[t]);
                    assert(pm[t] == prevout[t]@);
                    assert(pm[t] == rseq[perm@[t] as int]);
                } else {
                    assert(out@[t]@ == rows@[idx as int]@);
                }
            }
            assert(m =~= Seq::new(k as nat + 1, |t: int| rseq[perm@[t] as int]));
        }
        k = k + 1;
    }
    proof {
        assert(out@.map_values(|row: Vec<Value>| row@) =~= spec_sorted_rows(
            keys.deep_view(),
            ds.spec_cols(),
            rseq,
        ));
    }
    out
}

/// The rows left after the offset is skipped and the limit applied.
pub open spec fn spec_slice(rows: Seq<Seq<Value>>, offset: Option<u64>, limit: Option<u64>) -> Seq<
    Seq<Value>,
> {
    let o: int = match offset {
        Some(v) => v as int,
        None => 0,
    };
    let start: int = if o > rows.len() {
        rows.len() as int
    } else {
        o
    };
    let rest = rows.skip(start);
    match limit {
        Some(l) => if (l as int) < rest.len() {
            rest.take(l as int)
        } else {
            rest
        },
        None => rest,
    }
}

/// Skip the offset, keep at most the limit.
fn slice_rows(rows: Vec<Vec<Value>>, offset: &Option<u64>, limit: &Option<u64>) -> (r: Vec<
    Vec<Value>,
>)
    ensures
        r@.map_values(|row: Vec<Value>| row@) == spec_slice(
            rows@.map_values(|row: Vec<Value>| row@),
            *offset,
            *limit,
        ),
{
    let ghost rseq = rows@.map_values(|row: Vec<Value>| row@);
    let n = rows.len();
    let start: usize = match offset {
        Some(v) => {
            if *v > n as u64 {
                n
            } else {
                *v as usize
            }
        },
        None => 0,
    };
    let end: usize = match limit {
        Some(l) => {
            if *l < (n - start) as u64 {
                start + (*l as usize)
            } else {
                n
            }
        },
        None => n,
    };
    let mut out: Vec<Vec<Value>> = Vec::new();
    let mut i: usize = start;
    while i < end
        invariant
            start <= i <= end,
            end <= rows@.len(),
            rseq == rows@.map_values(|row: Vec<Value>| row@),
            out@.map_values(|row: Vec<Value>| row@) =~= rseq.subrange(start as int, i as int),
        decreases end - i,
    {
        let row = clone_row(&rows[i]);
        let ghost prevout = out@;
        out.push(row);
        proof {
            let m = out@.map_values(|row: Vec<Value>| row@);
            let pm = prevout.map_values(|row: Vec<Value>| row@);
            assert(pm.len() == prevout.len());
            assert(out@.len() == prevout.len() + 1);
            assert(m.len() == out@.len());
            assert(rseq[i as int] == rows@[i as int]@);
            assert forall|t: int| 0 <= t < m.len() implies m[t] == rseq.subrange(
                start as int,
                i as int + 1,
            )[t] by {
                assert(m[t] == out@[t]@);
                if t < prevout.len() {
                    assert(out@[t] == prevout[t]);
                    assert(pm[t] == prevout[t]@);
                } else {
                    assert(out@[t]@ == rows@[i as int]@);
                }
            }
            assert(m =~= rseq.subrange(start as int, i as int + 1));
        }
        i = i + 1;
    }
    proof {
        assert(out@.map_values(|row: Vec<Value>| row@) =~= spec_slice(rseq, *offset, *limit));
    }
    out
}

/// One projected row: the named cells, in projection order.
pub open spec fn spec_project_row(
    items: Seq<(Seq<char>, Seq<char>)>,
    cols: Seq<Seq<char>>,
    row: Seq<Value>,
) -> Seq<Value> {
    Seq::new(
        items.len(),
        |t: int|
            {
                let j = spec_col_index(cols, items[t].0);
                if 0 <= j < row.len() {
                    row[j]
                } else {
                    Value::Null
                }
            },
    )
}

/// The rows after projection.
pub open spec fn spec_project(
    proj: ProjectionV,
    cols: Seq<Seq<char>>,
    rows: Seq<Seq<Value>>,
) -> Seq<Seq<Value>> {
    match proj {
        ProjectionV::Wildcard => rows,
        ProjectionV::Columns(items) => rows.map_values(
            |r: Seq<Value>| spec_project_row(items, cols, r),
        ),
    }
}

/// The output header: the source header for a wildcard, else the projected
/// output names in order.
pub open spec fn spec_out_cols(proj: ProjectionV, cols: Seq<Seq<char>>) -> Seq<Seq<char>> {
    match proj {
        ProjectionV::Wildcard => cols,
        ProjectionV::Columns(items) => items.map_values(|it: (Seq<char>, Seq<char>)| it.1),
    }
}

/// Whether every source column in a projection list exists.
pub open spec fn spec_items_present(items: Seq<(Seq<char>, Seq<char>)>, cols: Seq<Seq<char>>) -> bool
    decreases items.len(),
{
    if items.len() == 0 {
        true
    } else {
        spec_col_index(cols, items.last().0) >= 0 && spec_items_present(items.drop_last(), cols)
    }
}

/// When every column of a list is present, each one's index is found.
pub proof fn lemma_items_present_at(items: Seq<(Seq<char>, Seq<char>)>, cols: Seq<Seq<char>>, t: int)
    requires
        spec_items_present(items, cols),
        0 <= t < items.len(),
    ensures
        spec_col_index(cols, items[t].0) >= 0,
    decreases items.len(),
{
    if t == items.len() - 1 {
        assert(items.last() == items[t]);
    } else {
        assert(items.drop_last()[t] == items[t]);
        lemma_items_present_at(items.drop_last(), cols, t);
    }
}

/// Whether every projected source column exists.
pub open spec fn spec_proj_cols_ok(proj: ProjectionV, cols: Seq<Seq<char>>) -> bool {
    match proj {
        ProjectionV::Wildcard => true,
        ProjectionV::Columns(items) => spec_items_present(items, cols),
    }
}

/// Whether every sort key column exists.
pub open spec fn spec_keys_cols_ok(keys: Seq<(Seq<char>, bool)>, cols: Seq<Seq<char>>) -> bool {
    forall|t: int| 0 <= t < keys.len() ==> spec_col_index(cols, (#[trigger] keys[t]).0) >= 0
}

/// Whether every column the plan references exists in the dataset.
pub open spec fn spec_plan_cols_ok(p: QueryPlan, cols: Seq<Seq<char>>) -> bool {
    &&& match p.predicate {
        Some(pd) => spec_pred_cols_ok(pd@, cols),
        None => true,
    }
    &&& spec_keys_cols_ok(p.sort.deep_view(), cols)
    &&& spec_proj_cols_ok(p.projection@, cols)
}

/// The rows the filter stage leaves.
pub open spec fn spec_filtered(p: QueryPlan, cols: Seq<Seq<char>>, rows: Seq<Seq<Value>>) -> Seq<
    Seq<Value>,
> {
    match p.predicate {
        Some(pd) => spec_filter(pd@, cols, rows),
        None => rows,
    }
}

/// The whole pipeline: filter, then stable sort, then slice, then project.
pub open spec fn spec_execute_rows(
    p: QueryPlan,
    cols: Seq<Seq<char>>,
    rows: Seq<Seq<Value>>,
) -> Seq<Seq<Value>> {
    spec_project(
        p.projection@,
        cols,
        spec_slice(
            spec_sorted_rows(p.sort.deep_view(), cols, spec_filtered(p, cols, rows)),
            p.offset,
            p.limit,
        ),
    )
}

/// Apply a plan to a decoded dataset: filter, sort, slice and project, or an
/// execution error naming the first stage that references an absent column.
#[verifier::rlimit(80)]
pub fn execute(plan: &QueryPlan, ds: &DataSet) -> (r: Result<DataSet, QueryError>)
    requires
        ds.wf(),
    ensures
        r is Ok <==> spec_plan_cols_ok(*plan, ds.spec_cols()),
        r matches Ok(out) ==> out.wf() && out.spec_cols() == spec_out_cols(
            plan.projection@,
            ds.spec_cols(),
        ) && out.spec_rows() == spec_execute_rows(*plan, ds.spec_cols(), ds.spec_rows()),
        r matches Err(e) ==> e is Execution,
{
    let ghost cols = ds.spec_cols();
    // every referenced column must exist before anything runs
    match &plan.predicate {
        Some(pd) => {
            if !check_pred_cols(pd, ds) {
                return Err(
                    QueryError::Execution("filter references an unknown column".to_owned()),
                );
            }
        },
        None => {},
    }
    let mut t: usize = 0;
    while t < plan.sort.len()
        invariant
            t <= plan.sort@.len(),
            cols == ds.spec_cols(),
            forall|k: int|
                0 <= k < t ==> spec_col_index(cols, (#[trigger] plan.sort.deep_view()[k]).0) >= 0,
        decreases plan.sort@.len() - t,
    {
        let key = &plan.sort[t];
        match col_index_of(ds, &key.column) {
            Some(_) => {
                proof {
                    assert(plan.sort.deep_view()[t as int].0 == plan.sort@[t as int].column@);
                }
            },
            None => {
                proof {
                    assert(plan.sort.deep_view()[t as int].0 == plan.sort@[t as int].column@);
                    assert(!spec_keys_cols_ok(plan.sort.deep_view(), cols));
                }
                return Err(QueryError::Execution("sort references an unknown column".to_owned()));
            },
        }
        t = t + 1;
    }
    // filter
    let filtered: Vec<Vec<Value>> = match &plan.predicate {
        Some(pd) => filter_rows(pd, ds),
        None => {
            let mut all: Vec<Vec<Value>> = Vec::new();
            let n = ds.nrows();
            let mut i: usize = 0;
            while i < n
                invariant
                    i <= n,
                    n == ds.spec_rows().len(),
                    ds.wf(),
                    cols == ds.spec_cols(),
                    all@.map_values(|row: Vec<Value>| row@) =~= ds.spec_rows().take(i as int),
                    forall|k: int| 0 <= k < all@.len() ==> (#[trigger] all@[k])@.len()
                        == cols.len(),
                decreases n - i,
            {
                let row = ds.row_clone(i);
                let ghost prev = all@;
                all.push(row);
                proof {
                    let m = all@.map_values(|row: Vec<Value>| row@);
                    let pm = prev.map_values(|row: Vec<Value>| row@);
                    assert(pm.len() == prev.len());
                    assert(all@.len() == prev.len() + 1);
                    assert(m.len() == all@.len());
                    assert forall|k: int| 0 <= k < m.len() implies m[k] == ds.spec_rows().take(
                        i as int + 1,
                    )[k] by {
                        assert(m[k] == all@[k]@);
                        if k < prev.len() {
                            assert(all@[k] == prev[k]);
                            assert(pm[k] == prev[k]@);
                        } else {
                            assert(all@[k]@ == ds.spec_rows()[i as int]);
                        }
                    }
                    assert(m =~= ds.spec_rows().take(i as int + 1));
                    assert(all@[all@.len() - 1]@ == ds.spec_rows()[i as int]);
                }
                i = i + 1;
            }
            proof {
                assert(ds.spec_rows().take(ds.spec_rows().len() as int) =~= ds.spec_rows());
            }
            all
        },
    };
    let ghost frows = filtered@.map_values(|row: Vec<Value>| row@);
    proof {
        assert(frows == spec_filtered(*plan, cols, ds.spec_rows()));
        assert(forall|i: int| 0 <= i < frows.len() ==> (#[trigger] frows[i]).len() == cols.len());
    }
    // sort
    let sorted = sort_rows(&plan.sort, ds, filtered);
    let ghost srows = sorted@.map_values(|row: Vec<Value>| row@);
    proof {
        assert forall|i: int| 0 <= i < srows.len() implies (#[trigger] srows[i]).len()
            == cols.len() by {
            assert(srows[i] == sorted@[i]@);
        }
    }
    // slice
    let sliced = slice_rows(sorted, &plan.offset, &plan.limit);
    let ghost slrows = sliced@.map_values(|row: Vec<Value>| row@);
    proof {
        assert forall|i: int| 0 <= i < slrows.len() implies (#[trigger] slrows[i]).len()
            == cols.len() by {
            assert(slrows[i] == sliced@[i]@);
            let o: int = match plan.offset {
                Some(v) => v as int,
                None => 0,
            };
            let start: int = if o > srows.len() {
                srows.len() as int
            } else {
                o
            };
            assert(slrows[i] == srows.skip(start)[i]);
            assert(srows.skip(start)[i] == srows[start + i]);
        }
    }
    // project
    let out_cols: Vec<String>;
    let out_rows: Vec<Vec<Value>>;
    match &plan.projection {
        Projection::Wildcard => {
            out_cols = ds.columns_clone();
            out_rows = sliced;
        },
        Projection::Columns(items) => {
            let ghost itemsv0 = items.deep_view();
            proof {
                assert(itemsv0.len() == items@.len());
            }
            let mut ridx: Vec<usize> = Vec::new();
            let mut t: usize = 0;
            while t < items.len()
                invariant
                    t <= items@.len(),
                    cols == ds.spec_cols(),
                    itemsv0 == items.deep_view(),
                    itemsv0.len() == items@.len(),
                    plan.projection@ == ProjectionV::Columns(itemsv0),
                    spec_items_present(itemsv0.take(t as int), cols),
                    ridx@.len() == t,
                    forall|k: int|
                        0 <= k < t ==> #[trigger] ridx@[k] == spec_col_index(cols, itemsv0[k].0)
                            && ridx@[k] < cols.len(),
                decreases items@.len() - t,
            {
                let it = &items[t];
                match col_index_of(ds, &it.column) {
                    Some(j) => {
                        ridx.push(j);
                        proof {
                            assert(itemsv0[t as int].0 == items@[t as int].column@);
                            assert(itemsv0.take(t as int + 1).drop_last() =~= itemsv0.take(
                                t as int,
                            ));
                            assert(itemsv0.take(t as int + 1).last() == itemsv0[t as int]);
                        }
                    },
                    None => {
                        proof {
                            assert(itemsv0[t as int].0 == items@[t as int].column@);
                            assert(spec_col_index(cols, itemsv0[t as int].0) == -1);
                            if spec_items_present(itemsv0, cols) {
                                lemma_items_present_at(itemsv0, cols, t as int);
                            }
                            assert(!spec_proj_cols_ok(plan.projection@, cols));
                        }
                        return Err(
                            QueryError::Execution(
                                "projection references an unknown column".to_owned(),
                            ),
                        );
                    },
                }
                t = t + 1;
            }
            proof {
                assert(itemsv0.take(itemsv0.len() as int) =~= itemsv0);
                assert(spec_proj_cols_ok(plan.projection@, cols));
            }
            let mut names: Vec<String> = Vec::new();
            let mut t: usize = 0;
            while t < items.len()
                invariant
                    t <= items@.len(),
                    names.deep_view().len() == t,
                    forall|k: int| 0 <= k < t ==> names.deep_view()[k] == (
                    #[trigger] items.deep_view()[k]).1,
                decreases items@.len() - t,
            {
                let ghost prev = names;
                names.push(items[t].output.clone());
                proof {
                    assert(prev.deep_view().len() == prev@.len());
                    assert(names.deep_view().len() == names@.len());
                    assert(forall|k: int|
                        0 <= k < t ==> names.deep_view()[k] == prev.deep_view()[k]);
                    assert(names.deep_view()[t as int] == items@[t as int].output@);
                    assert(items.deep_view()[t as int].1 == items@[t as int].output@);
                }
                t = t + 1;
            }
            let mut rows2: Vec<Vec<Value>> = Vec::new();
            let mut i: usize = 0;
            let ghost itemsv = itemsv0;
            proof {
                assert(itemsv == items.deep_view());
                assert(ridx@.len() == itemsv.len());
                assert(forall|k: int|
                    0 <= k < ridx@.len() ==> #[trigger] ridx@[k] == spec_col_index(
                        cols,
                        itemsv[k].0,
                    ) && ridx@[k] < cols.len());
            }
            while i < sliced.len()
                invariant
                    i <= sliced@.len(),
                    cols == ds.spec_cols(),
                    itemsv == items.deep_view(),
                    ridx@.len() == itemsv.len(),
                    forall|k: int|
                        0 <= k < ridx@.len() ==> #[trigger] ridx@[k] == spec_col_index(
                            cols,
                            itemsv[k].0,
                        ) && ridx@[k] < cols.len(),
                    slrows == sliced@.map_values(|row: Vec<Value>| row@),
                    forall|k: int| 0 <= k < slrows.len() ==> (#[trigger] slrows[k]).len()
                        == cols.len(),
                    rows2@.map_values(|row: Vec<Value>| row@) =~= slrows.take(i as int).map_values(
                        |r: Seq<Value>| spec_project_row(itemsv, cols, r),
                    ),
                    forall|k: int| 0 <= k < rows2@.len() ==> (#[trigger] rows2@[k])@.len()
                        == itemsv.len(),
                decreases sliced@.len() - i,
            {
                let src = &sliced[i];
                let mut row: Vec<Value> = Vec::new();
                let mut t: usize = 0;
                proof {
                    assert(slrows[i as int] == sliced@[i as int]@);
                    assert(forall|k: int|
                        0 <= k < ridx@.len() ==> #[trigger] ridx@[k] == spec_col_index(
                            cols,
                            itemsv[k].0,
                        ) && ridx@[k] < cols.len());
                    assert(src@.len() == cols.len());
                }
                while t < ridx.len()
                    invariant
                        t <= ridx@.len(),
                        cols == ds.spec_cols(),
                        itemsv == items.deep_view(),
                        ridx@.len() == itemsv.len(),
                        forall|k: int|
                            0 <= k < ridx@.len() ==> #[trigger] ridx@[k] == spec_col_index(
                                cols,
                                itemsv[k].0,
                            ) && ridx@[k] < cols.len(),
                        src@.len() == cols.len(),
                        i < slrows.len(),
                        src@ == slrows[i as int],
                        row@.len() == t,
                        forall|k: int| 0 <= k < t ==> row@[k] == spec_project_row(
                            itemsv,
                            cols,
                            src@,
                        )[k],
                    decreases ridx@.len() - t,
                {
                    let j = ridx[t];
                    row.push(clone_value(&src[j]));
                    t = t + 1;
                }
                proof {
                    assert(row@ =~= spec_project_row(itemsv, cols, src@));
                }
                let ghost prev = rows2@;
                rows2.push(row);
                proof {
                    let m = rows2@.map_values(|row: Vec<Value>| row@);
                    let pm = prev.map_values(|row: Vec<Value>| row@);
                    assert(pm.len() == prev.len());
                    assert(rows2@.len() == prev.len() + 1);
                    assert(m.len() == rows2@.len());
                    let target = slrows.take(i as int + 1).map_values(
                        |r: Seq<Value>| spec_project_row(itemsv, cols, r),
                    );
                    assert forall|k: int| 0 <= k < m.len() implies m[k] == target[k] by {
                        assert(m[k] == rows2@[k]@);
                        assert(target[k] == spec_project_row(
                            itemsv,
                            cols,
                            slrows.take(i as int + 1)[k],
                        ));
                        if k < prev.len() {
                            assert(rows2@[k] == prev[k]);
                            assert(pm[k] == prev[k]@);
                        } else {
                            assert(rows2@[k]@ == spec_project_row(itemsv, cols, src@));
                        }
                    }
                    assert(m =~= target);
                }
                i = i + 1;
            }
            proof {
                assert(slrows.take(slrows.len() as int) =~= slrows);
            }
            out_cols = names;
            out_rows = rows2;
        },
    }
    // assemble
    let ghost final_rows = out_rows@.map_values(|row: Vec<Value>| row@);
    proof {
        assert(out_cols.deep_view() =~= spec_out_cols(plan.projection@, cols));
        assert(final_rows =~= spec_execute_rows(*plan, cols, ds.spec_rows()));
        assert forall|i: int| 0 <= i < out_rows@.len() implies (#[trigger] out_rows@[i])@.len()
            == out_cols@.len() by {
            assert(final_rows[i] == out_rows@[i]@);
            assert(out_cols.deep_view().len() == out_cols@.len());
        }
    }
    match DataSet::new(out_cols, out_rows) {
        Ok(d) => Ok(d),
        Err(()) => {
            proof {
                assert(false);
            }
            Err(QueryError::Execution("internal shape mismatch".to_owned()))
        },
    }
}

} // verus!
