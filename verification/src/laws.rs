//! General properties of the library, each proved from the contracts the
//! functions themselves state.
use vstd::prelude::*;

use crate::dataset::{
    cell_csv, cell_json, csv_lines_upto, row_csv_upto, row_json_upto, rows_json_upto, spec_csv,
    spec_json,
};
use crate::execute::{
    row_v, rows_vv, spec_col_index, spec_execute_rows, spec_filter, spec_filtered, spec_idx_lt,
    spec_insert_idx, spec_out_cols, spec_row_cmp, spec_sort_idx, spec_sorted_rows, spec_slice,
};
use crate::fetcher::{spec_sfind, Fetch};
use crate::plan::{ProjectionV, QueryPlan};
use crate::value::{spec_chars_lt, spec_val_cmp, val_rank, Value, ValueV};

verus! {

proof fn lemma_insert_idx_len(
    keys: Seq<(Seq<char>, bool)>,
    cols: Seq<Seq<char>>,
    rows: Seq<Seq<Value>>,
    s: Seq<usize>,
    x: usize,
)
    ensures
        spec_insert_idx(keys, cols, rows, s, x).len() == s.len() + 1,
    decreases s.len(),
{
    if s.len() > 0 && !spec_idx_lt(keys, cols, rows, s.last(), x) {
        lemma_insert_idx_len(keys, cols, rows, s.drop_last(), x);
    }
}

/// A sort permutation has one entry per row.
pub proof fn lemma_sort_idx_len(
    keys: Seq<(Seq<char>, bool)>,
    cols: Seq<Seq<char>>,
    rows: Seq<Seq<Value>>,
    n: int,
)
    requires
        n >= 0,
    ensures
        spec_sort_idx(keys, cols, rows, n).len() == n,
    decreases n,
{
    if n > 0 {
        lemma_sort_idx_len(keys, cols, rows, n - 1);
        lemma_insert_idx_len(
            keys,
            cols,
            rows,
            spec_sort_idx(keys, cols, rows, n - 1),
            (n - 1) as usize,
        );
    }
}

proof fn lemma_insert_idx_elems(
    keys: Seq<(Seq<char>, bool)>,
    cols: Seq<Seq<char>>,
    rows: Seq<Seq<Value>>,
    s: Seq<usize>,
    x: usize,
    bound: int,
)
    requires
        forall|k: int| 0 <= k < s.len() ==> (#[trigger] s[k]) < bound,
        x < bound,
    ensures
        forall|k: int|
            0 <= k < spec_insert_idx(keys, cols, rows, s, x).len() ==> (#[trigger] spec_insert_idx(
                keys,
                cols,
                rows,
                s,
                x,
            )[k]) < bound,
    decreases s.len(),
{
    let r = spec_insert_idx(keys, cols, rows, s, x);
    if s.len() == 0 {
        assert forall|k: int| 0 <= k < r.len() implies (#[trigger] r[k]) < bound by {
            assert(r[k] == x);
        }
    } else if spec_idx_lt(keys, cols, rows, s.last(), x) {
        assert forall|k: int| 0 <= k < r.len() implies (#[trigger] r[k]) < bound by {
            if k < s.len() {
                assert(r[k] == s[k]);
            } else {
                assert(r[k] == x);
            }
        }
    } else {
        assert(forall|k: int| 0 <= k < s.len() - 1 ==> s.drop_last()[k] == s[k]);
        lemma_insert_idx_elems(keys, cols, rows, s.drop_last(), x, bound);
        let rr = spec_insert_idx(keys, cols, rows, s.drop_last(), x);
        assert forall|k: int| 0 <= k < r.len() implies (#[trigger] r[k]) < bound by {
            if k < rr.len() {
                assert(r[k] == rr[k]);
            } else {
                assert(r[k] == s.last());
                assert(s[s.len() - 1] < bound);
            }
        }
    }
}

/// Every entry of a sort permutation names a row.
pub proof fn lemma_sort_idx_elems(
    keys: Seq<(Seq<char>, bool)>,
    cols: Seq<Seq<char>>,
    rows: Seq<Seq<Value>>,
    n: int,
)
    requires
        0 <= n,
    ensures
        forall|k: int|
            0 <= k < spec_sort_idx(keys, cols, rows, n).len() ==> (#[trigger] spec_sort_idx(
                keys,
                cols,
                rows,
                n,
            )[k]) < n,
    decreases n,
{
    if n > 0 {
        lemma_sort_idx_elems(keys, cols, rows, n - 1);
        assert(forall|k: int|
            0 <= k < spec_sort_idx(keys, cols, rows, n - 1).len() ==> (#[trigger] spec_sort_idx(
                keys,
                cols,
                rows,
                n - 1,
            )[k]) < n);
        lemma_insert_idx_elems(
            keys,
            cols,
            rows,
            spec_sort_idx(keys, cols, rows, n - 1),
            (n - 1) as usize,
            n,
        );
    }
}

proof fn lemma_filter_widths(
    p: crate::plan::PredV,
    cols: Seq<Seq<char>>,
    rows: Seq<Seq<Value>>,
    w: int,
)
    requires
        forall|i: int| 0 <= i < rows.len() ==> (#[trigger] rows[i]).len() == w,
    ensures
        forall|i: int|
            0 <= i < spec_filter(p, cols, rows).len() ==> (#[trigger] spec_filter(
                p,
                cols,
                rows,
            )[i]).len() == w,
    decreases rows.len(),
{
    if rows.len() > 0 {
        assert(forall|i: int| 0 <= i < rows.len() - 1 ==> rows.drop_last()[i] == rows[i]);
        lemma_filter_widths(p, cols, rows.drop_last(), w);
        let f = spec_filter(p, cols, rows);
        let fd = spec_filter(p, cols, rows.drop_last());
        assert forall|i: int| 0 <= i < f.len() implies (#[trigger] f[i]).len() == w by {
            if i < fd.len() {
                assert(f[i] == fd[i]);
            } else {
                assert(f[i] == rows.last());
                assert(rows[rows.len() - 1].len() == w);
            }
        }
    }
}

/// How many rows and columns a query's result has: the filtered row count,
/// less the offset, capped by the limit; and one column per projected name,
/// or the source's columns for a wildcard. This is the whole of what the
/// slice stage may do to the count.
pub proof fn lemma_result_counts(p: QueryPlan, cols: Seq<Seq<char>>, rows: Seq<Seq<Value>>, w: int)
    requires
        forall|i: int| 0 <= i < rows.len() ==> (#[trigger] rows[i]).len() == w,
    ensures
        ({
            let filtered = spec_filtered(p, cols, rows);
            let out = spec_execute_rows(p, cols, rows);
            let o: int = match p.offset {
                Some(v) => v as int,
                None => 0,
            };
            let start: int = if o > filtered.len() {
                filtered.len() as int
            } else {
                o
            };
            let avail = filtered.len() - start;
            &&& out.len() == (match p.limit {
                Some(l) => if (l as int) < avail {
                    l as int
                } else {
                    avail
                },
                None => avail,
            })
            &&& spec_out_cols(p.projection@, cols).len() == (match p.projection@ {
                ProjectionV::Wildcard => cols.len() as int,
                ProjectionV::Columns(items) => items.len() as int,
            })
            &&& (p.projection@ matches ProjectionV::Columns(items) ==> forall|i: int|
                0 <= i < out.len() ==> (#[trigger] out[i]).len() == items.len())
        }),
{
    let filtered = spec_filtered(p, cols, rows);
    let keys = p.sort.deep_view();
    match p.predicate {
        Some(pd) => {
            lemma_filter_widths(pd@, cols, rows, w);
        },
        None => {},
    }
    lemma_sort_idx_len(keys, cols, filtered, filtered.len() as int);
    let sorted = spec_sorted_rows(keys, cols, filtered);
    assert(sorted.len() == filtered.len());
    let sliced = spec_slice(sorted, p.offset, p.limit);
    match p.projection@ {
        ProjectionV::Wildcard => {},
        ProjectionV::Columns(items) => {
            assert(spec_out_cols(p.projection@, cols).len() == items.len());
        },
    }
}

/// After a capability is registered for a scheme, looking that scheme up
/// finds exactly that capability, whether or not the scheme was known
/// before; registration never removes an entry.
pub proof fn lemma_register_resolves<F: Fetch>(
    entries: Seq<(Seq<char>, F)>,
    scheme: Seq<char>,
    f: F,
)
    ensures
        ({
            let i = spec_sfind(entries, scheme);
            let e2 = if i >= 0 {
                entries.update(i, (scheme, f))
            } else {
                entries.push((scheme, f))
            };
            &&& spec_sfind(e2, scheme) >= 0
            &&& e2[spec_sfind(e2, scheme)] == (scheme, f)
            &&& e2.len() >= entries.len()
        }),
{
    let i = spec_sfind(entries, scheme);
    crate::fetcher::lemma_sfind_props(entries, scheme);
    if i >= 0 {
        let e2 = entries.update(i, (scheme, f));
        assert(forall|k: int| 0 <= k < i ==> e2[k] == entries[k]);
        assert(e2[i].0 == scheme);
        crate::fetcher::lemma_spec_sfind(e2, scheme, i);
    } else {
        let e2 = entries.push((scheme, f));
        assert(forall|k: int| 0 <= k < entries.len() ==> e2[k] == entries[k]);
        assert(e2[entries.len() as int].0 == scheme);
        crate::fetcher::lemma_spec_sfind(e2, scheme, entries.len() as int);
    }
}

proof fn lemma_chars_lt_trichotomy(a: Seq<char>, b: Seq<char>)
    ensures
        spec_chars_lt(a, b) ==> !spec_chars_lt(b, a) && a != b,
        !spec_chars_lt(a, b) && !spec_chars_lt(b, a) ==> a == b,
    decreases a.len(),
{
    if b.len() == 0 {
        if a.len() == 0 {
            assert(a =~= b);
        }
    } else if a.len() == 0 {
    } else if a[0] != b[0] {
        if a == b {
            assert(a[0] == b[0]);
        }
    } else {
        lemma_chars_lt_trichotomy(a.drop_first(), b.drop_first());
        if !spec_chars_lt(a, b) && !spec_chars_lt(b, a) {
            assert(a.drop_first() == b.drop_first());
            assert(a =~= b) by {
                assert(forall|i: int|
                    1 <= i < a.len() ==> a[i] == a.drop_first()[i - 1]);
                assert(forall|i: int|
                    1 <= i < b.len() ==> b[i] == b.drop_first()[i - 1]);
            }
        }
        if spec_chars_lt(a, b) && a == b {
            assert(a.drop_first() =~= b.drop_first());
        }
    }
}

proof fn lemma_chars_lt_trans(a: Seq<char>, b: Seq<char>, c: Seq<char>)
    requires
        spec_chars_lt(a, b),
        spec_chars_lt(b, c),
    ensures
        spec_chars_lt(a, c),
    decreases a.len(),
{
    if b.len() == 0 {
    } else if c.len() == 0 {
    } else if a.len() == 0 {
    } else {
        if a[0] == b[0] && b[0] == c[0] {
            lemma_chars_lt_trans(a.drop_first(), b.drop_first(), c.drop_first());
        }
    }
}

proof fn lemma_val_cmp_refl(a: ValueV)
    ensures
        spec_val_cmp(a, a) == 0,
{
}

proof fn lemma_val_cmp_antisym(a: ValueV, b: ValueV)
    ensures
        spec_val_cmp(a, b) == -spec_val_cmp(b, a),
{
    if val_rank(a) == val_rank(b) {
        match (a, b) {
            (ValueV::Str(x), ValueV::Str(y)) => {
                lemma_chars_lt_trichotomy(x, y);
                lemma_chars_lt_trichotomy(y, x);
            },
            _ => {},
        }
    }
}

proof fn lemma_val_cmp_trans_le(a: ValueV, b: ValueV, c: ValueV)
    requires
        spec_val_cmp(a, b) <= 0,
        spec_val_cmp(b, c) <= 0,
    ensures
        spec_val_cmp(a, c) <= 0,
        spec_val_cmp(a, b) < 0 || spec_val_cmp(b, c) < 0 ==> spec_val_cmp(a, c) < 0,
{
    if val_rank(a) == val_rank(b) && val_rank(b) == val_rank(c) {
        match (a, b, c) {
            (ValueV::Str(x), ValueV::Str(y), ValueV::Str(z)) => {
                lemma_chars_lt_trichotomy(x, y);
                lemma_chars_lt_trichotomy(y, z);
                lemma_chars_lt_trichotomy(x, z);
                if spec_chars_lt(x, y) && spec_chars_lt(y, z) {
                    lemma_chars_lt_trans(x, y, z);
                }
            },
            _ => {},
        }
    }
}

proof fn lemma_row_cmp_refl(keys: Seq<(Seq<char>, bool)>, cols: Seq<Seq<char>>, a: Seq<Value>)
    ensures
        crate::execute::spec_row_cmp(keys, cols, a, a) == 0,
    decreases keys.len(),
{
    if keys.len() > 0 {
        lemma_row_cmp_refl(keys.drop_first(), cols, a);
    }
}

proof fn lemma_row_cmp_antisym(
    keys: Seq<(Seq<char>, bool)>,
    cols: Seq<Seq<char>>,
    a: Seq<Value>,
    b: Seq<Value>,
)
    ensures
        crate::execute::spec_row_cmp(keys, cols, a, b) == -crate::execute::spec_row_cmp(
            keys,
            cols,
            b,
            a,
        ),
    decreases keys.len(),
{
    if keys.len() > 0 {
        let j = spec_col_index(cols, keys[0].0);
        let xa = if 0 <= j < a.len() {
            a[j]@
        } else {
            ValueV::Null
        };
        let xb = if 0 <= j < b.len() {
            b[j]@
        } else {
            ValueV::Null
        };
        lemma_val_cmp_antisym(xa, xb);
        lemma_row_cmp_antisym(keys.drop_first(), cols, a, b);
    }
}

proof fn lemma_row_cmp_trans_le(
    keys: Seq<(Seq<char>, bool)>,
    cols: Seq<Seq<char>>,
    a: Seq<Value>,
    b: Seq<Value>,
    c: Seq<Value>,
)
    requires
        crate::execute::spec_row_cmp(keys, cols, a, b) <= 0,
        crate::execute::spec_row_cmp(keys, cols, b, c) <= 0,
    ensures
        crate::execute::spec_row_cmp(keys, cols, a, c) <= 0,
        (crate::execute::spec_row_cmp(keys, cols, a, b) < 0 || crate::execute::spec_row_cmp(
            keys,
            cols,
            b,
            c,
        ) < 0) ==> crate::execute::spec_row_cmp(keys, cols, a, c) < 0,
    decreases keys.len(),
{
    if keys.len() > 0 {
        let j = spec_col_index(cols, keys[0].0);
        let xa = if 0 <= j < a.len() {
            a[j]@
        } else {
            ValueV::Null
        };
        let xb = if 0 <= j < b.len() {
            b[j]@
        } else {
            ValueV::Null
        };
        let xc = if 0 <= j < c.len() {
            c[j]@
        } else {
            ValueV::Null
        };
        lemma_val_cmp_antisym(xa, xb);
        lemma_val_cmp_antisym(xb, xc);
        lemma_val_cmp_antisym(xa, xc);
        if spec_val_cmp(xa, xb) <= 0 && spec_val_cmp(xb, xc) <= 0 {
            lemma_val_cmp_trans_le(xa, xb, xc);
        }
        if spec_val_cmp(xc, xb) <= 0 && spec_val_cmp(xb, xa) <= 0 {
            lemma_val_cmp_trans_le(xc, xb, xa);
        }
        let kab = if keys[0].1 {
            -spec_val_cmp(xa, xb)
        } else {
            spec_val_cmp(xa, xb)
        };
        let kbc = if keys[0].1 {
            -spec_val_cmp(xb, xc)
        } else {
            spec_val_cmp(xb, xc)
        };
        if kab == 0 && kbc == 0 {
            lemma_row_cmp_trans_le(keys.drop_first(), cols, a, b, c);
        }
    }
}

/// The strict order a stable sort realizes is transitive.
proof fn lemma_idx_lt_trans(
    keys: Seq<(Seq<char>, bool)>,
    cols: Seq<Seq<char>>,
    rows: Seq<Seq<Value>>,
    i1: usize,
    i2: usize,
    i3: usize,
)
    requires
        spec_idx_lt(keys, cols, rows, i1, i2),
        spec_idx_lt(keys, cols, rows, i2, i3),
    ensures
        spec_idx_lt(keys, cols, rows, i1, i3),
{
    lemma_row_cmp_trans_le(keys, cols, rows[i1 as int], rows[i2 as int], rows[i3 as int]);
}

/// Two distinct positions always compare, one way or the other.
proof fn lemma_idx_lt_total(
    keys: Seq<(Seq<char>, bool)>,
    cols: Seq<Seq<char>>,
    rows: Seq<Seq<Value>>,
    i1: usize,
    i2: usize,
)
    requires
        i1 != i2,
    ensures
        spec_idx_lt(keys, cols, rows, i1, i2) || spec_idx_lt(keys, cols, rows, i2, i1),
{
    lemma_row_cmp_antisym(keys, cols, rows[i1 as int], rows[i2 as int]);
}

/// Pairwise order of a run of positions.
pub open spec fn sorted_idx(
    keys: Seq<(Seq<char>, bool)>,
    cols: Seq<Seq<char>>,
    rows: Seq<Seq<Value>>,
    s: Seq<usize>,
) -> bool {
    forall|a: int, b: int|
        0 <= a < b < s.len() ==> spec_idx_lt(keys, cols, rows, s[a], s[b])
}

proof fn lemma_insert_members(
    keys: Seq<(Seq<char>, bool)>,
    cols: Seq<Seq<char>>,
    rows: Seq<Seq<Value>>,
    s: Seq<usize>,
    x: usize,
)
    ensures
        forall|k: int|
            0 <= k < spec_insert_idx(keys, cols, rows, s, x).len() ==> (#[trigger] spec_insert_idx(
                keys,
                cols,
                rows,
                s,
                x,
            )[k]) == x || s.contains(spec_insert_idx(keys, cols, rows, s, x)[k]),
        s.contains(x) || spec_insert_idx(keys, cols, rows, s, x).contains(x),
        forall|e: usize| s.contains(e) ==> spec_insert_idx(keys, cols, rows, s, x).contains(e),
    decreases s.len(),
{
    let r = spec_insert_idx(keys, cols, rows, s, x);
    if s.len() == 0 {
        assert(r[0] == x);
        assert(r.contains(x));
    } else if spec_idx_lt(keys, cols, rows, s.last(), x) {
        assert(r == s.push(x));
        assert(r[s.len() as int] == x);
        assert(r.contains(x));
        assert forall|k: int| 0 <= k < r.len() implies (#[trigger] r[k]) == x || s.contains(
            r[k],
        ) by {
            if k < s.len() {
                assert(r[k] == s[k]);
            }
        }
        assert forall|e: usize| s.contains(e) implies r.contains(e) by {
            let j = choose|j: int| 0 <= j < s.len() && s[j] == e;
            assert(r[j] == e);
        }
    } else {
        lemma_insert_members(keys, cols, rows, s.drop_last(), x);
        let rr = spec_insert_idx(keys, cols, rows, s.drop_last(), x);
        assert(r == rr.push(s.last()));
        assert forall|k: int| 0 <= k < r.len() implies (#[trigger] r[k]) == x || s.contains(
            r[k],
        ) by {
            if k < rr.len() {
                assert(r[k] == rr[k]);
                if rr[k] != x {
                    assert(s.drop_last().contains(rr[k]));
                    let j = choose|j: int|
                        0 <= j < s.drop_last().len() && s.drop_last()[j] == rr[k];
                    assert(s[j] == rr[k]);
                }
            } else {
                assert(r[k] == s.last());
                assert(s[s.len() - 1] == s.last());
            }
        }
        if s.drop_last().contains(x) {
            let j = choose|j: int| 0 <= j < s.drop_last().len() && s.drop_last()[j] == x;
            assert(s[j] == x);
        } else {
            assert(rr.contains(x));
            let j = choose|j: int| 0 <= j < rr.len() && rr[j] == x;
            assert(r[j] == x);
            assert(r.contains(x));
        }
        assert forall|e: usize| s.contains(e) implies r.contains(e) by {
            let j = choose|j: int| 0 <= j < s.len() && s[j] == e;
            if j < s.len() - 1 {
                assert(s.drop_last()[j] == e);
                assert(s.drop_last().contains(e));
                assert(rr.contains(e));
                let j2 = choose|j2: int| 0 <= j2 < rr.len() && rr[j2] == e;
                assert(r[j2] == e);
            } else {
                assert(r[r.len() - 1] == s.last());
            }
        }
    }
}

proof fn lemma_insert_sorted(
    keys: Seq<(Seq<char>, bool)>,
    cols: Seq<Seq<char>>,
    rows: Seq<Seq<Value>>,
    s: Seq<usize>,
    x: usize,
)
    requires
        sorted_idx(keys, cols, rows, s),
        forall|k: int| 0 <= k < s.len() ==> (#[trigger] s[k]) < x,
    ensures
        sorted_idx(keys, cols, rows, spec_insert_idx(keys, cols, rows, s, x)),
    decreases s.len(),
{
    let r = spec_insert_idx(keys, cols, rows, s, x);
    if s.len() == 0 {
    } else if spec_idx_lt(keys, cols, rows, s.last(), x) {
        assert(r == s.push(x));
        assert forall|a: int, b: int|
            0 <= a < b < r.len() implies spec_idx_lt(keys, cols, rows, r[a], r[b]) by {
            if b < s.len() {
                assert(r[a] == s[a] && r[b] == s[b]);
            } else {
                assert(r[b] == x);
                assert(r[a] == s[a]);
                if a < s.len() - 1 {
                    assert(spec_idx_lt(keys, cols, rows, s[a], s.last()));
                    lemma_idx_lt_trans(keys, cols, rows, s[a], s.last(), x);
                }
            }
        }
    } else {
        assert(forall|k: int| 0 <= k < s.len() - 1 ==> s.drop_last()[k] == s[k]);
        lemma_insert_sorted(keys, cols, rows, s.drop_last(), x);
        lemma_insert_members(keys, cols, rows, s.drop_last(), x);
        let rr = spec_insert_idx(keys, cols, rows, s.drop_last(), x);
        assert(r == rr.push(s.last()));
        // the last element of `s` goes above everything inserted before it
        assert(s.last() < x);
        lemma_idx_lt_total(keys, cols, rows, s.last(), x);
        assert(spec_idx_lt(keys, cols, rows, x, s.last()));
        assert forall|a: int, b: int|
            0 <= a < b < r.len() implies spec_idx_lt(keys, cols, rows, r[a], r[b]) by {
            if b < rr.len() {
                assert(r[a] == rr[a] && r[b] == rr[b]);
            } else {
                assert(r[b] == s.last());
                assert(r[a] == rr[a]);
                if rr[a] == x {
                    assert(spec_idx_lt(keys, cols, rows, x, s.last()));
                } else {
                    assert(s.drop_last().contains(rr[a]));
                    let j = choose|j: int|
                        0 <= j < s.drop_last().len() && s.drop_last()[j] == rr[a];
                    assert(s[j] == rr[a]);
                    assert(spec_idx_lt(keys, cols, rows, s[j], s.last()));
                }
            }
        }
    }
}

/// The sort leaves the rows ordered by every key leftmost first, a
/// descending key reversed, and rows that compare equal kept in their
/// original relative order: the tie-break on original position makes the
/// realized order strict and total.
pub proof fn lemma_sort_is_ordered(
    keys: Seq<(Seq<char>, bool)>,
    cols: Seq<Seq<char>>,
    rows: Seq<Seq<Value>>,
    n: int,
)
    requires
        0 <= n <= usize::MAX,
    ensures
        sorted_idx(keys, cols, rows, spec_sort_idx(keys, cols, rows, n)),
    decreases n,
{
    if n > 0 {
        lemma_sort_is_ordered(keys, cols, rows, n - 1);
        lemma_sort_idx_elems(keys, cols, rows, n - 1);
        let prev = spec_sort_idx(keys, cols, rows, n - 1);
        assert(forall|k: int| 0 <= k < prev.len() ==> (#[trigger] prev[k]) < (n - 1) as usize);
        lemma_insert_sorted(keys, cols, rows, prev, (n - 1) as usize);
    }
}

/// The sort is a permutation: one entry per original position, each
/// position present, and no position repeated.
pub proof fn lemma_sort_is_permutation(
    keys: Seq<(Seq<char>, bool)>,
    cols: Seq<Seq<char>>,
    rows: Seq<Seq<Value>>,
    n: int,
)
    requires
        0 <= n <= usize::MAX,
    ensures
        spec_sort_idx(keys, cols, rows, n).len() == n,
        forall|v: int|
            0 <= v < n ==> spec_sort_idx(keys, cols, rows, n).contains(#[trigger] (v as usize)),
        forall|a: int, b: int|
            0 <= a < b < n ==> #[trigger] spec_sort_idx(keys, cols, rows, n)[a]
                != #[trigger] spec_sort_idx(keys, cols, rows, n)[b],
    decreases n,
{
    lemma_sort_idx_len(keys, cols, rows, n);
    lemma_sort_is_ordered(keys, cols, rows, n);
    let s = spec_sort_idx(keys, cols, rows, n);
    assert forall|a: int, b: int| 0 <= a < b < n implies s[a] != s[b] by {
        assert(spec_idx_lt(keys, cols, rows, s[a], s[b]));
        if s[a] == s[b] {
            lemma_row_cmp_refl(keys, cols, rows[s[a] as int]);
        }
    }
    if n > 0 {
        lemma_sort_is_permutation(keys, cols, rows, n - 1);
        let prev = spec_sort_idx(keys, cols, rows, n - 1);
        lemma_insert_members(keys, cols, rows, prev, (n - 1) as usize);
        lemma_sort_idx_elems(keys, cols, rows, n - 1);
        assert forall|v: int| 0 <= v < n implies s.contains(#[trigger] (v as usize)) by {
            if v < n - 1 {
                assert(prev.contains(v as usize));
            } else {
                assert(!prev.contains((n - 1) as usize)) by {
                    if prev.contains((n - 1) as usize) {
                        let j = choose|j: int|
                            0 <= j < prev.len() && prev[j] == (n - 1) as usize;
                        assert(prev[j] < n - 1);
                    }
                }
                assert(s.contains((n - 1) as usize));
            }
        }
    }
}

/// What the sort stage leaves, for any rows handed to it (the filtered
/// rows included): the rows stand pairwise non-descending under the keys,
/// leftmost key first and a descending key reversed, and rows that compare
/// equal stand in their original relative order.
pub proof fn lemma_sorted_rows_ordered(
    keys: Seq<(Seq<char>, bool)>,
    cols: Seq<Seq<char>>,
    rows: Seq<Seq<Value>>,
)
    requires
        rows.len() <= usize::MAX,
    ensures
        ({
            let perm = spec_sort_idx(keys, cols, rows, rows.len() as int);
            let sorted = spec_sorted_rows(keys, cols, rows);
            &&& sorted.len() == rows.len()
            &&& forall|a: int, b: int|
                0 <= a < b < sorted.len() ==> #[trigger] spec_row_cmp(
                    keys,
                    cols,
                    sorted[a],
                    sorted[b],
                ) <= 0
            &&& forall|a: int, b: int|
                0 <= a < b < sorted.len() && #[trigger] spec_row_cmp(
                    keys,
                    cols,
                    sorted[a],
                    sorted[b],
                ) == 0 ==> perm[a] < perm[b]
        }),
{
    let n = rows.len() as int;
    lemma_sort_idx_len(keys, cols, rows, n);
    lemma_sort_idx_elems(keys, cols, rows, n);
    lemma_sort_is_ordered(keys, cols, rows, n);
    let perm = spec_sort_idx(keys, cols, rows, n);
    let sorted = spec_sorted_rows(keys, cols, rows);
    assert forall|a: int, b: int|
        0 <= a < b < sorted.len() implies #[trigger] spec_row_cmp(
        keys,
        cols,
        sorted[a],
        sorted[b],
    ) <= 0 && (spec_row_cmp(keys, cols, sorted[a], sorted[b]) == 0 ==> perm[a] < perm[b]) by {
        assert(spec_idx_lt(keys, cols, rows, perm[a], perm[b]));
        assert(sorted[a] == rows[perm[a] as int]);
        assert(sorted[b] == rows[perm[b] as int]);
    }
}

proof fn lemma_cell_csv_view(a: Value, b: Value)
    requires
        a@ == b@,
    ensures
        cell_csv(a) == cell_csv(b),
        cell_json(a) == cell_json(b),
{
    match (a, b) {
        (Value::Null, Value::Null) => {},
        (Value::Bool(x), Value::Bool(y)) => {
            assert(x == y);
        },
        (Value::Int(x), Value::Int(y)) => {
            assert(x == y);
        },
        (Value::Dec(x), Value::Dec(y)) => {
            assert(x == y);
        },
        (Value::Str(x), Value::Str(y)) => {
            assert(x@ == y@);
        },
        _ => {
            assert(false);
        },
    }
}

proof fn lemma_row_csv_view(a: Seq<Value>, b: Seq<Value>, n: int)
    requires
        row_v(a) == row_v(b),
        n <= a.len(),
    ensures
        row_csv_upto(a, n) == row_csv_upto(b, n),
    decreases n,
{
    assert(a.len() == b.len()) by {
        assert(row_v(a).len() == a.len());
        assert(row_v(b).len() == b.len());
    }
    if n > 0 {
        lemma_row_csv_view(a, b, n - 1);
        assert(a[n - 1]@ == row_v(a)[n - 1]);
        assert(b[n - 1]@ == row_v(b)[n - 1]);
        lemma_cell_csv_view(a[n - 1], b[n - 1]);
    }
}

proof fn lemma_csv_lines_view(ra: Seq<Seq<Value>>, rb: Seq<Seq<Value>>, n: int)
    requires
        rows_vv(ra) == rows_vv(rb),
        n <= ra.len(),
    ensures
        csv_lines_upto(ra, n) == csv_lines_upto(rb, n),
    decreases n,
{
    assert(ra.len() == rb.len()) by {
        assert(rows_vv(ra).len() == ra.len());
        assert(rows_vv(rb).len() == rb.len());
    }
    if n > 0 {
        lemma_csv_lines_view(ra, rb, n - 1);
        assert(row_v(ra[n - 1]) == rows_vv(ra)[n - 1]);
        assert(row_v(rb[n - 1]) == rows_vv(rb)[n - 1]);
        assert(ra[n - 1].len() == rb[n - 1].len()) by {
            assert(row_v(ra[n - 1]).len() == ra[n - 1].len());
            assert(row_v(rb[n - 1]).len() == rb[n - 1].len());
        }
        lemma_row_csv_view(ra[n - 1], rb[n - 1], ra[n - 1].len() as int);
    }
}

proof fn lemma_row_json_view(cs: Seq<Seq<char>>, a: Seq<Value>, b: Seq<Value>, n: int)
    requires
        row_v(a) == row_v(b),
        n <= a.len(),
    ensures
        row_json_upto(cs, a, n) == row_json_upto(cs, b, n),
    decreases n,
{
    assert(a.len() == b.len()) by {
        assert(row_v(a).len() == a.len());
        assert(row_v(b).len() == b.len());
    }
    if n > 0 {
        lemma_row_json_view(cs, a, b, n - 1);
        assert(a[n - 1]@ == row_v(a)[n - 1]);
        assert(b[n - 1]@ == row_v(b)[n - 1]);
        lemma_cell_csv_view(a[n - 1], b[n - 1]);
    }
}

proof fn lemma_rows_json_view(cs: Seq<Seq<char>>, ra: Seq<Seq<Value>>, rb: Seq<Seq<Value>>, n: int)
    requires
        rows_vv(ra) == rows_vv(rb),
        n <= ra.len(),
    ensures
        rows_json_upto(cs, ra, n) == rows_json_upto(cs, rb, n),
    decreases n,
{
    assert(ra.len() == rb.len()) by {
        assert(rows_vv(ra).len() == ra.len());
        assert(rows_vv(rb).len() == rb.len());
    }
    if n > 0 {
        lemma_rows_json_view(cs, ra, rb, n - 1);
        assert(row_v(ra[n - 1]) == rows_vv(ra)[n - 1]);
        assert(row_v(rb[n - 1]) == rows_vv(rb)[n - 1]);
        assert(ra[n - 1].len() == rb[n - 1].len()) by {
            assert(row_v(ra[n - 1]).len() == ra[n - 1].len());
            assert(row_v(rb[n - 1]).len() == rb[n - 1].len());
        }
        lemma_row_json_view(cs, ra[n - 1], rb[n - 1], ra[n - 1].len() as int);
    }
}

proof fn lemma_filter_view_cong(
    p: crate::plan::PredV,
    cols: Seq<Seq<char>>,
    ra: Seq<Seq<Value>>,
    rb: Seq<Seq<Value>>,
)
    requires
        rows_vv(ra) == rows_vv(rb),
    ensures
        rows_vv(spec_filter(p, cols, ra)) == rows_vv(spec_filter(p, cols, rb)),
    decreases ra.len(),
{
    assert(ra.len() == rb.len()) by {
        assert(rows_vv(ra).len() == ra.len());
        assert(rows_vv(rb).len() == rb.len());
    }
    if ra.len() > 0 {
        assert(rows_vv(ra.drop_last()) =~= rows_vv(rb.drop_last())) by {
            assert forall|i: int|
                0 <= i < ra.len() - 1 implies row_v(ra.drop_last()[i]) == row_v(
                rb.drop_last()[i],
            ) by {
                assert(ra.drop_last()[i] == ra[i]);
                assert(rb.drop_last()[i] == rb[i]);
                assert(row_v(ra[i]) == rows_vv(ra)[i]);
                assert(row_v(rb[i]) == rows_vv(rb)[i]);
            }
            assert(rows_vv(ra.drop_last()).len() == rows_vv(rb.drop_last()).len());
            assert(forall|i: int|
                0 <= i < ra.len() - 1 ==> rows_vv(ra.drop_last())[i] == row_v(
                    ra.drop_last()[i],
                ) && rows_vv(rb.drop_last())[i] == row_v(rb.drop_last()[i]));
        }
        lemma_filter_view_cong(p, cols, ra.drop_last(), rb.drop_last());
        assert(row_v(ra.last()) == rows_vv(ra)[ra.len() - 1]);
        assert(row_v(rb.last()) == rows_vv(rb)[rb.len() - 1]);
        assert(crate::execute::spec_row_keep(p, cols, ra.last())
            == crate::execute::spec_row_keep(p, cols, rb.last()));
        let fa = spec_filter(p, cols, ra);
        let fb = spec_filter(p, cols, rb);
        assert(rows_vv(fa) =~= rows_vv(fb)) by {
            let fda = spec_filter(p, cols, ra.drop_last());
            let fdb = spec_filter(p, cols, rb.drop_last());
            assert(rows_vv(fda).len() == fda.len());
            assert(rows_vv(fdb).len() == fdb.len());
            assert(fda.len() == fdb.len());
            assert forall|i: int| 0 <= i < fa.len() implies rows_vv(fa)[i] == rows_vv(fb)[i] by {
                assert(rows_vv(fa)[i] == row_v(fa[i]));
                assert(rows_vv(fb)[i] == row_v(fb[i]));
                if i < fda.len() {
                    assert(fa[i] == fda[i]);
                    assert(fb[i] == fdb[i]);
                    assert(rows_vv(fda)[i] == row_v(fda[i]));
                    assert(rows_vv(fdb)[i] == row_v(fdb[i]));
                } else {
                    assert(fa[i] == ra.last());
                    assert(fb[i] == rb.last());
                }
            }
        }
    }
}

proof fn lemma_row_cmp_view_cong(
    keys: Seq<(Seq<char>, bool)>,
    cols: Seq<Seq<char>>,
    a1: Seq<Value>,
    b1: Seq<Value>,
    a2: Seq<Value>,
    b2: Seq<Value>,
)
    requires
        row_v(a1) == row_v(a2),
        row_v(b1) == row_v(b2),
    ensures
        crate::execute::spec_row_cmp(keys, cols, a1, b1) == crate::execute::spec_row_cmp(
            keys,
            cols,
            a2,
            b2,
        ),
    decreases keys.len(),
{
    assert(a1.len() == a2.len()) by {
        assert(row_v(a1).len() == a1.len());
        assert(row_v(a2).len() == a2.len());
    }
    assert(b1.len() == b2.len()) by {
        assert(row_v(b1).len() == b1.len());
        assert(row_v(b2).len() == b2.len());
    }
    if keys.len() > 0 {
        let j = spec_col_index(cols, keys[0].0);
        if 0 <= j < a1.len() {
            assert(a1[j]@ == row_v(a1)[j]);
            assert(a2[j]@ == row_v(a2)[j]);
        }
        if 0 <= j < b1.len() {
            assert(b1[j]@ == row_v(b1)[j]);
            assert(b2[j]@ == row_v(b2)[j]);
        }
        lemma_row_cmp_view_cong(keys.drop_first(), cols, a1, b1, a2, b2);
    }
}

proof fn lemma_insert_view_cong(
    keys: Seq<(Seq<char>, bool)>,
    cols: Seq<Seq<char>>,
    ra: Seq<Seq<Value>>,
    rb: Seq<Seq<Value>>,
    s: Seq<usize>,
    x: usize,
)
    requires
        rows_vv(ra) == rows_vv(rb),
        forall|k: int| 0 <= k < s.len() ==> (#[trigger] s[k]) < ra.len(),
        x < ra.len(),
    ensures
        spec_insert_idx(keys, cols, ra, s, x) == spec_insert_idx(keys, cols, rb, s, x),
    decreases s.len(),
{
    assert(ra.len() == rb.len()) by {
        assert(rows_vv(ra).len() == ra.len());
        assert(rows_vv(rb).len() == rb.len());
    }
    if s.len() > 0 {
        let e = s.last();
        assert(row_v(ra[e as int]) == rows_vv(ra)[e as int]);
        assert(row_v(rb[e as int]) == rows_vv(rb)[e as int]);
        assert(row_v(ra[x as int]) == rows_vv(ra)[x as int]);
        assert(row_v(rb[x as int]) == rows_vv(rb)[x as int]);
        lemma_row_cmp_view_cong(keys, cols, ra[e as int], ra[x as int], rb[e as int], rb[x as int]);
        assert(spec_idx_lt(keys, cols, ra, e, x) == spec_idx_lt(keys, cols, rb, e, x));
        if !spec_idx_lt(keys, cols, ra, e, x) {
            assert(forall|k: int| 0 <= k < s.len() - 1 ==> s.drop_last()[k] == s[k]);
            lemma_insert_view_cong(keys, cols, ra, rb, s.drop_last(), x);
        }
    }
}

proof fn lemma_sort_view_cong(
    keys: Seq<(Seq<char>, bool)>,
    cols: Seq<Seq<char>>,
    ra: Seq<Seq<Value>>,
    rb: Seq<Seq<Value>>,
    n: int,
)
    requires
        rows_vv(ra) == rows_vv(rb),
        0 <= n <= ra.len(),
    ensures
        spec_sort_idx(keys, cols, ra, n) == spec_sort_idx(keys, cols, rb, n),
    decreases n,
{
    if n > 0 {
        lemma_sort_view_cong(keys, cols, ra, rb, n - 1);
        lemma_sort_idx_elems(keys, cols, ra, n - 1);
        let prev = spec_sort_idx(keys, cols, ra, n - 1);
        assert(forall|k: int| 0 <= k < prev.len() ==> (#[trigger] prev[k]) < ra.len());
        lemma_insert_view_cong(keys, cols, ra, rb, prev, (n - 1) as usize);
    }
}

/// Running one plan over two tables with the same mathematical view yields
/// result rows with the same mathematical view: with the serialization
/// lemma below, repeated identical queries against static content yield
/// byte-identical output.
pub proof fn lemma_execute_view_determined(
    p: QueryPlan,
    cols: Seq<Seq<char>>,
    ra: Seq<Seq<Value>>,
    rb: Seq<Seq<Value>>,
)
    requires
        rows_vv(ra) == rows_vv(rb),
    ensures
        rows_vv(spec_execute_rows(p, cols, ra)) == rows_vv(spec_execute_rows(p, cols, rb)),
{
    assert(ra.len() == rb.len()) by {
        assert(rows_vv(ra).len() == ra.len());
        assert(rows_vv(rb).len() == rb.len());
    }
    let keys = p.sort.deep_view();
    let fa = spec_filtered(p, cols, ra);
    let fb = spec_filtered(p, cols, rb);
    match p.predicate {
        Some(pd) => {
            lemma_filter_view_cong(pd@, cols, ra, rb);
        },
        None => {},
    }
    assert(rows_vv(fa) == rows_vv(fb));
    assert(fa.len() == fb.len()) by {
        assert(rows_vv(fa).len() == fa.len());
        assert(rows_vv(fb).len() == fb.len());
    }
    lemma_sort_view_cong(keys, cols, fa, fb, fa.len() as int);
    lemma_sort_idx_len(keys, cols, fa, fa.len() as int);
    lemma_sort_idx_elems(keys, cols, fa, fa.len() as int);
    let perm = spec_sort_idx(keys, cols, fa, fa.len() as int);
    let sa = spec_sorted_rows(keys, cols, fa);
    let sb = spec_sorted_rows(keys, cols, fb);
    assert(rows_vv(sa) =~= rows_vv(sb)) by {
        assert(rows_vv(sa).len() == sa.len());
        assert(rows_vv(sb).len() == sb.len());
        assert forall|k: int| 0 <= k < sa.len() implies rows_vv(sa)[k] == rows_vv(sb)[k] by {
            assert(rows_vv(sa)[k] == row_v(sa[k]));
            assert(rows_vv(sb)[k] == row_v(sb[k]));
            assert(sa[k] == fa[perm[k] as int]);
            assert(sb[k] == fb[perm[k] as int]);
            assert(row_v(fa[perm[k] as int]) == rows_vv(fa)[perm[k] as int]);
            assert(row_v(fb[perm[k] as int]) == rows_vv(fb)[perm[k] as int]);
        }
    }
    let la = spec_slice(sa, p.offset, p.limit);
    let lb = spec_slice(sb, p.offset, p.limit);
    assert(sa.len() == sb.len());
    assert(rows_vv(la) =~= rows_vv(lb)) by {
        let o: int = match p.offset {
            Some(v) => v as int,
            None => 0,
        };
        let start: int = if o > sa.len() {
            sa.len() as int
        } else {
            o
        };
        assert(rows_vv(la).len() == la.len());
        assert(rows_vv(lb).len() == lb.len());
        assert forall|k: int| 0 <= k < la.len() implies rows_vv(la)[k] == rows_vv(lb)[k] by {
            assert(la[k] == sa.skip(start)[k]);
            assert(lb[k] == sb.skip(start)[k]);
            assert(sa.skip(start)[k] == sa[start + k]);
            assert(sb.skip(start)[k] == sb[start + k]);
            assert(rows_vv(la)[k] == row_v(la[k]));
            assert(rows_vv(lb)[k] == row_v(lb[k]));
            assert(row_v(sa[start + k]) == rows_vv(sa)[start + k]);
            assert(row_v(sb[start + k]) == rows_vv(sb)[start + k]);
        }
    }
    let oa = spec_execute_rows(p, cols, ra);
    let ob = spec_execute_rows(p, cols, rb);
    assert(la.len() == lb.len()) by {
        assert(rows_vv(la).len() == la.len());
        assert(rows_vv(lb).len() == lb.len());
    }
    match p.projection@ {
        ProjectionV::Wildcard => {
            assert(rows_vv(oa) == rows_vv(ob));
        },
        ProjectionV::Columns(items) => {
            assert(rows_vv(oa) =~= rows_vv(ob)) by {
                assert(oa.len() == la.len());
                assert(ob.len() == lb.len());
                assert(rows_vv(oa).len() == oa.len());
                assert(rows_vv(ob).len() == ob.len());
                assert forall|k: int|
                    0 <= k < oa.len() implies rows_vv(oa)[k] == rows_vv(ob)[k] by {
                    assert(oa[k] == crate::execute::spec_project_row(items, cols, la[k]));
                    assert(ob[k] == crate::execute::spec_project_row(items, cols, lb[k]));
                    assert(rows_vv(oa)[k] == row_v(oa[k]));
                    assert(rows_vv(ob)[k] == row_v(ob[k]));
                    assert(row_v(la[k]) == rows_vv(la)[k]);
                    assert(row_v(lb[k]) == rows_vv(lb)[k]);
                    assert(la[k].len() == lb[k].len()) by {
                        assert(row_v(la[k]).len() == la[k].len());
                        assert(row_v(lb[k]).len() == lb[k].len());
                    }
                    assert(row_v(oa[k]) =~= row_v(ob[k])) by {
                        assert(row_v(oa[k]).len() == oa[k].len());
                        assert(row_v(ob[k]).len() == ob[k].len());
                        assert forall|t: int|
                            0 <= t < oa[k].len() implies row_v(oa[k])[t] == row_v(ob[k])[t] by {
                            assert(row_v(oa[k])[t] == oa[k][t]@);
                            assert(row_v(ob[k])[t] == ob[k][t]@);
                            let j = spec_col_index(cols, items[t].0);
                            if 0 <= j < la[k].len() {
                                assert(oa[k][t] == la[k][j]);
                                assert(ob[k][t] == lb[k][j]);
                                assert(la[k][j]@ == row_v(la[k])[j]);
                                assert(lb[k][j]@ == row_v(lb[k])[j]);
                            } else {
                                assert(oa[k][t] == Value::Null);
                                assert(ob[k][t] == Value::Null);
                            }
                        }
                    }
                }
            }
        },
    }
}

/// Repeated identical queries against static content serialize identically:
/// both serialized forms are functions of the table's mathematical view
/// alone, which the decoding and execution contracts pin for every run.
pub proof fn lemma_serialized_output_determined(
    cols: Seq<Seq<char>>,
    ra: Seq<Seq<Value>>,
    rb: Seq<Seq<Value>>,
)
    requires
        rows_vv(ra) == rows_vv(rb),
    ensures
        spec_csv(cols, ra) == spec_csv(cols, rb),
        spec_json(cols, ra) == spec_json(cols, rb),
{
    assert(ra.len() == rb.len()) by {
        assert(rows_vv(ra).len() == ra.len());
        assert(rows_vv(rb).len() == rb.len());
    }
    lemma_csv_lines_view(ra, rb, ra.len() as int);
    lemma_rows_json_view(cols, ra, rb, ra.len() as int);
}

} // verus!
