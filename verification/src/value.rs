//! Cell values of a dataset, their ordering, their numeric literals and
//! their decimal rendering. Non-integer numbers are held in fixed point:
//! an `i128` scaled by one thousand million, so nine fractional digits are
//! kept and comparisons are exact integer comparisons.
use vstd::prelude::*;

use crate::chars::str_to_chars;

verus! {

/// Fixed-point scale of `Value::Dec`: one unit is one thousand-millionth.
pub const DEC_SCALE: i128 = 1_000_000_000;

/// One cell of a dataset.
#[derive(Debug)]
pub enum Value {
    /// A missing or unreadable cell.
    Null,
    Bool(bool),
    Int(i64),
    /// A non-integer number, held as its value times `DEC_SCALE`.
    Dec(i128),
    Str(String),
}

/// The mathematical content of a cell: machine strings become character
/// sequences, machine integers unbounded ones.
pub enum ValueV {
    Null,
    Bool(bool),
    Int(int),
    Dec(int),
    Str(Seq<char>),
}

impl View for Value {
    type V = ValueV;

    open spec fn view(&self) -> ValueV {
        match *self {
            Value::Null => ValueV::Null,
            Value::Bool(b) => ValueV::Bool(b),
            Value::Int(i) => ValueV::Int(i as int),
            Value::Dec(d) => ValueV::Dec(d as int),
            Value::Str(ref s) => ValueV::Str(s@),
        }
    }
}

/// An exact copy of a cell.
pub fn clone_value(v: &Value) -> (r: Value)
    ensures
        r == *v,
{
    match v {
        Value::Null => Value::Null,
        Value::Bool(b) => Value::Bool(*b),
        Value::Int(i) => Value::Int(*i),
        Value::Dec(d) => Value::Dec(*d),
        Value::Str(s) => Value::Str(s.clone()),
    }
}

/// An exact copy of a row of cells.
pub fn clone_row(row: &Vec<Value>) -> (r: Vec<Value>)
    ensures
        r@ == row@,
{
    let mut out: Vec<Value> = Vec::new();
    let mut i: usize = 0;
    while i < row.len()
        invariant
            i <= row.len(),
            out@ =~= row@.take(i as int),
        decreases row.len() - i,
    {
        out.push(clone_value(&row[i]));
        proof {
            assert(out@ =~= row@.take(i as int + 1));
        }
        i = i + 1;
    }
    proof {
        assert(row@.take(row@.len() as int) =~= row@);
    }
    out
}

/// The numeric value of an `Int` or `Dec` cell on the common fixed-point
/// scale.
pub open spec fn num_of(v: ValueV) -> int {
    match v {
        ValueV::Int(i) => i * (DEC_SCALE as int),
        ValueV::Dec(d) => d,
        _ => 0,
    }
}

/// Sort rank of a cell's kind: nulls first, then booleans, numbers, strings.
pub open spec fn val_rank(v: ValueV) -> int {
    match v {
        ValueV::Null => 0,
        ValueV::Bool(_) => 1,
        ValueV::Int(_) => 2,
        ValueV::Dec(_) => 2,
        ValueV::Str(_) => 3,
    }
}

/// Lexicographic order on character sequences, by character code.
pub open spec fn spec_chars_lt(a: Seq<char>, b: Seq<char>) -> bool
    decreases a.len(),
{
    if b.len() == 0 {
        false
    } else if a.len() == 0 {
        true
    } else if a[0] != b[0] {
        a[0] < b[0]
    } else {
        spec_chars_lt(a.drop_first(), b.drop_first())
    }
}

/// Three-way comparison of cells: -1, 0 or 1. Kinds are ordered by rank;
/// within a kind, booleans order false before true, numbers numerically on
/// the common scale, strings lexicographically.
pub open spec fn spec_val_cmp(a: ValueV, b: ValueV) -> int {
    if val_rank(a) != val_rank(b) {
        if val_rank(a) < val_rank(b) {
            -1
        } else {
            1
        }
    } else {
        match (a, b) {
            (ValueV::Bool(x), ValueV::Bool(y)) => {
                if x == y {
                    0
                } else if !x {
                    -1
                } else {
                    1
                }
            },
            (ValueV::Str(x), ValueV::Str(y)) => {
                if x == y {
                    0
                } else if spec_chars_lt(x, y) {
                    -1
                } else {
                    1
                }
            },
            _ => {
                if num_of(a) < num_of(b) {
                    -1
                } else if num_of(a) > num_of(b) {
                    1
                } else {
                    0
                }
            },
        }
    }
}

fn chars_lt(a: &Vec<char>, b: &Vec<char>) -> (r: bool)
    ensures
        r == spec_chars_lt(a@, b@),
{
    let mut i: usize = 0;
    proof {
        assert(a@.skip(0) =~= a@);
        assert(b@.skip(0) =~= b@);
    }
    loop
        invariant
            i <= a.len(),
            i <= b.len(),
            forall|k: int| 0 <= k < i ==> a@[k] == b@[k],
            spec_chars_lt(a@, b@) == spec_chars_lt(a@.skip(i as int), b@.skip(i as int)),
        decreases a.len() - i,
    {
        if i >= b.len() {
            proof {
                assert(b@.skip(i as int).len() == 0);
            }
            return false;
        }
        if i >= a.len() {
            proof {
                assert(a@.skip(i as int).len() == 0);
                assert(b@.skip(i as int).len() > 0);
            }
            return true;
        }
        let ca = a[i];
        let cb = b[i];
        proof {
            assert(a@.skip(i as int)[0] == a@[i as int]);
            assert(b@.skip(i as int)[0] == b@[i as int]);
        }
        if ca != cb {
            return ca < cb;
        }
        proof {
            assert(a@.skip(i as int).drop_first() =~= a@.skip(i as int + 1));
            assert(b@.skip(i as int).drop_first() =~= b@.skip(i as int + 1));
        }
        i = i + 1;
    }
}

/// Three-way comparison of two cells.
pub fn val_cmp(a: &Value, b: &Value) -> (r: i32)
    ensures
        r as int == spec_val_cmp(a@, b@),
{
    let ra: i32 = match a {
        Value::Null => 0,
        Value::Bool(_) => 1,
        Value::Int(_) => 2,
        Value::Dec(_) => 2,
        Value::Str(_) => 3,
    };
    let rb: i32 = match b {
        Value::Null => 0,
        Value::Bool(_) => 1,
        Value::Int(_) => 2,
        Value::Dec(_) => 2,
        Value::Str(_) => 3,
    };
    if ra != rb {
        if ra < rb {
            return -1;
        } else {
            return 1;
        }
    }
    match (a, b) {
        (Value::Null, Value::Null) => 0,
        (Value::Bool(x), Value::Bool(y)) => {
            if *x == *y {
                0
            } else if !*x {
                -1
            } else {
                1
            }
        },
        (Value::Str(x), Value::Str(y)) => {
            let xc = str_to_chars(x.as_str());
            let yc = str_to_chars(y.as_str());
            if crate::chars::chars_eq(&xc, &yc) {
                0
            } else if chars_lt(&xc, &yc) {
                -1
            } else {
                1
            }
        },
        (x, y) => {
            let nx = num_of_exec(x);
            let ny = num_of_exec(y);
            if nx < ny {
                -1
            } else if nx > ny {
                1
            } else {
                0
            }
        },
    }
}

/// The numeric value of an `Int` or `Dec` cell on the common scale.
fn num_of_exec(v: &Value) -> (r: i128)
    requires
        val_rank(v@) == 2,
    ensures
        r as int == num_of(v@),
{
    match v {
        Value::Int(i) => {
            let w: i128 = *i as i128;
            w * DEC_SCALE
        },
        Value::Dec(d) => *d,
        _ => {
            proof {
                assert(false);
            }
            0
        },
    }
}

} // verus!
