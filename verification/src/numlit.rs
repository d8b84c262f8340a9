//! Numeric literals: the shape `-? digit+ ( . digit+ )?` and nothing wider
//! (no exponent form), their value on the fixed-point scale, and decimal
//! rendering of integer and fixed-point cells.
use vstd::prelude::*;

use crate::value::{Value, DEC_SCALE};

verus! {

/// Ten to the twenty-seventh power: the cap on accepted digit runs, chosen so
/// every accepted literal's fixed-point value fits an `i128`.
pub const POW10_27: i128 = 1_000_000_000_000_000_000_000_000_000;

pub open spec fn is_digit(c: char) -> bool {
    '0' <= c && c <= '9'
}

pub open spec fn all_digits(s: Seq<char>) -> bool {
    forall|i: int| 0 <= i < s.len() ==> is_digit(s[i])
}

pub open spec fn digit_val(c: char) -> int {
    (c as u32) - ('0' as u32)
}

/// The integer a run of decimal digits denotes, most significant first.
pub open spec fn digits_to_int(s: Seq<char>) -> int
    decreases s.len(),
{
    if s.len() == 0 {
        0
    } else {
        digits_to_int(s.drop_last()) * 10 + digit_val(s.last())
    }
}

pub open spec fn pow10(n: nat) -> int
    decreases n,
{
    if n == 0 {
        1int
    } else {
        10 * pow10((n - 1) as nat)
    }
}

pub proof fn lemma_pow10_pos(n: nat)
    ensures
        pow10(n) >= 1,
    decreases n,
{
    if n > 0 {
        lemma_pow10_pos((n - 1) as nat);
    }
}

pub proof fn lemma_pow10_mono(a: nat, b: nat)
    requires
        a <= b,
    ensures
        pow10(a) <= pow10(b),
    decreases b,
{
    if a < b {
        lemma_pow10_mono(a, (b - 1) as nat);
        lemma_pow10_pos((b - 1) as nat);
    }
}

pub proof fn lemma_pow10_27()
    ensures
        pow10(27) == POW10_27,
{
    reveal_with_fuel(pow10, 30);
}

/// A digit run's value is below ten to its length.
pub proof fn lemma_digits_bound(s: Seq<char>)
    requires
        all_digits(s),
    ensures
        0 <= digits_to_int(s) < pow10(s.len()),
    decreases s.len(),
{
    if s.len() > 0 {
        assert(all_digits(s.drop_last())) by {
            assert(forall|i: int|
                0 <= i < s.len() - 1 ==> s.drop_last()[i] == s[i]);
        }
        lemma_digits_bound(s.drop_last());
        assert(is_digit(s.last()));
    }
}

/// The first index at which `c` occurs in `s`, or -1.
pub open spec fn find_char(s: Seq<char>, c: char) -> int
    decreases s.len(),
{
    if s.len() == 0 {
        -1
    } else if s[0] == c {
        0
    } else if find_char(s.drop_first(), c) < 0 {
        -1
    } else {
        1 + find_char(s.drop_first(), c)
    }
}

pub proof fn lemma_find_char(s: Seq<char>, c: char, j: int)
    requires
        0 <= j <= s.len(),
        forall|k: int| 0 <= k < j ==> s[k] != c,
        j < s.len() ==> s[j] == c,
    ensures
        j < s.len() ==> find_char(s, c) == j,
        j == s.len() ==> find_char(s, c) == -1,
    decreases s.len(),
{
    if s.len() > 0 {
        if s[0] == c {
        } else {
            assert(forall|k: int|
                0 <= k < j - 1 ==> s.drop_first()[k] == s[k + 1]);
            lemma_find_char(s.drop_first(), c, if j == 0 { 0 } else { j - 1 });
        }
    }
}

/// The value the numeric literal `s` denotes: an `Int` when it has no point
/// and fits a machine integer, a fixed-point `Dec` otherwise; nothing when
/// `s` does not have the literal shape `-? digit+ ( . digit+ )?` or its
/// digit runs are longer than twenty-seven digits. Of a fraction, the first
/// nine digits are kept.
pub open spec fn spec_parse_number(s: Seq<char>) -> Option<Value> {
    let neg = s.len() > 0 && s[0] == '-';
    let t = if neg {
        s.skip(1)
    } else {
        s
    };
    let d = find_char(t, '.');
    if d < 0 {
        if 0 < t.len() <= 27 && all_digits(t) {
            let m = digits_to_int(t);
            let sv = if neg {
                -m
            } else {
                m
            };
            if i64::MIN <= sv <= i64::MAX {
                Some(Value::Int(sv as i64))
            } else {
                Some(Value::Dec((sv * (DEC_SCALE as int)) as i128))
            }
        } else {
            None
        }
    } else {
        let ip = t.take(d);
        let fp = t.skip(d + 1);
        if 0 < ip.len() <= 27 && all_digits(ip) && 0 < fp.len() <= 27 && all_digits(fp) {
            let frac9 = if fp.len() >= 9 {
                fp.take(9)
            } else {
                fp
            };
            let mult = if fp.len() >= 9 {
                1int
            } else {
                pow10((9 - fp.len()) as nat)
            };
            let mag = digits_to_int(ip) * (DEC_SCALE as int) + digits_to_int(frac9) * mult;
            Some(
                Value::Dec(
                    (if neg {
                        -mag
                    } else {
                        mag
                    }) as i128,
                ),
            )
        } else {
            None
        }
    }
}

/// Parse a digit run, its value below ten to its length.
fn parse_digits(v: &Vec<char>, from: usize, to: usize) -> (r: Option<i128>)
    requires
        from <= to <= v@.len(),
        to - from <= 27,
    ensures
        match r {
            Some(m) => all_digits(v@.subrange(from as int, to as int)) && m as int
                == digits_to_int(v@.subrange(from as int, to as int)) && 0 <= m < POW10_27,
            None => !all_digits(v@.subrange(from as int, to as int)),
        },
{
    let ghost whole = v@.subrange(from as int, to as int);
    let mut acc: i128 = 0;
    let mut i: usize = from;
    proof {
        lemma_pow10_27();
    }
    while i < to
        invariant
            from <= i <= to <= v@.len(),
            to - from <= 27,
            whole == v@.subrange(from as int, to as int),
            all_digits(v@.subrange(from as int, i as int)),
            acc as int == digits_to_int(v@.subrange(from as int, i as int)),
            0 <= acc as int,
            (acc as int) < pow10((i - from) as nat),
            pow10(27) == POW10_27,
        decreases to - i,
    {
        let c = v[i];
        if !('0' <= c && c <= '9') {
            proof {
                assert(whole[i - from] == v@[i as int]);
                assert(!is_digit(whole[i - from]));
            }
            return None;
        }
        let d: i128 = (c as u8 - 48) as i128;
        proof {
            assert(c as u32 >= 48 && c as u32 <= 57);
            assert(c as u8 == c as u32);
            assert(d as int == digit_val(c));
            lemma_pow10_mono(((i - from) + 1) as nat, 27);
            assert(pow10(((i - from) + 1) as nat) == 10 * pow10((i - from) as nat));
        }
        acc = acc * 10 + d;
        proof {
            let pre = v@.subrange(from as int, i as int);
            let post = v@.subrange(from as int, i as int + 1);
            assert(post.drop_last() =~= pre);
            assert(post.last() == v@[i as int]);
            assert(all_digits(post)) by {
                assert(forall|k: int| 0 <= k < pre.len() ==> post[k] == pre[k]);
            }
        }
        i = i + 1;
    }
    proof {
        lemma_pow10_mono((to - from) as nat, 27);
    }
    Some(acc)
}

/// Parse a numeric literal.
#[verifier::rlimit(60)]
pub fn parse_number(v: &Vec<char>) -> (r: Option<Value>)
    ensures
        r == spec_parse_number(v@),
{
    let neg = v.len() > 0 && v[0] == '-';
    let start: usize = if neg {
        1
    } else {
        0
    };
    let ghost t = if neg {
        v@.skip(1)
    } else {
        v@
    };
    proof {
        assert(t =~= v@.subrange(start as int, v@.len() as int));
    }
    // locate a decimal point in the part after the sign
    let mut dot: usize = start;
    while dot < v.len() && v[dot] != '.'
        invariant
            start <= dot <= v@.len(),
            forall|k: int| start <= k < dot ==> v@[k] != '.',
        decreases v.len() - dot,
    {
        dot = dot + 1;
    }
    proof {
        assert(forall|k: int| 0 <= k < dot - start ==> t[k] == v@[k + start]);
        lemma_find_char(t, '.', dot - start);
    }
    if dot == v.len() {
        // no point: an integer literal
        if v.len() - start == 0 || v.len() - start > 27 {
            return None;
        }
        match parse_digits(v, start, v.len()) {
            None => {
                proof {
                    assert(t =~= v@.subrange(start as int, v@.len() as int));
                }
                None
            },
            Some(m) => {
                proof {
                    lemma_pow10_27();
                }
                let sv: i128 = if neg {
                    -m
                } else {
                    m
                };
                if i64::MIN as i128 <= sv && sv <= i64::MAX as i128 {
                    Some(Value::Int(sv as i64))
                } else {
                    Some(Value::Dec(sv * DEC_SCALE))
                }
            },
        }
    } else {
        // a point: a fixed-point literal
        let ip_len = dot - start;
        let fp_len = v.len() - dot - 1;
        if ip_len == 0 || ip_len > 27 || fp_len == 0 || fp_len > 27 {
            return None;
        }
        let ghost ip = t.take(ip_len as int);
        let ghost fp = t.skip(ip_len as int + 1);
        proof {
            assert(ip =~= v@.subrange(start as int, dot as int));
            assert(fp =~= v@.subrange(dot as int + 1, v@.len() as int));
        }
        let ip_m = match parse_digits(v, start, dot) {
            None => {
                return None;
            },
            Some(m) => m,
        };
        let fp_m = match parse_digits(v, dot + 1, v.len()) {
            None => {
                return None;
            },
            Some(m) => m,
        };
        // keep the first nine fraction digits
        let frac_end = if fp_len >= 9 {
            dot + 1 + 9
        } else {
            v.len()
        };
        let ghost frac9 = if fp.len() >= 9 {
            fp.take(9)
        } else {
            fp
        };
        proof {
            assert(frac9 =~= v@.subrange(dot as int + 1, frac_end as int));
            assert(forall|k: int|
                0 <= k < frac_end - (dot + 1) ==> #[trigger] v@.subrange(
                    dot as int + 1,
                    frac_end as int,
                )[k] == v@.subrange(dot as int + 1, v@.len() as int)[k]);
        }
        let frac_m = match parse_digits(v, dot + 1, frac_end) {
            None => {
                proof {
                    assert(false);
                }
                return None;
            },
            Some(m) => m,
        };
        let flen9: usize = if fp_len >= 9 {
            9
        } else {
            fp_len
        };
        let mut mult: i128 = 1;
        let mut k: usize = flen9;
        while k < 9
            invariant
                flen9 <= k <= 9,
                mult as int == pow10((k - flen9) as nat),
            decreases 9 - k,
    {
            proof {
                lemma_pow10_pos((k - flen9) as nat);
                lemma_pow10_mono((k - flen9) as nat, 9);
                assert(pow10(9) == 1_000_000_000) by {
                    reveal_with_fuel(pow10, 10);
                }
            }
            mult = mult * 10;
            k = k + 1;
        }
        proof {
            lemma_pow10_pos((9 - flen9) as nat);
            lemma_pow10_mono((9 - flen9) as nat, 9);
            assert(pow10(9) == 1_000_000_000) by {
                reveal_with_fuel(pow10, 10);
            }
            lemma_digits_bound(frac9);
            assert(frac9.len() == flen9);
            let fm = frac_m as int;
            let mu = mult as int;
            let bound = pow10(flen9 as nat);
            lemma_pow10_add(flen9 as nat, (9 - flen9) as nat);
            assert(bound * mu == pow10(9));
            assert(0 <= fm * mu && fm * mu <= bound * mu - mu) by (nonlinear_arith)
                requires
                    0 <= fm,
                    fm <= bound - 1,
                    1 <= mu,
            ;
            assert(fm * mu < 1_000_000_000);
        }
        let fval: i128 = frac_m * mult;
        proof {
            lemma_pow10_27();
            lemma_digits_bound(ip);
            lemma_pow10_mono(ip.len(), 27);
        }
        let mag: i128 = ip_m * DEC_SCALE + fval;
        let sv: i128 = if neg {
            -mag
        } else {
            mag
        };
        Some(Value::Dec(sv))
    }
}

/// Ten to a sum is the product of ten to each part.
pub proof fn lemma_pow10_add(a: nat, b: nat)
    ensures
        pow10(a + b) == pow10(a) * pow10(b),
    decreases a,
{
    if a == 0 {
        assert(pow10(b) == 1 * pow10(b));
    } else {
        lemma_pow10_add((a - 1) as nat, b);
        assert(pow10(a + b) == 10 * pow10((a + b - 1) as nat));
        assert(pow10((a - 1) as nat + b) == pow10((a - 1) as nat) * pow10(b));
        assert(10 * (pow10((a - 1) as nat) * pow10(b)) == (10 * pow10((a - 1) as nat)) * pow10(
            b,
        )) by (nonlinear_arith);
    }
}

/// The character of one decimal digit.
pub open spec fn digit_char(d: int) -> char {
    ((48 + d) as u32) as char
}

/// The decimal rendering of a natural number, no leading zeros.
pub open spec fn spec_render_nat(n: nat) -> Seq<char>
    decreases n,
{
    if n < 10 {
        seq![digit_char(n as int)]
    } else {
        spec_render_nat(n / 10).push(digit_char((n % 10) as int))
    }
}

/// A rendering has at most as many digits as the power bounding its value.
pub proof fn lemma_render_nat_len(n: nat, k: nat)
    requires
        n < pow10(k),
        k >= 1,
    ensures
        spec_render_nat(n).len() <= k,
    decreases n,
{
    if n >= 10 {
        assert(k >= 2) by {
            reveal_with_fuel(pow10, 2);
        }
        assert(n / 10 < pow10((k - 1) as nat));
        lemma_render_nat_len(n / 10, (k - 1) as nat);
    }
}

fn render_digit(d: u8) -> (r: char)
    requires
        d < 10,
    ensures
        r == digit_char(d as int),
{
    let c = (48 + d) as char;
    proof {
        assert(c == digit_char(d as int));
    }
    c
}

/// Render a natural number in decimal.
pub(crate) fn render_nat(n: u128) -> (r: Vec<char>)
    ensures
        r@ == spec_render_nat(n as nat),
    decreases n,
{
    if n < 10 {
        let mut v: Vec<char> = Vec::new();
        v.push(render_digit(n as u8));
        proof {
            assert(v@ =~= seq![digit_char(n as int)]);
        }
        v
    } else {
        let mut v = render_nat(n / 10);
        v.push(render_digit((n % 10) as u8));
        proof {
            assert(v@ =~= spec_render_nat((n / 10) as nat).push(
                digit_char((n as nat % 10) as int),
            ));
        }
        v
    }
}

/// The decimal rendering of an integer: a minus sign for negatives, then the
/// magnitude.
pub open spec fn spec_render_int(i: int) -> Seq<char> {
    if i < 0 {
        seq!['-'] + spec_render_nat((-i) as nat)
    } else {
        spec_render_nat(i as nat)
    }
}

/// Render a machine integer in decimal.
pub(crate) fn render_int(i: i64) -> (r: Vec<char>)
    ensures
        r@ == spec_render_int(i as int),
{
    let m: i128 = i as i128;
    if m < 0 {
        let n: u128 = (-m) as u128;
        let mut out: Vec<char> = Vec::new();
        out.push('-');
        let mut digits = render_nat(n);
        out.append(&mut digits);
        proof {
            assert(out@ =~= seq!['-'] + spec_render_nat(n as nat));
        }
        out
    } else {
        render_nat(m as u128)
    }
}

/// A run of zero characters.
pub open spec fn zeros(n: nat) -> Seq<char>
    decreases n,
{
    if n == 0 {
        Seq::empty()
    } else {
        zeros((n - 1) as nat).push('0')
    }
}

/// A fraction rendering left-padded with zeros to nine digits.
pub open spec fn pad9(s: Seq<char>) -> Seq<char> {
    if s.len() >= 9 {
        s
    } else {
        zeros((9 - s.len()) as nat) + s
    }
}

/// Trailing zeros removed, one digit always kept.
pub open spec fn trim_zeros(s: Seq<char>) -> Seq<char>
    decreases s.len(),
{
    if s.len() <= 1 {
        s
    } else if s.last() == '0' {
        trim_zeros(s.drop_last())
    } else {
        s
    }
}

/// The decimal rendering of a fixed-point value: sign, integer part, a
/// point, and the fraction's nine digits with trailing zeros trimmed down
/// to at least one digit.
pub open spec fn spec_render_dec(d: int) -> Seq<char> {
    let a = if d < 0 {
        -d
    } else {
        d
    };
    let ip = a / (DEC_SCALE as int);
    let fp = a % (DEC_SCALE as int);
    let sign: Seq<char> = if d < 0 {
        seq!['-']
    } else {
        Seq::empty()
    };
    sign + spec_render_nat(ip as nat) + seq!['.'] + trim_zeros(pad9(spec_render_nat(fp as nat)))
}

/// Render a fixed-point cell value in decimal.
pub(crate) fn render_dec(d: i128) -> (r: Vec<char>)
    ensures
        r@ == spec_render_dec(d as int),
{
    let au: u128 = if d < 0 {
        ((-(d + 1)) as u128) + 1
    } else {
        d as u128
    };
    proof {
        assert(au as int == if d < 0 {
            -(d as int)
        } else {
            d as int
        });
    }
    let ipu: u128 = au / 1_000_000_000;
    let fpu: u128 = au % 1_000_000_000;
    let mut out: Vec<char> = Vec::new();
    if d < 0 {
        out.push('-');
    }
    let mut ipart = render_nat(ipu);
    out.append(&mut ipart);
    out.push('.');
    // fraction digits, left-padded to nine
    let fd = render_nat(fpu);
    proof {
        assert(pow10(9) == 1_000_000_000) by {
            reveal_with_fuel(pow10, 10);
        }
        lemma_render_nat_len(fpu as nat, 9);
    }
    let mut frac: Vec<char> = Vec::new();
    let mut z: usize = 0;
    let pad: usize = 9 - fd.len();
    while z < pad
        invariant
            z <= pad,
            pad == 9 - fd@.len(),
            fd@.len() <= 9,
            frac@ =~= zeros(z as nat),
        decreases pad - z,
    {
        frac.push('0');
        proof {
            assert(frac@.drop_last() =~= zeros(z as nat));
        }
        z = z + 1;
    }
    let mut fdm = fd;
    frac.append(&mut fdm);
    proof {
        assert(frac@ =~= pad9(spec_render_nat(fpu as nat)));
    }
    // trim trailing zeros, keeping at least one digit
    let ghost orig = frac@;
    while frac.len() > 1 && frac[frac.len() - 1] == '0'
        invariant
            frac@.len() >= 1,
            trim_zeros(frac@) == trim_zeros(orig),
        decreases frac@.len(),
    {
        let _ = frac.pop();
    }
    proof {
        assert(trim_zeros(frac@) == frac@);
    }
    let mut fracm = frac;
    out.append(&mut fracm);
    proof {
        assert(out@ =~= spec_render_dec(d as int));
    }
    out
}

} // verus!
