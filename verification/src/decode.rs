//! The JSON decoder: one array of flat objects becomes a dataset. The
//! grammar is parsed by recursive descent; the executable parser mirrors
//! the specification production for production. Two stated limits: string
//! escapes cover the quote, backslash, slash and the common control
//! characters but not `\u` code points, and numbers take the plain
//! `-? digit+ ( . digit+ )?` shape without an exponent; either construct
//! makes the document a content error rather than decoding differently.
use vstd::prelude::*;

use crate::chars::{chars_eq, chars_to_string, str_to_chars};
use crate::dataset::DataSet;
use crate::errors::QueryError;
use crate::execute::spec_col_index;
use crate::numlit::{parse_number, spec_parse_number};
use crate::value::{Value, ValueV};

verus! {

pub open spec fn is_ws(c: char) -> bool {
    c == ' ' || c == '\t' || c == '\n' || c == '\r'
}

/// The first position at or after `i` holding a non-blank character.
pub open spec fn ws_end(s: Seq<char>, i: int) -> int
    decreases s.len() - i,
{
    if i < 0 {
        0
    } else if i >= s.len() {
        s.len() as int
    } else if is_ws(s[i]) {
        ws_end(s, i + 1)
    } else {
        i
    }
}

fn p_ws(v: &Vec<char>, i: usize) -> (r: usize)
    requires
        i <= v@.len(),
    ensures
        r as int == ws_end(v@, i as int),
        i <= r <= v@.len(),
    decreases v@.len() - i,
{
    if i == v.len() {
        i
    } else {
        let c = v[i];
        if c == ' ' || c == '\t' || c == '\n' || c == '\r' {
            p_ws(v, i + 1)
        } else {
            i
        }
    }
}

/// The unescaped form of one escape character, if supported.
pub open spec fn unescape(c: char) -> Option<char> {
    if c == '"' {
        Some('"')
    } else if c == '\\' {
        Some('\\')
    } else if c == '/' {
        Some('/')
    } else if c == 'n' {
        Some('\n')
    } else if c == 'r' {
        Some('\r')
    } else if c == 't' {
        Some('\t')
    } else {
        None
    }
}

/// The body of a quoted string from `i` to its closing quote: the decoded
/// characters and the position after the quote.
pub open spec fn jstr_body(s: Seq<char>, i: int) -> Option<(Seq<char>, int)>
    decreases s.len() - i,
{
    if i < 0 || i >= s.len() {
        None
    } else if s[i] == '"' {
        Some((Seq::empty(), i + 1))
    } else if s[i] == '\\' {
        if i + 1 >= s.len() {
            None
        } else {
            match unescape(s[i + 1]) {
                None => None,
                Some(c) => match jstr_body(s, i + 2) {
                    None => None,
                    Some((rest, j)) => Some((seq![c] + rest, j)),
                },
            }
        }
    } else {
        match jstr_body(s, i + 1) {
            None => None,
            Some((rest, j)) => Some((seq![s[i]] + rest, j)),
        }
    }
}

fn p_jstr_body(v: &Vec<char>, i: usize) -> (r: Option<(Vec<char>, usize)>)
    requires
        i <= v@.len(),
    ensures
        match r {
            Some((cs, j)) => jstr_body(v@, i as int) == Some((cs@, j as int)) && i < j
                <= v@.len(),
            None => jstr_body(v@, i as int) is None,
        },
    decreases v@.len() - i,
{
    if i >= v.len() {
        return None;
    }
    let c = v[i];
    if c == '"' {
        Some((Vec::new(), i + 1))
    } else if c == '\\' {
        if i + 1 >= v.len() {
            return None;
        }
        let e = v[i + 1];
        let dec: Option<char> = if e == '"' {
            Some('"')
        } else if e == '\\' {
            Some('\\')
        } else if e == '/' {
            Some('/')
        } else if e == 'n' {
            Some('\n')
        } else if e == 'r' {
            Some('\r')
        } else if e == 't' {
            Some('\t')
        } else {
            None
        };
        match dec {
            None => None,
            Some(d) => {
                match p_jstr_body(v, i + 2) {
                    None => None,
                    Some((rest, j)) => {
                        let mut out: Vec<char> = Vec::new();
                        out.push(d);
                        let mut restm = rest;
                        out.append(&mut restm);
                        proof {
                            assert(out@ =~= seq![d] + jstr_body(v@, i as int + 2).unwrap().0);
                        }
                        Some((out, j))
                    },
                }
            },
        }
    } else {
        match p_jstr_body(v, i + 1) {
            None => None,
            Some((rest, j)) => {
                let mut out: Vec<char> = Vec::new();
                out.push(c);
                let mut restm = rest;
                out.append(&mut restm);
                proof {
                    assert(out@ =~= seq![v@[i as int]] + jstr_body(v@, i as int + 1).unwrap().0);
                }
                Some((out, j))
            },
        }
    }
}

/// A quoted string at `i`.
pub open spec fn p_string_spec(s: Seq<char>, i: int) -> Option<(Seq<char>, int)> {
    if 0 <= i < s.len() && s[i] == '"' {
        jstr_body(s, i + 1)
    } else {
        None
    }
}

fn p_string(v: &Vec<char>, i: usize) -> (r: Option<(Vec<char>, usize)>)
    requires
        i <= v@.len(),
    ensures
        match r {
            Some((cs, j)) => p_string_spec(v@, i as int) == Some((cs@, j as int)) && i < j
                <= v@.len(),
            None => p_string_spec(v@, i as int) is None,
        },
{
    if i < v.len() && v[i] == '"' {
        p_jstr_body(v, i + 1)
    } else {
        None
    }
}

pub open spec fn is_numch(c: char) -> bool {
    ('0' <= c && c <= '9') || c == '-' || c == '.'
}

/// The end of a run of numeric characters.
pub open spec fn num_end(s: Seq<char>, i: int) -> int
    decreases s.len() - i,
{
    if i < 0 {
        0
    } else if i >= s.len() {
        s.len() as int
    } else if is_numch(s[i]) {
        num_end(s, i + 1)
    } else {
        i
    }
}

fn p_num_end(v: &Vec<char>, i: usize) -> (r: usize)
    requires
        i <= v@.len(),
    ensures
        r as int == num_end(v@, i as int),
        i <= r <= v@.len(),
    decreases v@.len() - i,
{
    if i == v.len() {
        i
    } else {
        let c = v[i];
        if ('0' <= c && c <= '9') || c == '-' || c == '.' {
            p_num_end(v, i + 1)
        } else {
            i
        }
    }
}

/// Whether the literal `lit` stands at position `i`.
pub open spec fn lit_at(s: Seq<char>, i: int, lit: Seq<char>) -> bool {
    0 <= i && i + lit.len() <= s.len() && s.subrange(i, i + lit.len() as int) == lit
}

fn p_lit(v: &Vec<char>, i: usize, lit: &Vec<char>) -> (r: bool)
    requires
        i <= v@.len(),
    ensures
        r == lit_at(v@, i as int, lit@),
{
    if v.len() - i < lit.len() {
        proof {
            assert(!lit_at(v@, i as int, lit@));
        }
        return false;
    }
    proof {
        assert(i + lit@.len() <= v@.len());
    }
    let mut k: usize = 0;
    while k < lit.len()
        invariant
            k <= lit@.len(),
            i + lit@.len() <= v@.len(),
            v@.len() <= usize::MAX,
            forall|t: int| 0 <= t < k ==> v@[i + t] == lit@[t],
        decreases lit@.len() - k,
    {
        proof {
            assert(k < lit@.len());
            assert(i + k < v@.len());
        }
        if v[i + k] != lit[k] {
            proof {
                assert(v@.subrange(i as int, i + lit@.len() as int)[k as int] == v@[i + k]);
                assert(v@.subrange(i as int, i + lit@.len() as int) != lit@) by {
                    if v@.subrange(i as int, i + lit@.len() as int) == lit@ {
                        assert(v@.subrange(i as int, i + lit@.len() as int)[k as int]
                            == lit@[k as int]);
                    }
                }
            }
            return false;
        }
        k = k + 1;
    }
    proof {
        assert(v@.subrange(i as int, i + lit@.len() as int) =~= lit@);
    }
    true
}

/// One scalar value at `i`: a string, a number, `true`, `false` or `null`.
pub open spec fn p_scalar_spec(s: Seq<char>, i: int) -> Option<(ValueV, int)> {
    if lit_at(s, i, "true"@) {
        Some((ValueV::Bool(true), i + 4))
    } else if lit_at(s, i, "false"@) {
        Some((ValueV::Bool(false), i + 5))
    } else if lit_at(s, i, "null"@) {
        Some((ValueV::Null, i + 4))
    } else if 0 <= i < s.len() && s[i] == '"' {
        match p_string_spec(s, i) {
            None => None,
            Some((cs, j)) => Some((ValueV::Str(cs), j)),
        }
    } else {
        let e = num_end(s, i);
        if 0 <= i && e > i {
            match spec_parse_number(s.subrange(i, e)) {
                None => None,
                Some(val) => Some((val@, e)),
            }
        } else {
            None
        }
    }
}

fn p_scalar(v: &Vec<char>, i: usize) -> (r: Option<(Value, usize)>)
    requires
        i <= v@.len(),
    ensures
        match r {
            Some((val, j)) => p_scalar_spec(v@, i as int) == Some((val@, j as int)) && i < j
                <= v@.len(),
            None => p_scalar_spec(v@, i as int) is None,
        },
{
    let n = v.len();
    let t_lit = str_to_chars("true");
    let f_lit = str_to_chars("false");
    let n_lit = str_to_chars("null");
    proof {
        assert(v@.len() == n);
        reveal_strlit("true");
        reveal_strlit("false");
        reveal_strlit("null");
        assert(t_lit@.len() == 4);
        assert(f_lit@.len() == 5);
        assert(n_lit@.len() == 4);
    }
    if p_lit(v, i, &t_lit) {
        Some((Value::Bool(true), i + 4))
    } else if p_lit(v, i, &f_lit) {
        Some((Value::Bool(false), i + 5))
    } else if p_lit(v, i, &n_lit) {
        Some((Value::Null, i + 4))
    } else if i < v.len() && v[i] == '"' {
        match p_string(v, i) {
            None => None,
            Some((cs, j)) => {
                let s = chars_to_string(&cs);
                Some((Value::Str(s), j))
            },
        }
    } else {
        let e = p_num_end(v, i);
        if e > i {
            let mut tok: Vec<char> = Vec::new();
            let mut k: usize = i;
            while k < e
                invariant
                    i <= k <= e <= v@.len(),
                    tok@ =~= v@.subrange(i as int, k as int),
                decreases e - k,
            {
                tok.push(v[k]);
                proof {
                    assert(tok@ =~= v@.subrange(i as int, k as int + 1));
                }
                k = k + 1;
            }
            match parse_number(&tok) {
                None => None,
                Some(val) => Some((val, e)),
            }
        } else {
            None
        }
    }
}

/// The mathematical view of a parsed member list.
pub open spec fn pairs_v(ps: Seq<(Vec<char>, Value)>) -> Seq<(Seq<char>, ValueV)> {
    ps.map_values(|p: (Vec<char>, Value)| (p.0@, p.1@))
}

/// One `"key": value` member at `i`, leading blanks consumed.
pub open spec fn p_pair_spec(s: Seq<char>, i: int) -> Option<((Seq<char>, ValueV), int)> {
    let k = ws_end(s, i);
    match p_string_spec(s, k) {
        None => None,
        Some((key, j)) => {
            let j2 = ws_end(s, j);
            if j2 < s.len() && s[j2] == ':' {
                let j3 = ws_end(s, j2 + 1);
                match p_scalar_spec(s, j3) {
                    None => None,
                    Some((val, j4)) => Some(((key, val), j4)),
                }
            } else {
                None
            }
        },
    }
}

fn p_pair(v: &Vec<char>, i: usize) -> (r: Option<((Vec<char>, Value), usize)>)
    requires
        i <= v@.len(),
    ensures
        match r {
            Some((pv, j)) => p_pair_spec(v@, i as int) == Some(((pv.0@, pv.1@), j as int)) && i
                < j <= v@.len(),
            None => p_pair_spec(v@, i as int) is None,
        },
{
    let k = p_ws(v, i);
    match p_string(v, k) {
        None => None,
        Some((key, j)) => {
            let j2 = p_ws(v, j);
            if j2 < v.len() && v[j2] == ':' {
                let j3 = p_ws(v, j2 + 1);
                match p_scalar(v, j3) {
                    None => None,
                    Some((val, j4)) => Some(((key, val), j4)),
                }
            } else {
                None
            }
        },
    }
}

/// The members after one parsed pair, up to the closing brace.
pub open spec fn p_members_spec(s: Seq<char>, i: int) -> Option<
    (Seq<(Seq<char>, ValueV)>, int),
>
    decreases s.len() - i,
{
    let k = ws_end(s, i);
    if k < s.len() && s[k] == '}' {
        Some((Seq::empty(), k + 1))
    } else if k < s.len() && s[k] == ',' {
        match p_pair_spec(s, k + 1) {
            None => None,
            Some((pv, j)) => {
                if j <= i || j > s.len() {
                    None
                } else {
                    match p_members_spec(s, j) {
                        None => None,
                        Some((rest, j2)) => Some((seq![pv] + rest, j2)),
                    }
                }
            },
        }
    } else {
        None
    }
}

fn p_members(v: &Vec<char>, i: usize) -> (r: Option<(Vec<(Vec<char>, Value)>, usize)>)
    requires
        i <= v@.len(),
    ensures
        match r {
            Some((ps, j)) => p_members_spec(v@, i as int) == Some((pairs_v(ps@), j as int)) && i
                < j <= v@.len(),
            None => p_members_spec(v@, i as int) is None,
        },
    decreases v@.len() - i,
{
    let k = p_ws(v, i);
    if k < v.len() && v[k] == '}' {
        proof {
            assert(pairs_v(Seq::<(Vec<char>, Value)>::empty()) =~= Seq::<
                (Seq<char>, ValueV),
            >::empty());
        }
        Some((Vec::new(), k + 1))
    } else if k < v.len() && v[k] == ',' {
        match p_pair(v, k + 1) {
            None => None,
            Some((pv, j)) => {
                if j <= i {
                    return None;
                }
                match p_members(v, j) {
                    None => None,
                    Some((rest, j2)) => {
                        let mut out: Vec<(Vec<char>, Value)> = Vec::new();
                        let ghost pvv = (pv.0@, pv.1@);
                        out.push(pv);
                        let ghost restv = rest@;
                        let mut restm = rest;
                        out.append(&mut restm);
                        proof {
                            assert(pairs_v(out@) =~= seq![pvv] + pairs_v(restv));
                        }
                        Some((out, j2))
                    },
                }
            },
        }
    } else {
        None
    }
}

/// One whole object at `i`, leading blanks consumed.
pub open spec fn p_object_spec(s: Seq<char>, i: int) -> Option<(Seq<(Seq<char>, ValueV)>, int)> {
    let k = ws_end(s, i);
    if k < s.len() && s[k] == '{' {
        let k2 = ws_end(s, k + 1);
        if k2 < s.len() && s[k2] == '}' {
            Some((Seq::empty(), k2 + 1))
        } else {
            match p_pair_spec(s, k + 1) {
                None => None,
                Some((pv, j)) => {
                    if j < 0 || j > s.len() {
                        None
                    } else {
                        match p_members_spec(s, j) {
                            None => None,
                            Some((rest, j2)) => Some((seq![pv] + rest, j2)),
                        }
                    }
                },
            }
        }
    } else {
        None
    }
}

fn p_object(v: &Vec<char>, i: usize) -> (r: Option<(Vec<(Vec<char>, Value)>, usize)>)
    requires
        i <= v@.len(),
    ensures
        match r {
            Some((ps, j)) => p_object_spec(v@, i as int) == Some((pairs_v(ps@), j as int)) && i
                < j <= v@.len(),
            None => p_object_spec(v@, i as int) is None,
        },
{
    let k = p_ws(v, i);
    if k < v.len() && v[k] == '{' {
        let k2 = p_ws(v, k + 1);
        if k2 < v.len() && v[k2] == '}' {
            proof {
                assert(pairs_v(Seq::<(Vec<char>, Value)>::empty()) =~= Seq::<
                    (Seq<char>, ValueV),
                >::empty());
            }
            Some((Vec::new(), k2 + 1))
        } else {
            match p_pair(v, k + 1) {
                None => None,
                Some((pv, j)) => {
                    match p_members(v, j) {
                        None => None,
                        Some((rest, j2)) => {
                            let mut out: Vec<(Vec<char>, Value)> = Vec::new();
                            let ghost pvv = (pv.0@, pv.1@);
                            out.push(pv);
                            let ghost restv = rest@;
                            let mut restm = rest;
                            out.append(&mut restm);
                            proof {
                                assert(pairs_v(out@) =~= seq![pvv] + pairs_v(restv));
                            }
                            Some((out, j2))
                        },
                    }
                },
            }
        }
    } else {
        None
    }
}

/// The view of a parsed object list.
pub open spec fn objs_v(os: Seq<Vec<(Vec<char>, Value)>>) -> Seq<Seq<(Seq<char>, ValueV)>> {
    os.map_values(|o: Vec<(Vec<char>, Value)>| pairs_v(o@))
}

/// The elements after one parsed object, up to the closing bracket.
pub open spec fn p_elems_spec(s: Seq<char>, i: int) -> Option<
    (Seq<Seq<(Seq<char>, ValueV)>>, int),
>
    decreases s.len() - i,
{
    let k = ws_end(s, i);
    if k < s.len() && s[k] == ']' {
        Some((Seq::empty(), k + 1))
    } else if k < s.len() && s[k] == ',' {
        match p_object_spec(s, k + 1) {
            None => None,
            Some((obj, j)) => {
                if j <= i || j > s.len() {
                    None
                } else {
                    match p_elems_spec(s, j) {
                        None => None,
                        Some((rest, j2)) => Some((seq![obj] + rest, j2)),
                    }
                }
            },
        }
    } else {
        None
    }
}

fn p_elems(v: &Vec<char>, i: usize) -> (r: Option<(Vec<Vec<(Vec<char>, Value)>>, usize)>)
    requires
        i <= v@.len(),
    ensures
        match r {
            Some((os, j)) => p_elems_spec(v@, i as int) == Some((objs_v(os@), j as int)) && i < j
                <= v@.len(),
            None => p_elems_spec(v@, i as int) is None,
        },
    decreases v@.len() - i,
{
    let k = p_ws(v, i);
    if k < v.len() && v[k] == ']' {
        proof {
            assert(objs_v(Seq::<Vec<(Vec<char>, Value)>>::empty()) =~= Seq::<
                Seq<(Seq<char>, ValueV)>,
            >::empty());
        }
        Some((Vec::new(), k + 1))
    } else if k < v.len() && v[k] == ',' {
        match p_object(v, k + 1) {
            None => None,
            Some((obj, j)) => {
                if j <= i {
                    return None;
                }
                match p_elems(v, j) {
                    None => None,
                    Some((rest, j2)) => {
                        let mut out: Vec<Vec<(Vec<char>, Value)>> = Vec::new();
                        let ghost objv = pairs_v(obj@);
                        out.push(obj);
                        let ghost restv = rest@;
                        let mut restm = rest;
                        out.append(&mut restm);
                        proof {
                            assert(objs_v(out@) =~= seq![objv] + objs_v(restv));
                        }
                        Some((out, j2))
                    },
                }
            },
        }
    } else {
        None
    }
}

/// A whole document: one array of flat objects, nothing after it.
pub open spec fn p_array_spec(s: Seq<char>) -> Option<Seq<Seq<(Seq<char>, ValueV)>>> {
    let k = ws_end(s, 0);
    if k < s.len() && s[k] == '[' {
        let k2 = ws_end(s, k + 1);
        if k2 < s.len() && s[k2] == ']' {
            if ws_end(s, k2 + 1) == s.len() {
                Some(Seq::empty())
            } else {
                None
            }
        } else {
            match p_object_spec(s, k + 1) {
                None => None,
                Some((obj, j)) => {
                    if j < 0 || j > s.len() {
                        None
                    } else {
                        match p_elems_spec(s, j) {
                            None => None,
                            Some((rest, j2)) => {
                                if ws_end(s, j2) == s.len() {
                                    Some(seq![obj] + rest)
                                } else {
                                    None
                                }
                            },
                        }
                    }
                },
            }
        }
    } else {
        None
    }
}

fn p_array(v: &Vec<char>) -> (r: Option<Vec<Vec<(Vec<char>, Value)>>>)
    ensures
        match r {
            Some(os) => p_array_spec(v@) == Some(objs_v(os@)),
            None => p_array_spec(v@) is None,
        },
{
    let k = p_ws(v, 0);
    if k < v.len() && v[k] == '[' {
        let k2 = p_ws(v, k + 1);
        if k2 < v.len() && v[k2] == ']' {
            if p_ws(v, k2 + 1) == v.len() {
                proof {
                    assert(objs_v(Seq::<Vec<(Vec<char>, Value)>>::empty()) =~= Seq::<
                        Seq<(Seq<char>, ValueV)>,
                    >::empty());
                }
                Some(Vec::new())
            } else {
                None
            }
        } else {
            match p_object(v, k + 1) {
                None => None,
                Some((obj, j)) => {
                    match p_elems(v, j) {
                        None => None,
                        Some((rest, j2)) => {
                            if p_ws(v, j2) == v.len() {
                                let mut out: Vec<Vec<(Vec<char>, Value)>> = Vec::new();
                                let ghost objv = pairs_v(obj@);
                                out.push(obj);
                                let ghost restv = rest@;
                                let mut restm = rest;
                                out.append(&mut restm);
                                proof {
                                    assert(objs_v(out@) =~= seq![objv] + objs_v(restv));
                                }
                                Some(out)
                            } else {
                                None
                            }
                        },
                    }
                },
            }
        }
    } else {
        None
    }
}

/// The value of the first member with this key; a missing key is null.
pub open spec fn obj_get(obj: Seq<(Seq<char>, ValueV)>, key: Seq<char>) -> ValueV
    decreases obj.len(),
{
    if obj.len() == 0 {
        ValueV::Null
    } else if obj[0].0 == key {
        obj[0].1
    } else {
        obj_get(obj.drop_first(), key)
    }
}

proof fn lemma_obj_get_at(obj: Seq<(Seq<char>, ValueV)>, key: Seq<char>, t: int)
    requires
        0 <= t <= obj.len(),
        forall|k: int| 0 <= k < t ==> obj[k].0 != key,
        t < obj.len() ==> obj[t].0 == key,
    ensures
        t < obj.len() ==> obj_get(obj, key) == obj[t].1,
        t == obj.len() ==> obj_get(obj, key) == ValueV::Null,
    decreases obj.len(),
{
    if obj.len() > 0 {
        if obj[0].0 == key {
        } else {
            assert(forall|k: int| 0 <= k < t - 1 ==> obj.drop_first()[k] == obj[k + 1]);
            lemma_obj_get_at(obj.drop_first(), key, if t == 0 {
                0
            } else {
                t - 1
            });
        }
    }
}

fn obj_get_exec(obj: &Vec<(Vec<char>, Value)>, key: &Vec<char>) -> (r: Value)
    ensures
        r@ == obj_get(pairs_v(obj@), key@),
{
    let mut t: usize = 0;
    while t < obj.len()
        invariant
            t <= obj@.len(),
            forall|k: int| 0 <= k < t ==> pairs_v(obj@)[k].0 != key@,
        decreases obj@.len() - t,
    {
        if chars_eq(&obj[t].0, key) {
            proof {
                assert(pairs_v(obj@)[t as int].0 == obj@[t as int].0@);
                lemma_obj_get_at(pairs_v(obj@), key@, t as int);
            }
            return crate::value::clone_value(&obj[t].1);
        }
        proof {
            assert(pairs_v(obj@)[t as int].0 == obj@[t as int].0@);
        }
        t = t + 1;
    }
    proof {
        lemma_obj_get_at(pairs_v(obj@), key@, pairs_v(obj@).len() as int);
    }
    Value::Null
}

/// The column list grown by one object's keys, first seen first, no
/// duplicates.
pub open spec fn add_keys(cols: Seq<Seq<char>>, obj: Seq<(Seq<char>, ValueV)>) -> Seq<Seq<char>>
    decreases obj.len(),
{
    if obj.len() == 0 {
        cols
    } else {
        let cols2 = if spec_col_index(cols, obj[0].0) >= 0 {
            cols
        } else {
            cols.push(obj[0].0)
        };
        add_keys(cols2, obj.drop_first())
    }
}

/// The schema sampled from the first rows.
pub open spec fn schema_rec(objs: Seq<Seq<(Seq<char>, ValueV)>>, n: int) -> Seq<Seq<char>>
    decreases n,
{
    if n <= 0 {
        Seq::empty()
    } else {
        add_keys(schema_rec(objs, n - 1), objs[n - 1])
    }
}

/// The number of leading rows the schema is sampled from.
pub open spec fn spec_sample_len(n: int) -> int {
    if n > 4 {
        4
    } else {
        n
    }
}

/// The column each cell comes from, per row.
pub open spec fn json_rows(cols: Seq<Seq<char>>, objs: Seq<Seq<(Seq<char>, ValueV)>>) -> Seq<
    Seq<ValueV>,
> {
    objs.map_values(
        |obj: Seq<(Seq<char>, ValueV)>| Seq::new(cols.len(), |c: int| obj_get(obj, cols[c])),
    )
}

/// What decoding a JSON text yields: the sampled schema and one row per
/// object, or nothing when the text is not an array of flat objects.
pub open spec fn spec_decode_json(text: Seq<char>) -> Option<(Seq<Seq<char>>, Seq<Seq<ValueV>>)> {
    match p_array_spec(text) {
        None => None,
        Some(objs) => {
            let cols = schema_rec(objs, spec_sample_len(objs.len() as int));
            Some((cols, json_rows(cols, objs)))
        },
    }
}

/// The first column with this name in a header under construction.
fn find_col(cols: &Vec<String>, key: &Vec<char>) -> (r: Option<usize>)
    ensures
        match r {
            Some(i) => spec_col_index(cols.deep_view(), key@) == i,
            None => spec_col_index(cols.deep_view(), key@) == -1,
        },
{
    let mut t: usize = 0;
    proof {
        assert(cols.deep_view().len() == cols@.len());
    }
    while t < cols.len()
        invariant
            t <= cols@.len(),
            cols.deep_view().len() == cols@.len(),
            forall|k: int| 0 <= k < t ==> cols.deep_view()[k] != key@,
        decreases cols@.len() - t,
    {
        let cc = str_to_chars(cols[t].as_str());
        if chars_eq(&cc, key) {
            proof {
                assert(cols.deep_view()[t as int] == cols@[t as int]@);
                crate::execute::lemma_spec_col_index(cols.deep_view(), key@, t as int);
            }
            return Some(t);
        }
        proof {
            assert(cols.deep_view()[t as int] == cols@[t as int]@);
        }
        t = t + 1;
    }
    proof {
        crate::execute::lemma_spec_col_index(cols.deep_view(), key@, cols.deep_view().len() as int);
    }
    None
}

/// Grow the header by one object's keys.
fn add_keys_exec(cols: &mut Vec<String>, obj: &Vec<(Vec<char>, Value)>)
    ensures
        final(cols).deep_view() == add_keys(old(cols).deep_view(), pairs_v(obj@)),
{
    let ghost orig = old(cols).deep_view();
    let ghost objv = pairs_v(obj@);
    let mut t: usize = 0;
    proof {
        assert(objv.skip(0) =~= objv);
    }
    while t < obj.len()
        invariant
            t <= obj@.len(),
            objv == pairs_v(obj@),
            add_keys(orig, objv) == add_keys(cols.deep_view(), objv.skip(t as int)),
        decreases obj@.len() - t,
    {
        proof {
            assert(objv.skip(t as int)[0] == objv[t as int]);
            assert(objv[t as int].0 == obj@[t as int].0@);
            assert(objv.skip(t as int).drop_first() =~= objv.skip(t as int + 1));
        }
        match find_col(cols, &obj[t].0) {
            Some(_) => {},
            None => {
                let ghost prev = *cols;
                let name = chars_to_string(&obj[t].0);
                cols.push(name);
                proof {
                    assert(prev.deep_view().len() == prev@.len());
                    assert(cols.deep_view().len() == cols@.len());
                    assert(cols.deep_view() =~= prev.deep_view().push(obj@[t as int].0@)) by {
                        assert forall|k: int| 0 <= k < cols@.len() implies cols.deep_view()[k]
                            == prev.deep_view().push(obj@[t as int].0@)[k] by {
                            assert(cols.deep_view()[k] == cols@[k]@);
                            if k < prev@.len() {
                                assert(cols@[k] == prev@[k]);
                                assert(prev.deep_view()[k] == prev@[k]@);
                            }
                        }
                    }
                }
            },
        }
        t = t + 1;
    }
    proof {
        assert(objv.skip(objv.len() as int).len() == 0);
    }
}

/// Decode one JSON text: an array of flat objects, its schema sampled from
/// the first four, each missing member a null.
pub fn decode_json(text: &str) -> (r: Result<DataSet, QueryError>)
    ensures
        match spec_decode_json(text@) {
            Some((cols, rowsv)) => r matches Ok(ds) && ds.wf() && ds.spec_cols() == cols
                && ds.spec_rows().map_values(|row: Seq<Value>| crate::execute::row_v(row))
                == rowsv,
            None => r matches Err(e) && e is Content,
        },
{
    let v = str_to_chars(text);
    let objs = match p_array(&v) {
        None => {
            return Err(QueryError::Content("malformed json content".to_owned()));
        },
        Some(os) => os,
    };
    let ghost ov = objs_v(objs@);
    // sample the schema
    let sample: usize = if objs.len() > 4 {
        4
    } else {
        objs.len()
    };
    let mut cols: Vec<String> = Vec::new();
    let mut t: usize = 0;
    proof {
        assert(cols.deep_view() =~= schema_rec(ov, 0));
    }
    while t < sample
        invariant
            t <= sample,
            sample == spec_sample_len(ov.len() as int),
            sample <= objs@.len(),
            ov == objs_v(objs@),
            cols.deep_view() == schema_rec(ov, t as int),
        decreases sample - t,
    {
        proof {
            assert(ov[t as int] == pairs_v(objs@[t as int]@));
        }
        add_keys_exec(&mut cols, &objs[t]);
        t = t + 1;
    }
    let ghost colsv = cols.deep_view();
    // one row per object, in column order
    let mut rows: Vec<Vec<Value>> = Vec::new();
    let mut i: usize = 0;
    while i < objs.len()
        invariant
            i <= objs@.len(),
            ov == objs_v(objs@),
            colsv == cols.deep_view(),
            colsv.len() == cols@.len(),
            rows@.map_values(|row: Vec<Value>| crate::execute::row_v(row@)) =~= json_rows(
                colsv,
                ov,
            ).take(i as int),
            forall|k: int| 0 <= k < rows@.len() ==> (#[trigger] rows@[k])@.len() == colsv.len(),
        decreases objs@.len() - i,
    {
        let obj = &objs[i];
        let mut row: Vec<Value> = Vec::new();
        let mut c: usize = 0;
        proof {
            assert(ov[i as int] == pairs_v(objs@[i as int]@));
        }
        while c < cols.len()
            invariant
                c <= cols@.len(),
                ov == objs_v(objs@),
                i < objs@.len(),
                colsv == cols.deep_view(),
                colsv.len() == cols@.len(),
                pairs_v(obj@) == ov[i as int],
                row@.len() == c,
                forall|k: int| 0 <= k < c ==> (#[trigger] row@[k])@ == obj_get(
                    ov[i as int],
                    colsv[k],
                ),
            decreases cols@.len() - c,
        {
            let key = str_to_chars(cols[c].as_str());
            proof {
                assert(colsv[c as int] == cols@[c as int]@);
            }
            let cell = obj_get_exec(obj, &key);
            row.push(cell);
            c = c + 1;
        }
        let ghost prevrows = rows@;
        rows.push(row);
        proof {
            let m = rows@.map_values(|row: Vec<Value>| crate::execute::row_v(row@));
            let pm = prevrows.map_values(|row: Vec<Value>| crate::execute::row_v(row@));
            assert(pm.len() == prevrows.len());
            assert(rows@.len() == prevrows.len() + 1);
            assert(m.len() == rows@.len());
            let target = json_rows(colsv, ov).take(i as int + 1);
            assert forall|k: int| 0 <= k < m.len() implies m[k] == target[k] by {
                assert(m[k] == crate::execute::row_v(rows@[k]@));
                assert(target[k] == json_rows(colsv, ov)[k]);
                if k < prevrows.len() {
                    assert(rows@[k] == prevrows[k]);
                    assert(pm[k] == crate::execute::row_v(prevrows[k]@));
                } else {
                    assert(crate::execute::row_v(rows@[k]@) =~= Seq::new(
                        colsv.len(),
                        |c: int| obj_get(ov[i as int], colsv[c]),
                    )) by {
                        assert forall|c: int|
                            0 <= c < colsv.len() implies crate::execute::row_v(rows@[k]@)[c]
                            == obj_get(ov[i as int], colsv[c]) by {
                            assert(crate::execute::row_v(rows@[k]@)[c] == rows@[k]@[c]@);
                        }
                    }
                }
            }
            assert(m =~= target);
        }
        i = i + 1;
    }
    proof {
        assert(json_rows(colsv, ov).take(ov.len() as int) =~= json_rows(colsv, ov));
    }
    match DataSet::new(cols, rows) {
        Ok(ds) => Ok(ds),
        Err(()) => {
            proof {
                assert(false);
            }
            Err(QueryError::Content("malformed json content".to_owned()))
        },
    }
}

} // verus!
