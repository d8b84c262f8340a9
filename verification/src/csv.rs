//! The CSV decoder: a header line and comma-separated records become a
//! dataset. A field may be quoted: it then runs to the closing quote, a
//! doubled quote stands for a literal one, and commas inside it are kept;
//! a quoted field does not span lines. Column types are inferred by
//! sampling the first sixteen records: a column whose sampled fields all
//! read as numbers is numeric, else all booleans boolean, else text; a
//! field that does not fit its column, and every empty field, decodes to
//! null.
use vstd::prelude::*;

use crate::chars::{chars_eq, chars_to_string, str_to_chars, subvec};
use crate::dataset::DataSet;
use crate::errors::QueryError;
use crate::numlit::{find_char, parse_number, spec_parse_number};
use crate::value::{Value, ValueV};

verus! {

/// The pieces of `s` between occurrences of `sep`; always at least one.
pub open spec fn split_on(s: Seq<char>, sep: char) -> Seq<Seq<char>>
    decreases s.len(),
{
    let d = find_char(s, sep);
    if d < 0 || d >= s.len() {
        seq![s]
    } else {
        seq![s.take(d)] + split_on(s.skip(d + 1), sep)
    }
}

/// The view of an executable piece list.
pub open spec fn pieces_v(ps: Seq<Vec<char>>) -> Seq<Seq<char>> {
    ps.map_values(|p: Vec<char>| p@)
}

/// Split a character vector on a separator.
pub(crate) fn split_on_exec(v: &Vec<char>, sep: char) -> (r: Vec<Vec<char>>)
    ensures
        pieces_v(r@) == split_on(v@, sep),
{
    let mut out: Vec<Vec<char>> = Vec::new();
    let mut pos: usize = 0;
    proof {
        assert(v@.skip(0) =~= v@);
    }
    loop
        invariant
            pos <= v@.len(),
            split_on(v@, sep) =~= pieces_v(out@) + split_on(v@.skip(pos as int), sep),
        decreases v@.len() - pos + 1,
    {
        let ghost rest = v@.skip(pos as int);
        let mut j: usize = pos;
        while j < v.len() && v[j] != sep
            invariant
                pos <= j <= v@.len(),
                forall|k: int| pos <= k < j ==> v@[k] != sep,
            decreases v@.len() - j,
        {
            j = j + 1;
        }
        proof {
            assert(forall|k: int| 0 <= k < j - pos ==> rest[k] == v@[k + pos]);
            crate::numlit::lemma_find_char(rest, sep, j - pos);
        }
        let piece = subvec(v, pos, j);
        let ghost prevout = out@;
        out.push(piece);
        proof {
            let m = pieces_v(out@);
            let pm = pieces_v(prevout);
            assert(pm.len() == prevout.len());
            assert(m.len() == out@.len());
            assert forall|k: int| 0 <= k < m.len() implies m[k] == (pm.push(
                v@.subrange(pos as int, j as int),
            ))[k] by {
                assert(m[k] == out@[k]@);
                if k < prevout.len() {
                    assert(out@[k] == prevout[k]);
                    assert(pm[k] == prevout[k]@);
                }
            }
            assert(m =~= pm.push(v@.subrange(pos as int, j as int)));
        }
        if j == v.len() {
            proof {
                assert(find_char(rest, sep) == -1);
                assert(split_on(rest, sep) =~= seq![rest]);
                assert(rest =~= v@.subrange(pos as int, j as int));
                assert(split_on(v@, sep) =~= pieces_v(out@));
            }
            return out;
        }
        proof {
            assert(v@[j as int] == sep);
            assert(find_char(rest, sep) == j - pos);
            assert(rest.take(j - pos) =~= v@.subrange(pos as int, j as int));
            assert(rest.skip(j - pos + 1) =~= v@.skip(j as int + 1));
            assert(split_on(rest, sep) =~= seq![rest.take(j - pos)] + split_on(
                v@.skip(j as int + 1),
                sep,
            ));
            assert(split_on(v@, sep) =~= pieces_v(out@) + split_on(v@.skip(j as int + 1), sep));
        }
        pos = j + 1;
    }
}

/// A line with a trailing carriage return removed.
pub open spec fn strip_cr(line: Seq<char>) -> Seq<char> {
    if line.len() > 0 && line.last() == '\r' {
        line.drop_last()
    } else {
        line
    }
}

/// The logical lines of a CSV text: split on newlines, a final empty piece
/// dropped, carriage returns stripped.
pub open spec fn csv_lines_of(text: Seq<char>) -> Seq<Seq<char>> {
    let raw = split_on(text, '\n');
    let raw2 = if raw.len() > 0 && raw.last().len() == 0 {
        raw.drop_last()
    } else {
        raw
    };
    raw2.map_values(|l: Seq<char>| strip_cr(l))
}

fn csv_lines_exec(v: &Vec<char>) -> (r: Vec<Vec<char>>)
    ensures
        pieces_v(r@) == csv_lines_of(v@),
{
    let mut raw = split_on_exec(v, '\n');
    let ghost rawv = pieces_v(raw@);
    if raw.len() > 0 && raw[raw.len() - 1].len() == 0 {
        proof {
            assert(rawv.last() == raw@.last()@);
        }
        let _ = raw.pop();
        proof {
            assert(pieces_v(raw@) =~= rawv.drop_last());
        }
    }
    let ghost raw2 = pieces_v(raw@);
    let mut out: Vec<Vec<char>> = Vec::new();
    let mut i: usize = 0;
    while i < raw.len()
        invariant
            i <= raw@.len(),
            raw2 == pieces_v(raw@),
            pieces_v(out@) =~= raw2.take(i as int).map_values(|l: Seq<char>| strip_cr(l)),
        decreases raw@.len() - i,
    {
        let line = &raw[i];
        let stripped: Vec<char> = if line.len() > 0 && line[line.len() - 1] == '\r' {
            subvec(line, 0, line.len() - 1)
        } else {
            subvec(line, 0, line.len())
        };
        proof {
            assert(raw2[i as int] == raw@[i as int]@);
            assert(stripped@ =~= strip_cr(raw2[i as int]));
        }
        let ghost prevout = out@;
        out.push(stripped);
        proof {
            let m = pieces_v(out@);
            let pm = pieces_v(prevout);
            assert(pm.len() == prevout.len());
            assert(m.len() == out@.len());
            assert forall|k: int| 0 <= k < m.len() implies m[k] == raw2.take(
                i as int + 1,
            ).map_values(|l: Seq<char>| strip_cr(l))[k] by {
                assert(m[k] == out@[k]@);
                if k < prevout.len() {
                    assert(out@[k] == prevout[k]);
                    assert(pm[k] == prevout[k]@);
                }
            }
            assert(m =~= raw2.take(i as int + 1).map_values(|l: Seq<char>| strip_cr(l)));
        }
        i = i + 1;
    }
    proof {
        assert(raw2.take(raw2.len() as int) =~= raw2);
    }
    out
}

/// The end of an unquoted field: the next comma, or the line's end.
pub open spec fn bare_end(s: Seq<char>, i: int) -> int
    decreases s.len() - i,
{
    if i < 0 {
        0
    } else if i >= s.len() {
        s.len() as int
    } else if s[i] != ',' {
        bare_end(s, i + 1)
    } else {
        i
    }
}

fn p_bare_end(v: &Vec<char>, i: usize) -> (r: usize)
    requires
        i <= v@.len(),
    ensures
        r as int == bare_end(v@, i as int),
        i <= r <= v@.len(),
    decreases v@.len() - i,
{
    if i == v.len() {
        i
    } else if v[i] != ',' {
        p_bare_end(v, i + 1)
    } else {
        i
    }
}

/// The body of a quoted field from `i` to its closing quote: the decoded
/// characters and the position after the quote, which must end the line or
/// sit on a comma; a doubled quote decodes to one literal quote. An
/// unterminated quote, or trailing text after the closing one, is nothing.
pub open spec fn p_quoted(s: Seq<char>, i: int) -> Option<(Seq<char>, int)>
    decreases s.len() - i,
{
    if i < 0 || i >= s.len() {
        None
    } else if s[i] == '"' {
        if i + 1 < s.len() && s[i + 1] == '"' {
            match p_quoted(s, i + 2) {
                None => None,
                Some((rest, j)) => Some((seq!['"'] + rest, j)),
            }
        } else if i + 1 == s.len() || s[i + 1] == ',' {
            Some((Seq::empty(), i + 1))
        } else {
            None
        }
    } else {
        match p_quoted(s, i + 1) {
            None => None,
            Some((rest, j)) => Some((seq![s[i]] + rest, j)),
        }
    }
}

fn p_quoted_exec(v: &Vec<char>, i: usize) -> (r: Option<(Vec<char>, usize)>)
    requires
        i <= v@.len(),
    ensures
        match r {
            Some((cs, j)) => p_quoted(v@, i as int) == Some((cs@, j as int)) && i < j
                <= v@.len(),
            None => p_quoted(v@, i as int) is None,
        },
    decreases v@.len() - i,
{
    if i >= v.len() {
        return None;
    }
    let c = v[i];
    if c == '"' {
        if i + 1 < v.len() && v[i + 1] == '"' {
            match p_quoted_exec(v, i + 2) {
                None => None,
                Some((rest, j)) => {
                    let mut out: Vec<char> = Vec::new();
                    out.push('"');
                    let mut restm = rest;
                    out.append(&mut restm);
                    proof {
                        assert(out@ =~= seq!['"'] + p_quoted(v@, i as int + 2).unwrap().0);
                    }
                    Some((out, j))
                },
            }
        } else if i + 1 == v.len() || v[i + 1] == ',' {
            Some((Vec::new(), i + 1))
        } else {
            None
        }
    } else {
        match p_quoted_exec(v, i + 1) {
            None => None,
            Some((rest, j)) => {
                let mut out: Vec<char> = Vec::new();
                out.push(c);
                let mut restm = rest;
                out.append(&mut restm);
                proof {
                    assert(out@ =~= seq![v@[i as int]] + p_quoted(v@, i as int + 1).unwrap().0);
                }
                Some((out, j))
            },
        }
    }
}

/// One field at `i`: quoted when it opens with a quote, else the run up to
/// the next comma; beside the field, the position of that comma or of the
/// line's end.
pub open spec fn p_field(s: Seq<char>, i: int) -> Option<(Seq<char>, int)> {
    if 0 <= i < s.len() && s[i] == '"' {
        p_quoted(s, i + 1)
    } else {
        let e = bare_end(s, i);
        if 0 <= i <= e {
            Some((s.subrange(i, e), e))
        } else {
            None
        }
    }
}

fn p_field_exec(v: &Vec<char>, i: usize) -> (r: Option<(Vec<char>, usize)>)
    requires
        i <= v@.len(),
    ensures
        match r {
            Some((cs, j)) => p_field(v@, i as int) == Some((cs@, j as int)) && i <= j
                <= v@.len(),
            None => p_field(v@, i as int) is None,
        },
{
    if i < v.len() && v[i] == '"' {
        p_quoted_exec(v, i + 1)
    } else {
        let e = p_bare_end(v, i);
        Some((subvec(v, i, e), e))
    }
}

/// The comma-separated fields of one line; nothing when a quote is
/// malformed. Always at least one field.
pub open spec fn p_fields(s: Seq<char>, i: int) -> Option<Seq<Seq<char>>>
    decreases s.len() - i,
{
    if i < 0 || i > s.len() {
        None
    } else {
        match p_field(s, i) {
            None => None,
            Some((f, j)) => {
                if j >= s.len() {
                    Some(seq![f])
                } else if s[j] == ',' && j >= i {
                    match p_fields(s, j + 1) {
                        None => None,
                        Some(rest) => Some(seq![f] + rest),
                    }
                } else {
                    None
                }
            },
        }
    }
}

fn p_fields_exec(v: &Vec<char>, i: usize) -> (r: Option<Vec<Vec<char>>>)
    requires
        i <= v@.len(),
    ensures
        match r {
            Some(fs) => p_fields(v@, i as int) == Some(pieces_v(fs@)),
            None => p_fields(v@, i as int) is None,
        },
    decreases v@.len() - i,
{
    match p_field_exec(v, i) {
        None => None,
        Some((f, j)) => {
            if j >= v.len() {
                let mut out: Vec<Vec<char>> = Vec::new();
                let ghost fv = f@;
                out.push(f);
                proof {
                    assert(pieces_v(out@) =~= seq![fv]);
                }
                Some(out)
            } else if v[j] == ',' {
                match p_fields_exec(v, j + 1) {
                    None => None,
                    Some(rest) => {
                        let mut out: Vec<Vec<char>> = Vec::new();
                        let ghost fv = f@;
                        out.push(f);
                        let ghost restv = rest@;
                        let mut restm = rest;
                        out.append(&mut restm);
                        proof {
                            assert(pieces_v(out@) =~= seq![fv] + pieces_v(restv));
                        }
                        Some(out)
                    },
                }
            } else {
                None
            }
        },
    }
}

/// The fields of every record, in order; nothing when any record has a
/// malformed quote.
pub open spec fn rows_fields(ls: Seq<Seq<char>>) -> Option<Seq<Seq<Seq<char>>>>
    decreases ls.len(),
{
    if ls.len() == 0 {
        Some(Seq::empty())
    } else {
        match rows_fields(ls.drop_last()) {
            None => None,
            Some(rs) => match p_fields(ls.last(), 0) {
                None => None,
                Some(fs) => Some(rs.push(fs)),
            },
        }
    }
}

/// A parse of every record assembles into the record list.
proof fn lemma_rows_fields_of(ls: Seq<Seq<char>>, rss: Seq<Seq<Seq<char>>>)
    requires
        ls.len() == rss.len(),
        forall|k: int| 0 <= k < ls.len() ==> p_fields(#[trigger] ls[k], 0) == Some(rss[k]),
    ensures
        rows_fields(ls) == Some(rss),
    decreases ls.len(),
{
    if ls.len() > 0 {
        assert(forall|k: int| 0 <= k < ls.len() - 1 ==> ls.drop_last()[k] == ls[k]);
        lemma_rows_fields_of(ls.drop_last(), rss.drop_last());
        assert(ls[ls.len() - 1] == ls.last());
        assert(rows_fields(ls) == Some(rss.drop_last().push(rss.last())));
        assert(rss.drop_last().push(rss.last()) =~= rss);
    }
}

/// One malformed record spoils the record list.
proof fn lemma_rows_fields_none(ls: Seq<Seq<char>>, t: int)
    requires
        0 <= t < ls.len(),
        p_fields(ls[t], 0) is None,
    ensures
        rows_fields(ls) is None,
    decreases ls.len(),
{
    if ls.len() > 0 && !(rows_fields(ls.drop_last()) is None) {
        if t < ls.len() - 1 {
            assert(ls.drop_last()[t] == ls[t]);
            lemma_rows_fields_none(ls.drop_last(), t);
        } else {
            assert(ls[t] == ls.last());
        }
    }
}

/// A column's kind, inferred from the sampled records.
#[derive(Debug, Clone, Copy, PartialEq, Eq, Structural)]
pub enum ColTy {
    Numeric,
    Boolean,
    Text,
}

pub open spec fn is_bool_field(f: Seq<char>) -> bool {
    f == "true"@ || f == "false"@
}

/// Whether the first `n` sampled fields of column `c` are all empty or
/// numeric.
pub open spec fn all_num(rows: Seq<Seq<Seq<char>>>, c: int, n: int) -> bool
    decreases n,
{
    if n <= 0 {
        true
    } else {
        (rows[n - 1][c].len() == 0 || spec_parse_number(rows[n - 1][c]) is Some) && all_num(
            rows,
            c,
            n - 1,
        )
    }
}

/// Whether the first `n` sampled fields of column `c` are all empty or
/// boolean.
pub open spec fn all_bool(rows: Seq<Seq<Seq<char>>>, c: int, n: int) -> bool
    decreases n,
{
    if n <= 0 {
        true
    } else {
        (rows[n - 1][c].len() == 0 || is_bool_field(rows[n - 1][c])) && all_bool(rows, c, n - 1)
    }
}

/// How many leading records the inference samples.
pub open spec fn csv_sample_len(n: int) -> int {
    if n > 16 {
        16
    } else {
        n
    }
}

/// The inferred kind of column `c`.
pub open spec fn col_ty(rows: Seq<Seq<Seq<char>>>, c: int) -> ColTy {
    let n = csv_sample_len(rows.len() as int);
    if all_num(rows, c, n) {
        ColTy::Numeric
    } else if all_bool(rows, c, n) {
        ColTy::Boolean
    } else {
        ColTy::Text
    }
}

/// The cell one field decodes to under its column's kind.
pub open spec fn cell_of(ty: ColTy, f: Seq<char>) -> ValueV {
    if f.len() == 0 {
        ValueV::Null
    } else {
        match ty {
            ColTy::Numeric => match spec_parse_number(f) {
                Some(v) => v@,
                None => ValueV::Null,
            },
            ColTy::Boolean => if f == "true"@ {
                ValueV::Bool(true)
            } else if f == "false"@ {
                ValueV::Bool(false)
            } else {
                ValueV::Null
            },
            ColTy::Text => ValueV::Str(f),
        }
    }
}

/// Whether the first `n` records all have width `w`.
pub open spec fn widths_ok(rows: Seq<Seq<Seq<char>>>, w: int, n: int) -> bool
    decreases n,
{
    if n <= 0 {
        true
    } else {
        rows[n - 1].len() == w && widths_ok(rows, w, n - 1)
    }
}

/// What decoding a CSV text yields: the header and one row of typed cells
/// per record, or nothing when the text is empty, a quote is malformed, or
/// a record's width differs from the header's.
pub open spec fn spec_decode_csv(text: Seq<char>) -> Option<(Seq<Seq<char>>, Seq<Seq<ValueV>>)> {
    let lines = csv_lines_of(text);
    if lines.len() == 0 {
        None
    } else {
        match p_fields(lines[0], 0) {
            None => None,
            Some(header) => match rows_fields(lines.drop_first()) {
                None => None,
                Some(data) => {
                    if !widths_ok(data, header.len() as int, data.len() as int) {
                        None
                    } else {
                        Some(
                            (
                                header,
                                data.map_values(
                                    |row: Seq<Seq<char>>| Seq::new(
                                        header.len(),
                                        |c: int| cell_of(col_ty(data, c), row[c]),
                                    ),
                                ),
                            ),
                        )
                    }
                },
            },
        }
    }
}

fn field_is_num(f: &Vec<char>) -> (r: bool)
    ensures
        r == (f@.len() == 0 || spec_parse_number(f@) is Some),
{
    if f.len() == 0 {
        true
    } else {
        match parse_number(f) {
            Some(_) => true,
            None => false,
        }
    }
}

fn field_is_bool(f: &Vec<char>) -> (r: bool)
    ensures
        r == (f@.len() == 0 || is_bool_field(f@)),
{
    if f.len() == 0 {
        return true;
    }
    let t_lit = str_to_chars("true");
    let f_lit = str_to_chars("false");
    chars_eq(f, &t_lit) || chars_eq(f, &f_lit)
}

/// Decode one CSV text.
#[verifier::rlimit(60)]
pub fn decode_csv(text: &str) -> (r: Result<DataSet, QueryError>)
    ensures
        match spec_decode_csv(text@) {
            Some((cols, rowsv)) => r matches Ok(ds) && ds.wf() && ds.spec_cols() == cols
                && ds.spec_rows().map_values(|row: Seq<Value>| crate::execute::row_v(row))
                == rowsv,
            None => r matches Err(e) && e is Content,
        },
{
    let v = str_to_chars(text);
    let lines = csv_lines_exec(&v);
    let ghost linesv = pieces_v(lines@);
    if lines.len() == 0 {
        return Err(QueryError::Content("empty csv content".to_owned()));
    }
    proof {
        assert(linesv[0] == lines@[0]@);
    }
    let header = match p_fields_exec(&lines[0], 0) {
        None => {
            proof {
                assert(linesv == csv_lines_of(text@));
                assert(p_fields(csv_lines_of(text@)[0], 0) is None);
                assert(spec_decode_csv(text@) is None);
            }
            return Err(QueryError::Content("malformed csv quoting".to_owned()));
        },
        Some(h) => h,
    };
    let ghost headerv = pieces_v(header@);
    // split every record into fields
    let mut data: Vec<Vec<Vec<char>>> = Vec::new();
    let mut i: usize = 1;
    while i < lines.len()
        invariant
            1 <= i <= lines@.len(),
            linesv == pieces_v(lines@),
            linesv == csv_lines_of(text@),
            linesv.len() > 0,
            data@.len() == i - 1,
            forall|k: int|
                0 <= k < i - 1 ==> p_fields(#[trigger] linesv.drop_first()[k], 0) == Some(
                    pieces_v(data@[k]@),
                ),
        decreases lines@.len() - i,
    {
        proof {
            assert(linesv[i as int] == lines@[i as int]@);
            assert(linesv.drop_first()[i - 1] == linesv[i as int]);
        }
        match p_fields_exec(&lines[i], 0) {
            None => {
                proof {
                    lemma_rows_fields_none(linesv.drop_first(), i - 1);
                }
                return Err(QueryError::Content("malformed csv quoting".to_owned()));
            },
            Some(fields) => {
                data.push(fields);
            },
        }
        i = i + 1;
    }
    let ghost dataspec = data@.map_values(|r: Vec<Vec<char>>| pieces_v(r@));
    proof {
        assert(dataspec.len() == data@.len());
        assert(linesv.drop_first().len() == dataspec.len());
        assert forall|k: int|
            0 <= k < dataspec.len() implies p_fields(#[trigger] linesv.drop_first()[k], 0)
            == Some(dataspec[k]) by {
            assert(dataspec[k] == pieces_v(data@[k]@));
        }
        lemma_rows_fields_of(linesv.drop_first(), dataspec);
    }
    // every record must be as wide as the header
    let mut k: usize = 0;
    while k < data.len()
        invariant
            k <= data@.len(),
            data@.len() == dataspec.len(),
            headerv == pieces_v(header@),
            linesv == csv_lines_of(text@),
            linesv.len() > 0,
            p_fields(linesv[0], 0) == Some(headerv),
            rows_fields(linesv.drop_first()) == Some(dataspec),
            forall|t: int| 0 <= t < data@.len() ==> pieces_v((#[trigger] data@[t])@)
                == dataspec[t],
            widths_ok(dataspec, headerv.len() as int, k as int),
        decreases data@.len() - k,
    {
        if data[k].len() != header.len() {
            proof {
                assert(pieces_v(data@[k as int]@).len() == data@[k as int]@.len());
                assert(dataspec[k as int].len() != headerv.len());
                assert(!widths_ok(dataspec, headerv.len() as int, dataspec.len() as int)) by {
                    lemma_widths_refute(dataspec, headerv.len() as int, k as int);
                }
            }
            return Err(QueryError::Content("ragged csv record".to_owned()));
        }
        proof {
            assert(pieces_v(data@[k as int]@).len() == data@[k as int]@.len());
        }
        k = k + 1;
    }
    proof {
        assert(widths_ok(dataspec, headerv.len() as int, dataspec.len() as int));
        lemma_widths_all(dataspec, headerv.len() as int, dataspec.len() as int);
    }
    // infer each column's kind from the sample
    let sample: usize = if data.len() > 16 {
        16
    } else {
        data.len()
    };
    let mut tys: Vec<ColTy> = Vec::new();
    let mut c: usize = 0;
    while c < header.len()
        invariant
            c <= headerv.len(),
            headerv == pieces_v(header@),
            data@.len() == dataspec.len(),
            sample == csv_sample_len(dataspec.len() as int),
            sample <= data@.len(),
            forall|t: int| 0 <= t < data@.len() ==> pieces_v((#[trigger] data@[t])@)
                == dataspec[t],
            widths_ok(dataspec, headerv.len() as int, dataspec.len() as int),
            forall|t: int| 0 <= t < dataspec.len() ==> (#[trigger] dataspec[t]).len()
                == headerv.len(),
            tys@.len() == c,
            forall|t: int| 0 <= t < c ==> tys@[t] == col_ty(dataspec, t),
        decreases headerv.len() - c,
    {
        let mut numeric = true;
        let mut boolean = true;
        let mut r2: usize = 0;
        while r2 < sample
            invariant
                r2 <= sample,
                sample <= data@.len(),
                c < headerv.len(),
                data@.len() == dataspec.len(),
                forall|t: int| 0 <= t < data@.len() ==> pieces_v((#[trigger] data@[t])@)
                    == dataspec[t],
                forall|t: int| 0 <= t < dataspec.len() ==> (#[trigger] dataspec[t]).len()
                    == headerv.len(),
                numeric == all_num(dataspec, c as int, r2 as int),
                boolean == all_bool(dataspec, c as int, r2 as int),
            decreases sample - r2,
        {
            let f = &data[r2][c];
            proof {
                assert(pieces_v(data@[r2 as int]@)[c as int] == data@[r2 as int]@[c as int]@);
                assert(dataspec[r2 as int][c as int] == f@);
            }
            let fn_ = field_is_num(f);
            let fb = field_is_bool(f);
            numeric = numeric && fn_;
            boolean = boolean && fb;
            r2 = r2 + 1;
        }
        let ty = if numeric {
            ColTy::Numeric
        } else if boolean {
            ColTy::Boolean
        } else {
            ColTy::Text
        };
        tys.push(ty);
        c = c + 1;
    }
    // decode the cells
    let mut rows: Vec<Vec<Value>> = Vec::new();
    let mut i2: usize = 0;
    let ghost rowspec = dataspec.map_values(
        |row: Seq<Seq<char>>| Seq::new(headerv.len(), |c: int| cell_of(col_ty(dataspec, c), row[c])),
    );
    while i2 < data.len()
        invariant
            i2 <= data@.len(),
            data@.len() == dataspec.len(),
            headerv == pieces_v(header@),
            forall|t: int| 0 <= t < data@.len() ==> pieces_v((#[trigger] data@[t])@)
                == dataspec[t],
            forall|t: int| 0 <= t < dataspec.len() ==> (#[trigger] dataspec[t]).len()
                == headerv.len(),
            tys@.len() == headerv.len(),
            forall|t: int| 0 <= t < tys@.len() ==> tys@[t] == col_ty(dataspec, t),
            rowspec == dataspec.map_values(
                |row: Seq<Seq<char>>| Seq::new(
                    headerv.len(),
                    |c: int| cell_of(col_ty(dataspec, c), row[c]),
                ),
            ),
            rows@.map_values(|row: Vec<Value>| crate::execute::row_v(row@)) =~= rowspec.take(
                i2 as int,
            ),
            forall|t: int| 0 <= t < rows@.len() ==> (#[trigger] rows@[t])@.len() == headerv.len(),
        decreases data@.len() - i2,
    {
        let rec = &data[i2];
        let mut row: Vec<Value> = Vec::new();
        let mut c2: usize = 0;
        proof {
            assert(pieces_v(data@[i2 as int]@) == dataspec[i2 as int]);
        }
        while c2 < tys.len()
            invariant
                c2 <= tys@.len(),
                i2 < dataspec.len(),
                tys@.len() == headerv.len(),
                forall|t: int| 0 <= t < tys@.len() ==> tys@[t] == col_ty(dataspec, t),
                pieces_v(rec@) == dataspec[i2 as int],
                dataspec[i2 as int].len() == headerv.len(),
                row@.len() == c2,
                forall|t: int| 0 <= t < c2 ==> (#[trigger] row@[t])@ == cell_of(
                    col_ty(dataspec, t),
                    dataspec[i2 as int][t],
                ),
            decreases tys@.len() - c2,
        {
            let f = &rec[c2];
            proof {
                assert(pieces_v(rec@)[c2 as int] == rec@[c2 as int]@);
            }
            let cell: Value = if f.len() == 0 {
                Value::Null
            } else {
                match tys[c2] {
                    ColTy::Numeric => {
                        match parse_number(f) {
                            Some(val) => val,
                            None => Value::Null,
                        }
                    },
                    ColTy::Boolean => {
                        let t_lit = str_to_chars("true");
                        let f_lit = str_to_chars("false");
                        if chars_eq(f, &t_lit) {
                            Value::Bool(true)
                        } else if chars_eq(f, &f_lit) {
                            Value::Bool(false)
                        } else {
                            Value::Null
                        }
                    },
                    ColTy::Text => Value::Str(chars_to_string(f)),
                }
            };
            row.push(cell);
            c2 = c2 + 1;
        }
        let ghost prevrows = rows@;
        rows.push(row);
        proof {
            let m = rows@.map_values(|row: Vec<Value>| crate::execute::row_v(row@));
            let pm = prevrows.map_values(|row: Vec<Value>| crate::execute::row_v(row@));
            assert(pm.len() == prevrows.len());
            assert(rows@.len() == prevrows.len() + 1);
            assert(m.len() == rows@.len());
            assert forall|k2: int| 0 <= k2 < m.len() implies m[k2] == rowspec.take(
                i2 as int + 1,
            )[k2] by {
                assert(m[k2] == crate::execute::row_v(rows@[k2]@));
                if k2 < prevrows.len() {
                    assert(rows@[k2] == prevrows[k2]);
                    assert(pm[k2] == crate::execute::row_v(prevrows[k2]@));
                } else {
                    assert(rowspec[i2 as int] == Seq::new(
                        headerv.len(),
                        |c: int| cell_of(col_ty(dataspec, c), dataspec[i2 as int][c]),
                    ));
                    assert(crate::execute::row_v(rows@[k2]@) =~= rowspec[i2 as int]) by {
                        assert forall|c: int|
                            0 <= c < headerv.len() implies crate::execute::row_v(rows@[k2]@)[c]
                            == rowspec[i2 as int][c] by {
                            assert(crate::execute::row_v(rows@[k2]@)[c] == rows@[k2]@[c]@);
                        }
                    }
                }
            }
            assert(m =~= rowspec.take(i2 as int + 1));
        }
        i2 = i2 + 1;
    }
    proof {
        assert(rowspec.take(rowspec.len() as int) =~= rowspec);
    }
    // assemble
    let mut names: Vec<String> = Vec::new();
    let mut h: usize = 0;
    while h < header.len()
        invariant
            h <= headerv.len(),
            headerv == pieces_v(header@),
            names.deep_view().len() == h,
            forall|t: int| 0 <= t < h ==> names.deep_view()[t] == headerv[t],
        decreases headerv.len() - h,
    {
        let ghost prev = names;
        let name = chars_to_string(&header[h]);
        names.push(name);
        proof {
            assert(headerv[h as int] == header@[h as int]@);
            assert(prev.deep_view().len() == prev@.len());
            assert(names.deep_view().len() == names@.len());
            assert(forall|t: int| 0 <= t < h ==> names.deep_view()[t] == prev.deep_view()[t]);
            assert(names.deep_view()[h as int] == names@[h as int]@);
        }
        h = h + 1;
    }
    proof {
        assert(names.deep_view() =~= headerv);
    }
    match DataSet::new(names, rows) {
        Ok(ds) => Ok(ds),
        Err(()) => {
            proof {
                assert(false);
            }
            Err(QueryError::Content("ragged csv record".to_owned()))
        },
    }
}

/// A passed width check bounds every record.
proof fn lemma_widths_all(rows: Seq<Seq<Seq<char>>>, w: int, n: int)
    requires
        0 <= n <= rows.len(),
        widths_ok(rows, w, n),
    ensures
        forall|t: int| 0 <= t < n ==> (#[trigger] rows[t]).len() == w,
    decreases n,
{
    if n > 0 {
        lemma_widths_all(rows, w, n - 1);
    }
}

/// A record of the wrong width refutes the width check.
proof fn lemma_widths_refute(rows: Seq<Seq<Seq<char>>>, w: int, t: int)
    requires
        0 <= t < rows.len(),
        rows[t].len() != w,
    ensures
        !widths_ok(rows, w, rows.len() as int),
    decreases rows.len(),
{
    lemma_widths_refute_rec(rows, w, t, rows.len() as int);
}

proof fn lemma_widths_refute_rec(rows: Seq<Seq<Seq<char>>>, w: int, t: int, n: int)
    requires
        0 <= t < n <= rows.len(),
        rows[t].len() != w,
    ensures
        !widths_ok(rows, w, n),
    decreases n,
{
    if t < n - 1 {
        lemma_widths_refute_rec(rows, w, t, n - 1);
    }
}

} // verus!
