//! The in-memory table a query produces: named columns and rectangular rows,
//! with serializers to CSV and to a single JSON array of flat objects.
use vstd::prelude::*;

use crate::chars::{chars_to_string, str_to_chars};
use crate::numlit::{spec_render_dec, spec_render_int, render_dec, render_int};
use crate::value::{clone_row, Value};

verus! {

/// An in-memory table: column names and rows of cells, every row exactly as
/// wide as the header.
#[derive(Debug)]
pub struct DataSet {
    columns: Vec<String>,
    rows: Vec<Vec<Value>>,
}

/// True when a field must be quoted in CSV output: it holds a comma, a
/// quote or a line break.
pub open spec fn csv_needs_quote(s: Seq<char>) -> bool {
    exists|i: int| 0 <= i < s.len() && (s[i] == ',' || s[i] == '"' || s[i] == '\n' || s[i] == '\r')
}

/// The field with every quote doubled.
pub open spec fn csv_double_quotes(s: Seq<char>) -> Seq<char>
    decreases s.len(),
{
    if s.len() == 0 {
        Seq::empty()
    } else if s.last() == '"' {
        csv_double_quotes(s.drop_last()) + seq!['"', '"']
    } else {
        csv_double_quotes(s.drop_last()).push(s.last())
    }
}

/// A CSV field: quoted with doubled quotes when it needs quoting, itself
/// otherwise.
pub open spec fn csv_escape(s: Seq<char>) -> Seq<char> {
    if csv_needs_quote(s) {
        seq!['"'] + csv_double_quotes(s) + seq!['"']
    } else {
        s
    }
}

/// A cell in CSV output: nulls are empty, booleans spell `true`/`false`,
/// numbers render in decimal, strings are escaped.
pub open spec fn cell_csv(v: Value) -> Seq<char> {
    match v {
        Value::Null => Seq::empty(),
        Value::Bool(b) => if b {
            "true"@
        } else {
            "false"@
        },
        Value::Int(i) => spec_render_int(i as int),
        Value::Dec(d) => spec_render_dec(d as int),
        Value::Str(s) => csv_escape(s@),
    }
}

/// The first `n` column names as a CSV header, comma-separated.
pub open spec fn header_upto(cs: Seq<Seq<char>>, n: int) -> Seq<char>
    decreases n,
{
    if n <= 0 {
        Seq::empty()
    } else if n == 1 {
        csv_escape(cs[0])
    } else {
        header_upto(cs, n - 1).push(',') + csv_escape(cs[n - 1])
    }
}

/// The first `n` cells of a row, comma-separated.
pub open spec fn row_csv_upto(row: Seq<Value>, n: int) -> Seq<char>
    decreases n,
{
    if n <= 0 {
        Seq::empty()
    } else if n == 1 {
        cell_csv(row[0])
    } else {
        row_csv_upto(row, n - 1).push(',') + cell_csv(row[n - 1])
    }
}

/// The first `n` rows as CSV lines, each ended with a newline.
pub open spec fn csv_lines_upto(rows: Seq<Seq<Value>>, n: int) -> Seq<char>
    decreases n,
{
    if n <= 0 {
        Seq::empty()
    } else {
        csv_lines_upto(rows, n - 1) + row_csv_upto(rows[n - 1], rows[n - 1].len() as int) + seq![
            '\n',
        ]
    }
}

/// A whole table in CSV: header line, then one line per row.
pub open spec fn spec_csv(cols: Seq<Seq<char>>, rows: Seq<Seq<Value>>) -> Seq<char> {
    header_upto(cols, cols.len() as int) + seq!['\n'] + csv_lines_upto(rows, rows.len() as int)
}

/// One character in a JSON string body; quotes, backslashes and the common
/// control characters are escaped.
pub open spec fn json_esc_char(c: char) -> Seq<char> {
    if c == '"' {
        seq!['\\', '"']
    } else if c == '\\' {
        seq!['\\', '\\']
    } else if c == '\n' {
        seq!['\\', 'n']
    } else if c == '\r' {
        seq!['\\', 'r']
    } else if c == '\t' {
        seq!['\\', 't']
    } else {
        seq![c]
    }
}

/// A JSON string body, escaped character by character.
pub open spec fn json_escape(s: Seq<char>) -> Seq<char>
    decreases s.len(),
{
    if s.len() == 0 {
        Seq::empty()
    } else {
        json_escape(s.drop_last()) + json_esc_char(s.last())
    }
}

/// A cell in JSON output.
pub open spec fn cell_json(v: Value) -> Seq<char> {
    match v {
        Value::Null => "null"@,
        Value::Bool(b) => if b {
            "true"@
        } else {
            "false"@
        },
        Value::Int(i) => spec_render_int(i as int),
        Value::Dec(d) => spec_render_dec(d as int),
        Value::Str(s) => seq!['"'] + json_escape(s@) + seq!['"'],
    }
}

/// One `"name":value` member of a row object.
pub open spec fn pair_json(name: Seq<char>, v: Value) -> Seq<char> {
    seq!['"'] + json_escape(name) + seq!['"', ':'] + cell_json(v)
}

/// The first `n` members of a row object, comma-separated.
pub open spec fn row_json_upto(cs: Seq<Seq<char>>, row: Seq<Value>, n: int) -> Seq<char>
    decreases n,
{
    if n <= 0 {
        Seq::empty()
    } else if n == 1 {
        pair_json(cs[0], row[0])
    } else {
        row_json_upto(cs, row, n - 1).push(',') + pair_json(cs[n - 1], row[n - 1])
    }
}

/// The first `n` rows as JSON objects, comma-separated, no whitespace.
pub open spec fn rows_json_upto(cs: Seq<Seq<char>>, rows: Seq<Seq<Value>>, n: int) -> Seq<char>
    decreases n,
{
    if n <= 0 {
        Seq::empty()
    } else if n == 1 {
        seq!['{'] + row_json_upto(cs, rows[0], rows[0].len() as int) + seq!['}']
    } else {
        rows_json_upto(cs, rows, n - 1).push(',') + seq!['{'] + row_json_upto(
            cs,
            rows[n - 1],
            rows[n - 1].len() as int,
        ) + seq!['}']
    }
}

/// A whole table as one JSON array of flat objects, member order following
/// the column order.
pub open spec fn spec_json(cs: Seq<Seq<char>>, rows: Seq<Seq<Value>>) -> Seq<char> {
    seq!['['] + rows_json_upto(cs, rows, rows.len() as int) + seq![']']
}

/// Append a borrowed character vector.
pub(crate) fn extend_chars(out: &mut Vec<char>, add: &Vec<char>)
    ensures
        final(out)@ == old(out)@ + add@,
{
    let mut i: usize = 0;
    while i < add.len()
        invariant
            i <= add.len(),
            out@ =~= old(out)@ + add@.take(i as int),
        decreases add.len() - i,
    {
        out.push(add[i]);
        proof {
            assert(out@ =~= old(out)@ + add@.take(i as int + 1));
        }
        i = i + 1;
    }
    proof {
        assert(old(out)@ + add@.take(add@.len() as int) =~= old(out)@ + add@);
    }
}

/// Escape one CSV field.
fn csv_escape_exec(s: &String) -> (r: Vec<char>)
    ensures
        r@ == csv_escape(s@),
{
    let cs = str_to_chars(s.as_str());
    let mut needs = false;
    let mut i: usize = 0;
    while i < cs.len()
        invariant
            i <= cs.len(),
            cs@ == s@,
            needs == exists|k: int|
                0 <= k < i && (cs@[k] == ',' || cs@[k] == '"' || cs@[k] == '\n' || cs@[k] == '\r'),
        decreases cs.len() - i,
    {
        let c = cs[i];
        if c == ',' || c == '"' || c == '\n' || c == '\r' {
            needs = true;
        }
        i = i + 1;
    }
    if !needs {
        return cs;
    }
    let mut out: Vec<char> = Vec::new();
    out.push('"');
    let mut j: usize = 0;
    while j < cs.len()
        invariant
            j <= cs.len(),
            cs@ == s@,
            out@ =~= seq!['"'] + csv_double_quotes(cs@.take(j as int)),
        decreases cs.len() - j,
    {
        let c = cs[j];
        if c == '"' {
            out.push('"');
            out.push('"');
        } else {
            out.push(c);
        }
        proof {
            assert(cs@.take(j as int + 1).drop_last() =~= cs@.take(j as int));
            assert(out@ =~= seq!['"'] + csv_double_quotes(cs@.take(j as int + 1)));
        }
        j = j + 1;
    }
    out.push('"');
    proof {
        assert(cs@.take(cs@.len() as int) =~= cs@);
        assert(out@ =~= seq!['"'] + csv_double_quotes(s@) + seq!['"']);
    }
    out
}

/// Escape one JSON string body.
fn json_escape_exec(s: &String) -> (r: Vec<char>)
    ensures
        r@ == json_escape(s@),
{
    let cs = str_to_chars(s.as_str());
    let mut out: Vec<char> = Vec::new();
    let mut j: usize = 0;
    while j < cs.len()
        invariant
            j <= cs.len(),
            cs@ == s@,
            out@ =~= json_escape(cs@.take(j as int)),
        decreases cs.len() - j,
    {
        let c = cs[j];
        if c == '"' {
            out.push('\\');
            out.push('"');
        } else if c == '\\' {
            out.push('\\');
            out.push('\\');
        } else if c == '\n' {
            out.push('\\');
            out.push('n');
        } else if c == '\r' {
            out.push('\\');
            out.push('r');
        } else if c == '\t' {
            out.push('\\');
            out.push('t');
        } else {
            out.push(c);
        }
        proof {
            assert(cs@.take(j as int + 1).drop_last() =~= cs@.take(j as int));
            assert(out@ =~= json_escape(cs@.take(j as int + 1)));
        }
        j = j + 1;
    }
    proof {
        assert(cs@.take(cs@.len() as int) =~= cs@);
    }
    out
}

/// Render one cell for CSV output.
fn cell_csv_exec(v: &Value) -> (r: Vec<char>)
    ensures
        r@ == cell_csv(*v),
{
    match v {
        Value::Null => Vec::new(),
        Value::Bool(b) => {
            if *b {
                str_to_chars("true")
            } else {
                str_to_chars("false")
            }
        },
        Value::Int(i) => render_int(*i),
        Value::Dec(d) => render_dec(*d),
        Value::Str(s) => csv_escape_exec(s),
    }
}

/// Render one cell for JSON output.
fn cell_json_exec(v: &Value) -> (r: Vec<char>)
    ensures
        r@ == cell_json(*v),
{
    match v {
        Value::Null => str_to_chars("null"),
        Value::Bool(b) => {
            if *b {
                str_to_chars("true")
            } else {
                str_to_chars("false")
            }
        },
        Value::Int(i) => render_int(*i),
        Value::Dec(d) => render_dec(*d),
        Value::Str(s) => {
            let mut out: Vec<char> = Vec::new();
            out.push('"');
            let body = json_escape_exec(s);
            extend_chars(&mut out, &body);
            out.push('"');
            proof {
                assert(out@ =~= seq!['"'] + json_escape(s@) + seq!['"']);
            }
            out
        },
    }
}

impl DataSet {
    /// The column names, as character sequences.
    pub closed spec fn spec_cols(self) -> Seq<Seq<char>> {
        self.columns@.map_values(|s: String| s@)
    }

    /// The rows, as sequences of cells.
    pub closed spec fn spec_rows(self) -> Seq<Seq<Value>> {
        self.rows@.map_values(|r: Vec<Value>| r@)
    }

    /// Every row is exactly as wide as the header.
    pub open spec fn wf(self) -> bool {
        forall|i: int|
            0 <= i < self.spec_rows().len() ==> (#[trigger] self.spec_rows()[i]).len()
                == self.spec_cols().len()
    }

    /// Build a table from a header and rows; rejected unless every row has
    /// exactly one cell per column.
    pub fn new(columns: Vec<String>, rows: Vec<Vec<Value>>) -> (r: Result<DataSet, ()>)
        ensures
            match r {
                Ok(ds) => ds.wf() && ds.spec_cols() == columns.deep_view() && ds.spec_rows()
                    == rows@.map_values(|r: Vec<Value>| r@),
                Err(()) => exists|i: int|
                    0 <= i < rows@.len() && (#[trigger] rows@[i])@.len() != columns@.len(),
            },
    {
        let mut i: usize = 0;
        while i < rows.len()
            invariant
                i <= rows.len(),
                forall|k: int| 0 <= k < i ==> (#[trigger] rows@[k])@.len() == columns@.len(),
            decreases rows.len() - i,
        {
            if rows[i].len() != columns.len() {
                return Err(());
            }
            i = i + 1;
        }
        let ds = DataSet { columns, rows };
        proof {
            assert(ds.spec_cols() =~= ds.columns.deep_view());
            assert forall|k: int| 0 <= k < ds.spec_rows().len() implies (
            #[trigger] ds.spec_rows()[k]).len() == ds.spec_cols().len() by {
                assert(ds.spec_rows()[k] == ds.rows@[k]@);
            }
        }
        Ok(ds)
    }

    /// Number of rows.
    pub fn nrows(&self) -> (r: usize)
        ensures
            r == self.spec_rows().len(),
    {
        self.rows.len()
    }

    /// Number of columns.
    pub fn ncols(&self) -> (r: usize)
        ensures
            r == self.spec_cols().len(),
    {
        self.columns.len()
    }

    /// The index of the first column with this name.
    pub fn col_index(&self, name: &str) -> (r: Option<usize>)
        ensures
            match r {
                Some(i) => i < self.spec_cols().len() && self.spec_cols()[i as int] == name@
                    && (forall|k: int| 0 <= k < i ==> self.spec_cols()[k] != name@),
                None => forall|k: int|
                    0 <= k < self.spec_cols().len() ==> self.spec_cols()[k] != name@,
            },
    {
        let nc = str_to_chars(name);
        let mut i: usize = 0;
        while i < self.columns.len()
            invariant
                i <= self.columns.len(),
                nc@ == name@,
                forall|k: int| 0 <= k < i ==> self.spec_cols()[k] != name@,
            decreases self.columns.len() - i,
        {
            let cc = str_to_chars(self.columns[i].as_str());
            if crate::chars::chars_eq(&cc, &nc) {
                proof {
                    assert(self.spec_cols()[i as int] == self.columns@[i as int]@);
                }
                return Some(i);
            }
            proof {
                assert(self.spec_cols()[i as int] == self.columns@[i as int]@);
            }
            i = i + 1;
        }
        None
    }

    /// A copy of the column names.
    pub fn columns_clone(&self) -> (r: Vec<String>)
        ensures
            r.deep_view() == self.spec_cols(),
    {
        let mut out: Vec<String> = Vec::new();
        let mut i: usize = 0;
        while i < self.columns.len()
            invariant
                i <= self.columns.len(),
                out.deep_view() =~= self.spec_cols().take(i as int),
            decreases self.columns.len() - i,
        {
            let c = self.columns[i].clone();
            proof {
                assert(c@ == self.columns@[i as int]@);
            }
            let ghost prev = out;
            out.push(c);
            proof {
                assert(prev.deep_view().len() == prev@.len());
                assert(out@ == prev@.push(c));
                assert(out@.len() == i + 1);
                assert(out.deep_view().len() == out@.len());
                assert(out.deep_view() =~= self.spec_cols().take(i as int + 1)) by {
                    assert forall|k: int| 0 <= k < i + 1 implies out.deep_view()[k]
                        == self.spec_cols().take(i as int + 1)[k] by {
                        assert(out.deep_view()[k] == out@[k]@);
                        assert(self.spec_cols()[k] == self.columns@[k]@);
                        if k < i {
                            assert(out@[k] == prev@[k]);
                            assert(prev.deep_view()[k] == prev@[k]@);
                        }
                    }
                }
            }
            i = i + 1;
        }
        proof {
            assert(self.spec_cols().take(self.spec_cols().len() as int) =~= self.spec_cols());
        }
        out
    }

    /// A copy of one row.
    pub fn row_clone(&self, i: usize) -> (r: Vec<Value>)
        requires
            i < self.spec_rows().len(),
        ensures
            r@ == self.spec_rows()[i as int],
    {
        proof {
            assert(self.spec_rows()[i as int] == self.rows@[i as int]@);
        }
        clone_row(&self.rows[i])
    }

    /// One cell.
    pub fn cell(&self, i: usize, j: usize) -> (r: &Value)
        requires
            i < self.spec_rows().len(),
            j < self.spec_rows()[i as int].len(),
        ensures
            *r == self.spec_rows()[i as int][j as int],
    {
        proof {
            assert(self.spec_rows()[i as int] == self.rows@[i as int]@);
        }
        &self.rows[i][j]
    }

    /// Serialize as CSV: a header row, then one line per record.
    pub fn to_csv(&self) -> (r: String)
        requires
            self.wf(),
        ensures
            r@ == spec_csv(self.spec_cols(), self.spec_rows()),
    {
        let mut out: Vec<char> = Vec::new();
        let ghost cs = self.spec_cols();
        let mut i: usize = 0;
        while i < self.columns.len()
            invariant
                i <= self.columns.len(),
                cs == self.spec_cols(),
                out@ =~= header_upto(cs, i as int),
            decreases self.columns.len() - i,
        {
            if i > 0 {
                out.push(',');
            }
            let f = csv_escape_exec(&self.columns[i]);
            extend_chars(&mut out, &f);
            proof {
                assert(cs[i as int] == self.columns@[i as int]@);
                assert(out@ =~= header_upto(cs, i as int + 1));
            }
            i = i + 1;
        }
        out.push('\n');
        let ghost rs = self.spec_rows();
        let ghost header = header_upto(cs, cs.len() as int) + seq!['\n'];
        proof {
            assert(out@ =~= header + csv_lines_upto(rs, 0));
        }
        let mut k: usize = 0;
        while k < self.rows.len()
            invariant
                k <= self.rows.len(),
                cs == self.spec_cols(),
                rs == self.spec_rows(),
                header == header_upto(cs, cs.len() as int) + seq!['\n'],
                self.wf(),
                out@ =~= header + csv_lines_upto(rs, k as int),
            decreases self.rows.len() - k,
        {
            let row = &self.rows[k];
            proof {
                assert(rs[k as int] == self.rows@[k as int]@);
            }
            let mut j: usize = 0;
            while j < row.len()
                invariant
                    j <= row.len(),
                    cs == self.spec_cols(),
                    rs == self.spec_rows(),
                    row@ == rs[k as int],
                    k < rs.len(),
                    header == header_upto(cs, cs.len() as int) + seq!['\n'],
                    out@ =~= header + csv_lines_upto(rs, k as int) + row_csv_upto(
                        row@,
                        j as int,
                    ),
                decreases row.len() - j,
            {
                if j > 0 {
                    out.push(',');
                }
                let f = cell_csv_exec(&row[j]);
                extend_chars(&mut out, &f);
                proof {
                    assert(out@ =~= header + csv_lines_upto(rs, k as int) + row_csv_upto(
                        row@,
                        j as int + 1,
                    ));
                }
                j = j + 1;
            }
            out.push('\n');
            proof {
                assert(out@ =~= header + csv_lines_upto(rs, k as int + 1));
            }
            k = k + 1;
        }
        let r = chars_to_string(&out);
        proof {
            assert(out@ =~= spec_csv(cs, rs));
        }
        r
    }

    /// Serialize as JSON: one array of flat objects, member order following
    /// the column order, no whitespace between records.
    pub fn to_json(&self) -> (r: String)
        requires
            self.wf(),
        ensures
            r@ == spec_json(self.spec_cols(), self.spec_rows()),
    {
        let mut out: Vec<char> = Vec::new();
        out.push('[');
        let ghost cs = self.spec_cols();
        let ghost rs = self.spec_rows();
        proof {
            assert(out@ =~= seq!['['] + rows_json_upto(cs, rs, 0));
        }
        let mut k: usize = 0;
        while k < self.rows.len()
            invariant
                k <= self.rows.len(),
                cs == self.spec_cols(),
                rs == self.spec_rows(),
                self.wf(),
                out@ =~= seq!['['] + rows_json_upto(cs, rs, k as int),
            decreases self.rows.len() - k,
        {
            if k > 0 {
                out.push(',');
            }
            out.push('{');
            let row = &self.rows[k];
            proof {
                assert(rs[k as int] == self.rows@[k as int]@);
            }
            let ghost sofar = out@;
            let mut j: usize = 0;
            while j < row.len()
                invariant
                    j <= row.len(),
                    cs == self.spec_cols(),
                    rs == self.spec_rows(),
                    row@ == rs[k as int],
                    k < rs.len(),
                    row@.len() == cs.len(),
                    out@ =~= sofar + row_json_upto(cs, row@, j as int),
                decreases row.len() - j,
            {
                if j > 0 {
                    out.push(',');
                }
                out.push('"');
                let nm = json_escape_exec(&self.columns[j]);
                extend_chars(&mut out, &nm);
                out.push('"');
                out.push(':');
                let f = cell_json_exec(&row[j]);
                extend_chars(&mut out, &f);
                proof {
                    assert(cs[j as int] == self.columns@[j as int]@);
                    assert(out@ =~= sofar + row_json_upto(cs, row@, j as int + 1));
                }
                j = j + 1;
            }
            out.push('}');
            proof {
                assert(out@ =~= seq!['['] + rows_json_upto(cs, rs, k as int + 1));
            }
            k = k + 1;
        }
        out.push(']');
        let r = chars_to_string(&out);
        proof {
            assert(out@ =~= spec_json(cs, rs));
        }
        r
    }
}

} // verus!
