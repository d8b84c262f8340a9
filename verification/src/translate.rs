//! The query translator: one parsed statement becomes an executable plan,
//! or a translation error. Every rule is a hard failure; no partial plan is
//! ever produced.
use vstd::prelude::*;

use crate::ast::{AstExpr, AstOrderItem, AstSelect, AstSelectItem, AstSource, BinOp, Statement};
use crate::chars::str_to_chars;
use crate::errors::QueryError;
use crate::numlit::{parse_number, spec_parse_number};
use crate::plan::{CmpOp, Pred, PredV, ProjItem, Projection, ProjectionV, QueryPlan, SortKey};
use crate::value::Value;

verus! {

/// The comparison a binary operator denotes; meaningful off `And`/`Or`.
pub open spec fn spec_cmp_of(op: BinOp) -> CmpOp {
    match op {
        BinOp::Eq => CmpOp::Eq,
        BinOp::NotEq => CmpOp::NotEq,
        BinOp::Lt => CmpOp::Lt,
        BinOp::LtEq => CmpOp::LtEq,
        BinOp::Gt => CmpOp::Gt,
        BinOp::GtEq => CmpOp::GtEq,
        _ => CmpOp::Eq,
    }
}

/// Whether a `WHERE` expression lies in the supported subset: columns,
/// shaped literals, comparisons, `AND`/`OR`/`NOT`.
pub open spec fn spec_expr_ok(e: AstExpr) -> bool
    decreases e,
{
    match e {
        AstExpr::Column(_) => true,
        AstExpr::Number(s) => spec_parse_number(s@) is Some,
        AstExpr::StringLit(_) => true,
        AstExpr::BoolLit(_) => true,
        AstExpr::Binary(_, l, r) => spec_expr_ok(*l) && spec_expr_ok(*r),
        AstExpr::Not(b) => spec_expr_ok(*b),
        AstExpr::Unsupported => false,
    }
}

/// The predicate a supported expression translates to.
pub open spec fn spec_expr_pred(e: AstExpr) -> PredV
    decreases e,
{
    match e {
        AstExpr::Column(c) => PredV::Column(c@),
        AstExpr::Number(s) => PredV::Literal(spec_parse_number(s@).unwrap()@),
        AstExpr::StringLit(s) => PredV::Literal(crate::value::ValueV::Str(s@)),
        AstExpr::BoolLit(b) => PredV::Literal(crate::value::ValueV::Bool(b)),
        AstExpr::Binary(op, l, r) => {
            if op is And {
                PredV::And(Box::new(spec_expr_pred(*l)), Box::new(spec_expr_pred(*r)))
            } else if op is Or {
                PredV::Or(Box::new(spec_expr_pred(*l)), Box::new(spec_expr_pred(*r)))
            } else {
                PredV::Compare(
                    spec_cmp_of(op),
                    Box::new(spec_expr_pred(*l)),
                    Box::new(spec_expr_pred(*r)),
                )
            }
        },
        AstExpr::Not(b) => PredV::Not(Box::new(spec_expr_pred(*b))),
        AstExpr::Unsupported => PredV::Literal(crate::value::ValueV::Null),
    }
}

/// The non-negative count a `LIMIT`/`OFFSET` literal denotes.
pub open spec fn spec_bound_val(e: AstExpr) -> Option<int> {
    match e {
        AstExpr::Number(s) => match spec_parse_number(s@) {
            Some(v) => match v {
                Value::Int(i) => if i >= 0 {
                    Some(i as int)
                } else {
                    None
                },
                _ => None,
            },
            None => None,
        },
        _ => None,
    }
}

/// The source column and output name of one projection item.
pub open spec fn spec_proj_item(it: AstSelectItem) -> (Seq<char>, Seq<char>) {
    match it {
        AstSelectItem::Column(c, a) => (
            c@,
            match a {
                Some(al) => al@,
                None => c@,
            },
        ),
        _ => (Seq::<char>::empty(), Seq::<char>::empty()),
    }
}

/// Whether a projection list is supported: non-empty, and either the sole
/// wildcard or plain `column [AS alias]` items throughout.
pub open spec fn spec_proj_ok(items: Seq<AstSelectItem>) -> bool {
    items.len() >= 1 && ((items.len() == 1 && items[0] is Wildcard) || (forall|i: int|
        0 <= i < items.len() ==> items[i] is Column))
}

/// The projection a supported list translates to.
pub open spec fn spec_proj(items: Seq<AstSelectItem>) -> ProjectionV {
    if items.len() == 1 && items[0] is Wildcard {
        ProjectionV::Wildcard
    } else {
        ProjectionV::Columns(items.map_values(|it: AstSelectItem| spec_proj_item(it)))
    }
}

/// The sort key one `ORDER BY` item denotes; meaningful when the key is a
/// plain column.
pub open spec fn spec_order_key(it: AstOrderItem) -> (Seq<char>, bool) {
    match it.key {
        AstExpr::Column(c) => (c@, it.descending),
        _ => (Seq::<char>::empty(), it.descending),
    }
}

pub open spec fn spec_order_ok(obs: Seq<AstOrderItem>) -> bool {
    forall|i: int| 0 <= i < obs.len() ==> (#[trigger] obs[i]).key is Column
}

pub open spec fn spec_sort_keys(obs: Seq<AstOrderItem>) -> Seq<(Seq<char>, bool)> {
    obs.map_values(|it: AstOrderItem| spec_order_key(it))
}

/// Whether a whole `SELECT` lies in the supported shape.
pub open spec fn spec_select_ok(q: AstSelect) -> bool {
    &&& q.sources@.len() == 1
    &&& q.sources@[0] is Table
    &&& spec_proj_ok(q.projection@)
    &&& match q.selection {
        Some(e) => spec_expr_ok(e),
        None => true,
    }
    &&& spec_order_ok(q.order_by@)
    &&& match q.limit {
        Some(e) => spec_bound_val(e) is Some,
        None => true,
    }
    &&& match q.offset {
        Some(e) => spec_bound_val(e) is Some,
        None => true,
    }
}

/// The locator named in the `FROM` clause.
pub open spec fn spec_source_name(q: AstSelect) -> Seq<char> {
    match q.sources@[0] {
        AstSource::Table(n) => n@,
        _ => Seq::<char>::empty(),
    }
}

/// How a produced plan relates to the statement it came from.
pub open spec fn spec_plan_matches(p: QueryPlan, q: AstSelect) -> bool {
    &&& p.locator@ == spec_source_name(q)
    &&& (p.predicate is Some <==> q.selection is Some)
    &&& match (p.predicate, q.selection) {
        (Some(pd), Some(e)) => pd@ == spec_expr_pred(e),
        _ => true,
    }
    &&& p.projection@ == spec_proj(q.projection@)
    &&& p.sort.deep_view() == spec_sort_keys(q.order_by@)
    &&& match (p.offset, q.offset) {
        (Some(v), Some(e)) => v as int == spec_bound_val(e).unwrap(),
        (None, None) => true,
        _ => false,
    }
    &&& match (p.limit, q.limit) {
        (Some(v), Some(e)) => v as int == spec_bound_val(e).unwrap(),
        (None, None) => true,
        _ => false,
    }
}

/// Translate one `WHERE` expression into a predicate tree.
fn translate_expr(e: &AstExpr) -> (r: Result<Pred, QueryError>)
    ensures
        r is Ok <==> spec_expr_ok(*e),
        r matches Ok(p) ==> p@ == spec_expr_pred(*e),
        r matches Err(er) ==> er is Translation,
    decreases *e,
{
    match e {
        AstExpr::Column(c) => Ok(Pred::Column(c.clone())),
        AstExpr::Number(s) => {
            let cs = str_to_chars(s.as_str());
            match parse_number(&cs) {
                Some(v) => Ok(Pred::Literal(v)),
                None => Err(QueryError::Translation("unsupported numeric literal".to_owned())),
            }
        },
        AstExpr::StringLit(s) => Ok(Pred::Literal(Value::Str(s.clone()))),
        AstExpr::BoolLit(b) => Ok(Pred::Literal(Value::Bool(*b))),
        AstExpr::Binary(op, l, r2) => {
            let lp = match translate_expr(l) {
                Ok(p) => p,
                Err(er) => {
                    return Err(er);
                },
            };
            let rp = match translate_expr(r2) {
                Ok(p) => p,
                Err(er) => {
                    return Err(er);
                },
            };
            match op {
                BinOp::And => Ok(Pred::And(Box::new(lp), Box::new(rp))),
                BinOp::Or => Ok(Pred::Or(Box::new(lp), Box::new(rp))),
                BinOp::Eq => Ok(Pred::Compare(CmpOp::Eq, Box::new(lp), Box::new(rp))),
                BinOp::NotEq => Ok(Pred::Compare(CmpOp::NotEq, Box::new(lp), Box::new(rp))),
                BinOp::Lt => Ok(Pred::Compare(CmpOp::Lt, Box::new(lp), Box::new(rp))),
                BinOp::LtEq => Ok(Pred::Compare(CmpOp::LtEq, Box::new(lp), Box::new(rp))),
                BinOp::Gt => Ok(Pred::Compare(CmpOp::Gt, Box::new(lp), Box::new(rp))),
                BinOp::GtEq => Ok(Pred::Compare(CmpOp::GtEq, Box::new(lp), Box::new(rp))),
            }
        },
        AstExpr::Not(b) => {
            match translate_expr(b) {
                Ok(p) => Ok(Pred::Not(Box::new(p))),
                Err(er) => Err(er),
            }
        },
        AstExpr::Unsupported => Err(
            QueryError::Translation("unsupported predicate operator".to_owned()),
        ),
    }
}

/// Translate one `LIMIT`/`OFFSET` literal into a count.
fn translate_bound(e: &AstExpr) -> (r: Result<u64, QueryError>)
    ensures
        r is Ok <==> spec_bound_val(*e) is Some,
        r matches Ok(v) ==> v as int == spec_bound_val(*e).unwrap(),
        r matches Err(er) ==> er is Translation,
{
    match e {
        AstExpr::Number(s) => {
            let cs = str_to_chars(s.as_str());
            match parse_number(&cs) {
                Some(Value::Int(i)) => {
                    if i >= 0 {
                        Ok(i as u64)
                    } else {
                        Err(
                            QueryError::Translation(
                                "limit and offset must be non-negative".to_owned(),
                            ),
                        )
                    }
                },
                _ => Err(
                    QueryError::Translation("limit and offset must be integers".to_owned()),
                ),
            }
        },
        _ => Err(QueryError::Translation("limit and offset must be integers".to_owned())),
    }
}

/// Translate one supported `SELECT` into a plan.
fn translate_select(q: &AstSelect) -> (r: Result<QueryPlan, QueryError>)
    ensures
        r is Ok <==> spec_select_ok(*q),
        r matches Ok(p) ==> spec_plan_matches(p, *q),
        r matches Err(er) ==> er is Translation,
{
    if q.sources.len() != 1 {
        return Err(QueryError::Translation("expected exactly one data source".to_owned()));
    }
    let locator = match &q.sources[0] {
        AstSource::Table(n) => n.clone(),
        AstSource::Unsupported => {
            return Err(
                QueryError::Translation("joins and derived sources unsupported".to_owned()),
            );
        },
    };
    // projection list
    if q.projection.len() == 0 {
        return Err(QueryError::Translation("empty projection".to_owned()));
    }
    let is_sole_wildcard: bool = if q.projection.len() == 1 {
        match &q.projection[0] {
            AstSelectItem::Wildcard => true,
            _ => false,
        }
    } else {
        false
    };
    proof {
        assert(is_sole_wildcard == (q.projection@.len() == 1 && q.projection@[0] is Wildcard));
    }
    let projection = if is_sole_wildcard {
        Projection::Wildcard
    } else {
        let mut items: Vec<ProjItem> = Vec::new();
        let mut i: usize = 0;
        while i < q.projection.len()
            invariant
                i <= q.projection@.len(),
                !(q.projection@.len() == 1 && q.projection@[0] is Wildcard),
                items.deep_view().len() == i,
                forall|k: int|
                    0 <= k < i ==> items.deep_view()[k] == spec_proj_item(q.projection@[k]),
                forall|k: int| 0 <= k < i ==> q.projection@[k] is Column,
            decreases q.projection@.len() - i,
        {
            match &q.projection[i] {
                AstSelectItem::Column(c, a) => {
                    let output = match a {
                        Some(al) => al.clone(),
                        None => c.clone(),
                    };
                    let ghost prev = items;
                    items.push(ProjItem { column: c.clone(), output });
                    proof {
                        assert(prev.deep_view().len() == prev@.len());
                        assert(items.deep_view().len() == items@.len());
                        assert(forall|k: int|
                            0 <= k < i ==> items.deep_view()[k] == prev.deep_view()[k]);
                        assert(items.deep_view()[i as int] == spec_proj_item(
                            q.projection@[i as int],
                        ));
                    }
                },
                _ => {
                    proof {
                        assert(!(q.projection@[i as int] is Column));
                        assert(!(q.projection@.len() == 1 && q.projection@[0] is Wildcard));
                        assert(!spec_proj_ok(q.projection@));
                    }
                    return Err(
                        QueryError::Translation("unsupported projection expression".to_owned()),
                    );
                },
            }
            i = i + 1;
        }
        proof {
            assert(items.deep_view() =~= q.projection@.map_values(
                |it: AstSelectItem| spec_proj_item(it),
            ));
        }
        Projection::Columns(items)
    };
    // WHERE clause
    let predicate = match &q.selection {
        None => None,
        Some(e) => {
            match translate_expr(e) {
                Ok(p) => Some(p),
                Err(er) => {
                    return Err(er);
                },
            }
        },
    };
    // ORDER BY items
    let mut sort: Vec<SortKey> = Vec::new();
    let mut i: usize = 0;
    while i < q.order_by.len()
        invariant
            i <= q.order_by@.len(),
            sort.deep_view().len() == i,
            forall|k: int| 0 <= k < i ==> sort.deep_view()[k] == spec_order_key(q.order_by@[k]),
            forall|k: int| 0 <= k < i ==> (#[trigger] q.order_by@[k]).key is Column,
        decreases q.order_by@.len() - i,
    {
        let it = &q.order_by[i];
        match &it.key {
            AstExpr::Column(c) => {
                let ghost prev = sort;
                sort.push(SortKey { column: c.clone(), descending: it.descending });
                proof {
                    assert(prev.deep_view().len() == prev@.len());
                    assert(sort.deep_view().len() == sort@.len());
                    assert(forall|k: int|
                        0 <= k < i ==> sort.deep_view()[k] == prev.deep_view()[k]);
                    assert(sort.deep_view()[i as int] == spec_order_key(q.order_by@[i as int]));
                }
            },
            _ => {
                return Err(QueryError::Translation("unsupported sort key".to_owned()));
            },
        }
        i = i + 1;
    }
    proof {
        assert(sort.deep_view() =~= spec_sort_keys(q.order_by@));
    }
    // LIMIT and OFFSET
    let limit = match &q.limit {
        None => None,
        Some(e) => {
            match translate_bound(e) {
                Ok(v) => Some(v),
                Err(er) => {
                    return Err(er);
                },
            }
        },
    };
    let offset = match &q.offset {
        None => None,
        Some(e) => {
            match translate_bound(e) {
                Ok(v) => Some(v),
                Err(er) => {
                    return Err(er);
                },
            }
        },
    };
    Ok(QueryPlan { locator, predicate, projection, sort, offset, limit })
}

/// Translate a parsed script into a plan: exactly one supported `SELECT`,
/// else a translation error before anything is fetched.
pub fn translate(stmts: &Vec<Statement>) -> (r: Result<QueryPlan, QueryError>)
    ensures
        r is Ok <==> (stmts@.len() == 1 && stmts@[0] is Select && spec_select_ok(
            stmts@[0]->Select_0,
        )),
        r matches Ok(p) ==> spec_plan_matches(p, stmts@[0]->Select_0),
        r matches Err(er) ==> er is Translation,
{
    if stmts.len() != 1 {
        return Err(QueryError::Translation("multiple statements unsupported".to_owned()));
    }
    match &stmts[0] {
        Statement::Select(q) => translate_select(q),
        Statement::Unsupported => Err(
            QueryError::Translation("only a single SELECT is supported".to_owned()),
        ),
    }
}

} // verus!
