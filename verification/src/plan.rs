//! The executable query plan: locator, predicate tree, projection, sort
//! keys, offset and limit; and the plan's mathematical view.
use vstd::prelude::*;

use crate::value::{Value, ValueV};

verus! {

/// A comparison operator in a predicate.
#[derive(Debug, Clone, Copy, PartialEq, Eq, Structural)]
pub enum CmpOp {
    Eq,
    NotEq,
    Lt,
    LtEq,
    Gt,
    GtEq,
}

/// A boolean expression tree over columns and literals, used to filter rows.
#[derive(Debug)]
pub enum Pred {
    Column(String),
    Literal(Value),
    Compare(CmpOp, Box<Pred>, Box<Pred>),
    And(Box<Pred>, Box<Pred>),
    Or(Box<Pred>, Box<Pred>),
    Not(Box<Pred>),
}

/// The mathematical view of a predicate tree.
pub enum PredV {
    Column(Seq<char>),
    Literal(ValueV),
    Compare(CmpOp, Box<PredV>, Box<PredV>),
    And(Box<PredV>, Box<PredV>),
    Or(Box<PredV>, Box<PredV>),
    Not(Box<PredV>),
}

impl View for Pred {
    type V = PredV;

    open spec fn view(&self) -> PredV
        decreases self,
    {
        match *self {
            Pred::Column(ref c) => PredV::Column(c@),
            Pred::Literal(ref v) => PredV::Literal(v@),
            Pred::Compare(op, ref l, ref r) => PredV::Compare(
                op,
                Box::new((**l)@),
                Box::new((**r)@),
            ),
            Pred::And(ref l, ref r) => PredV::And(Box::new((**l)@), Box::new((**r)@)),
            Pred::Or(ref l, ref r) => PredV::Or(Box::new((**l)@), Box::new((**r)@)),
            Pred::Not(ref p) => PredV::Not(Box::new((**p)@)),
        }
    }
}

/// One sort key: a column and its direction.
#[derive(Debug)]
pub struct SortKey {
    pub column: String,
    pub descending: bool,
}

impl View for SortKey {
    type V = (Seq<char>, bool);

    open spec fn view(&self) -> (Seq<char>, bool) {
        (self.column@, self.descending)
    }
}

impl DeepView for SortKey {
    type V = (Seq<char>, bool);

    open spec fn deep_view(&self) -> (Seq<char>, bool) {
        self.view()
    }
}

/// One projected column: the source column and the name it leaves under.
#[derive(Debug)]
pub struct ProjItem {
    pub column: String,
    pub output: String,
}

impl View for ProjItem {
    type V = (Seq<char>, Seq<char>);

    open spec fn view(&self) -> (Seq<char>, Seq<char>) {
        (self.column@, self.output@)
    }
}

impl DeepView for ProjItem {
    type V = (Seq<char>, Seq<char>);

    open spec fn deep_view(&self) -> (Seq<char>, Seq<char>) {
        self.view()
    }
}

/// The projection: all columns, or a non-empty list of named columns.
#[derive(Debug)]
pub enum Projection {
    Wildcard,
    Columns(Vec<ProjItem>),
}

/// The mathematical view of a projection.
pub enum ProjectionV {
    Wildcard,
    Columns(Seq<(Seq<char>, Seq<char>)>),
}

impl View for Projection {
    type V = ProjectionV;

    open spec fn view(&self) -> ProjectionV {
        match *self {
            Projection::Wildcard => ProjectionV::Wildcard,
            Projection::Columns(ref items) => ProjectionV::Columns(items.deep_view()),
        }
    }
}

/// An executable plan for one `SELECT` over one locator.
#[derive(Debug)]
pub struct QueryPlan {
    pub locator: String,
    pub predicate: Option<Pred>,
    pub projection: Projection,
    pub sort: Vec<SortKey>,
    pub offset: Option<u64>,
    pub limit: Option<u64>,
}

} // verus!
