//! Query CSV or JSON data, local or remote, with a single read-only SQL
//! statement whose `FROM` clause names a locator such as
//! `file://path/to/data.json` or `https://host/data.csv`.
//!
//! The verified core covers the dialect overlay that lets locators lex as one
//! identifier, the translator from a parsed statement to a query plan, the
//! scheme-keyed fetch registry, content sniffing, the CSV/JSON decoders, and
//! the executor that filters, sorts, slices, projects and serializes.
use vstd::prelude::*;

pub mod chars;
pub mod dialect;
pub mod filetype;
pub mod ast;
pub mod dataset;
pub mod csv;
pub mod decode;
pub mod errors;
pub mod execute;
pub mod fetcher;
pub mod laws;
pub mod numlit;
pub mod plan;
pub mod translate;
pub mod transformer;
pub mod value;

pub use dialect::SqlDialect;
pub use filetype::{get_data_filetype, sniff, Filetype};

verus! {

use crate::ast::Statement;
use crate::dataset::DataSet;
use crate::errors::QueryError;
use crate::execute::{execute, rows_vv, spec_execute_rows, spec_out_cols, spec_plan_cols_ok};
use crate::fetcher::{find_delim, retrieve_data, spec_scheme, spec_sfind, Fetch, FetcherRegistry};
use crate::plan::QueryPlan;
use crate::transformer::detect_content;
use crate::translate::{spec_plan_matches, spec_select_ok, spec_source_name};
use crate::value::{Value, ValueV};

/// Whether a parsed script is the supported shape: exactly one `SELECT`
/// within the translatable subset.
pub open spec fn spec_supported_script(stmts: Seq<Statement>) -> bool {
    stmts.len() == 1 && stmts[0] is Select && spec_select_ok(stmts[0]->Select_0)
}

/// What sniffed content decodes to: the CSV or JSON reading of the text,
/// nothing for unknown content.
pub open spec fn spec_decoded(ft: Filetype, text: Seq<char>) -> Option<
    (Seq<Seq<char>>, Seq<Seq<ValueV>>),
> {
    match ft {
        Filetype::Csv => crate::csv::spec_decode_csv(text),
        Filetype::Json => crate::decode::spec_decode_json(text),
        Filetype::Unknown => None,
    }
}

/// How a successful run relates a plan, the sniffed fetch result, and the
/// output table: the text decodes, every plan column exists in it, and the
/// output is exactly the executed pipeline over the decoded rows.
pub open spec fn spec_fetched_ok(p: QueryPlan, ft: Filetype, body: Seq<char>, out: DataSet) -> bool {
    match spec_decoded(ft, body) {
        Some((cols, rowsv)) => {
            &&& spec_plan_cols_ok(p, cols)
            &&& out.spec_cols() == spec_out_cols(p.projection@, cols)
            &&& exists|rows1: Seq<Seq<Value>>|
                #[trigger] rows_vv(rows1) == rowsv && out.spec_rows() == spec_execute_rows(
                    p,
                    cols,
                    rows1,
                )
        },
        None => false,
    }
}

/// A successful query's output came from some fetched text that decoded
/// and ran through the plan's whole pipeline.
pub open spec fn spec_query_ok(p: QueryPlan, out: DataSet) -> bool {
    exists|ft: Filetype, body: Seq<char>| #[trigger] spec_fetched_ok(p, ft, body, out)
}

/// Decode sniffed content and run a plan over it: unknown or malformed
/// content is a content error; otherwise the plan is applied exactly when
/// every column it references exists in the decoded dataset, and the
/// output is pinned to the executed pipeline over the decoded rows.
pub fn run_plan(plan: &QueryPlan, ft: Filetype, body: String) -> (r: Result<DataSet, QueryError>)
    ensures
        match spec_decoded(ft, body@) {
            None => r matches Err(e) && (e is Content),
            Some((cols, rowsv)) => {
                &&& (r is Ok <==> spec_plan_cols_ok(*plan, cols))
                &&& (r matches Err(e) ==> e is Execution)
            },
        },
        r matches Ok(out) ==> out.wf() && spec_fetched_ok(*plan, ft, body@, out),
        r matches Err(e) ==> e is Content || e is Execution,
{
    let tf = match detect_content((ft, body)) {
        Err(e) => {
            return Err(e);
        },
        Ok(t) => t,
    };
    let ds = match tf.transform() {
        Err(e) => {
            return Err(e);
        },
        Ok(d) => d,
    };
    let r = execute(plan, &ds);
    proof {
        if r is Ok {
            let rows1 = ds.spec_rows();
            assert(rows_vv(rows1) == rows1.map_values(
                |row: Seq<Value>| crate::execute::row_v(row),
            ));
        }
    }
    r
}

/// Run one parsed statement against the registry: translate it, fetch its
/// locator's content, sniff, decode and execute. The first failure aborts
/// the pipeline with its own category: an unsupported script is a
/// translation error before anything is fetched, a bad or unregistered
/// locator a locator error, a failed fetch a fetch error; past those,
/// only content and execution errors remain, and a success is the decoded
/// dataset run through the translated plan's whole pipeline.
pub fn query<F: Fetch>(registry: &FetcherRegistry<F>, stmts: &Vec<Statement>) -> (r: Result<
    DataSet,
    QueryError,
>)
    ensures
        !spec_supported_script(stmts@) ==> (r matches Err(e) && e is Translation),
        spec_supported_script(stmts@) && find_delim(spec_source_name(stmts@[0]->Select_0))
            < 0 ==> (r matches Err(e) && e is Locator),
        spec_supported_script(stmts@) && find_delim(spec_source_name(stmts@[0]->Select_0)) >= 0
            && spec_sfind(
            registry.spec_entries(),
            spec_scheme(spec_source_name(stmts@[0]->Select_0)),
        ) < 0 ==> (r matches Err(e) && e is Locator),
        spec_supported_script(stmts@) && find_delim(spec_source_name(stmts@[0]->Select_0)) >= 0
            && spec_sfind(
            registry.spec_entries(),
            spec_scheme(spec_source_name(stmts@[0]->Select_0)),
        ) >= 0 ==> (r is Ok || (r matches Err(e) && (e is Fetch || e is Content
            || e is Execution))),
        r matches Ok(out) ==> out.wf() && spec_supported_script(stmts@) && exists|p: QueryPlan|
            #[trigger] spec_plan_matches(p, stmts@[0]->Select_0) && spec_query_ok(p, out),
{
    let plan = match crate::translate::translate(stmts) {
        Err(e) => {
            return Err(e);
        },
        Ok(p) => p,
    };
    let fetched = match retrieve_data(registry, plan.locator.as_str()) {
        Err(e) => {
            return Err(e);
        },
        Ok(t) => t,
    };
    let (ft, body) = fetched;
    let ghost bodyv = body@;
    let r = run_plan(&plan, ft, body);
    proof {
        if r is Ok {
            let out = r->Ok_0;
            assert(spec_fetched_ok(plan, ft, bodyv, out));
            assert(spec_query_ok(plan, out));
            assert(spec_plan_matches(plan, stmts@[0]->Select_0) && spec_query_ok(plan, out));
        }
    }
    r
}

} // verus!
