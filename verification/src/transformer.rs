//! The decoder dispatch: sniffed content is handed to the format's reader,
//! unknown content is refused before any execution step runs.
use vstd::prelude::*;

use crate::csv::{decode_csv, spec_decode_csv};
use crate::dataset::DataSet;
use crate::decode::{decode_json, spec_decode_json};
use crate::errors::QueryError;
use crate::filetype::Filetype;
use crate::value::Value;

verus! {

/// Anything that can decode itself into a dataset.
pub trait Transform {
    type Error;

    fn transform(self) -> Result<DataSet, Self::Error>;
}

/// CSV content awaiting decoding.
#[derive(Debug)]
pub struct CsvTransformer(pub String);

/// JSON content awaiting decoding.
#[derive(Debug)]
pub struct JsonTransformer(pub String);

impl Transform for CsvTransformer {
    type Error = QueryError;

    fn transform(self) -> Result<DataSet, Self::Error> {
        decode_csv(self.0.as_str())
    }
}

impl Transform for JsonTransformer {
    type Error = QueryError;

    fn transform(self) -> Result<DataSet, Self::Error> {
        decode_json(self.0.as_str())
    }
}

/// Recognized content, paired with its reader.
#[derive(Debug)]
pub enum Transformer {
    Csv(CsvTransformer),
    Json(JsonTransformer),
}

impl Transformer {
    /// Decode the held content with its format's reader.
    pub fn transform(self) -> (r: Result<DataSet, QueryError>)
        ensures
            ({
                let dec = match self {
                    Transformer::Csv(c) => spec_decode_csv(c.0@),
                    Transformer::Json(j) => spec_decode_json(j.0@),
                };
                match dec {
                    Some((cols, rowsv)) => r matches Ok(ds) && ds.wf() && ds.spec_cols() == cols
                        && ds.spec_rows().map_values(
                        |row: Seq<Value>| crate::execute::row_v(row),
                    ) == rowsv,
                    None => r matches Err(e) && e is Content,
                }
            }),
    {
        match self {
            Transformer::Csv(c) => decode_csv(c.0.as_str()),
            Transformer::Json(j) => decode_json(j.0.as_str()),
        }
    }
}

/// Pair sniffed content with its reader; unknown content is a content
/// error, raised before any execution step runs.
pub fn detect_content(tup: (Filetype, String)) -> (r: Result<Transformer, QueryError>)
    ensures
        match tup.0 {
            Filetype::Csv => r matches Ok(t) && t matches Transformer::Csv(c) && c.0@ == tup.1@,
            Filetype::Json => r matches Ok(t) && t matches Transformer::Json(j) && j.0@
                == tup.1@,
            Filetype::Unknown => r matches Err(e) && e is Content,
        },
{
    match tup.0 {
        Filetype::Csv => Ok(Transformer::Csv(CsvTransformer(tup.1))),
        Filetype::Json => Ok(Transformer::Json(JsonTransformer(tup.1))),
        Filetype::Unknown => Err(QueryError::Content("unsupported content type".to_owned())),
    }
}

} // verus!
