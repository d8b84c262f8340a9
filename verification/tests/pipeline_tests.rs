use queryer::ast::{AstExpr, AstOrderItem, AstSelect, AstSelectItem, AstSource, BinOp, Statement};
use queryer::errors::QueryError;
use queryer::fetcher::{Fetch, FetcherRegistry, StaticFetcher};
use queryer::query;
use std::cell::Cell;
use std::rc::Rc;

fn select(
    from: &str,
    projection: Vec<AstSelectItem>,
    selection: Option<AstExpr>,
    order_by: Vec<AstOrderItem>,
    limit: Option<AstExpr>,
    offset: Option<AstExpr>,
) -> Vec<Statement> {
    vec![Statement::Select(AstSelect {
        sources: vec![AstSource::Table(from.to_string())],
        projection,
        selection,
        order_by,
        limit,
        offset,
    })]
}

fn col(name: &str) -> AstExpr {
    AstExpr::Column(name.to_string())
}

fn num(text: &str) -> AstExpr {
    AstExpr::Number(text.to_string())
}

fn json_registry(body: &str) -> FetcherRegistry<StaticFetcher> {
    let mut reg = FetcherRegistry::new();
    reg.register(
        "file".to_string(),
        StaticFetcher {
            hint: Some("application/json".to_string()),
            body: body.to_string(),
        },
    );
    reg
}

#[test]
fn filter_keeps_matching_rows_in_original_order() {
    let data = r#"[{"name":"bb","age":20},{"name":"cc","age":19},{"name":"aa","age":10}]"#;
    let reg = json_registry(data);
    let stmts = select(
        "file://data.json",
        vec![AstSelectItem::Column("name".to_string(), None)],
        Some(AstExpr::Binary(
            BinOp::GtEq,
            Box::new(col("age")),
            Box::new(num("18")),
        )),
        vec![],
        None,
        None,
    );
    let ds = query(&reg, &stmts).unwrap();
    assert_eq!("[{\"name\":\"bb\"},{\"name\":\"cc\"}]", ds.to_json());
}

#[test]
fn order_by_desc_with_limit_keeps_ties_in_input_order() {
    let data = r#"[{"name":"a","new_cases":5},{"name":"b","new_cases":9},{"name":"c","new_cases":9}]"#;
    let reg = json_registry(data);
    let stmts = select(
        "file://data.json",
        vec![AstSelectItem::Column("name".to_string(), None)],
        None,
        vec![AstOrderItem {
            key: col("new_cases"),
            descending: true,
        }],
        Some(num("2")),
        None,
    );
    let ds = query(&reg, &stmts).unwrap();
    assert_eq!("[{\"name\":\"b\"},{\"name\":\"c\"}]", ds.to_json());
}

#[test]
fn wildcard_round_trips_csv() {
    let mut reg = FetcherRegistry::new();
    reg.register(
        "file".to_string(),
        StaticFetcher {
            hint: None,
            body: "a,b\n1,x\n2,y\n".to_string(),
        },
    );
    let stmts = select(
        "file://data.csv",
        vec![AstSelectItem::Wildcard],
        None,
        vec![],
        None,
        None,
    );
    let ds = query(&reg, &stmts).unwrap();
    assert_eq!("a,b\n1,x\n2,y\n", ds.to_csv());
    assert_eq!("[{\"a\":1,\"b\":\"x\"},{\"a\":2,\"b\":\"y\"}]", ds.to_json());
}

#[test]
fn offset_and_limit_slice_after_sorting() {
    let mut reg = FetcherRegistry::new();
    reg.register(
        "file".to_string(),
        StaticFetcher {
            hint: None,
            body: "v\n3\n1\n4\n1\n5\n".to_string(),
        },
    );
    let stmts = select(
        "file://data.csv",
        vec![AstSelectItem::Wildcard],
        None,
        vec![AstOrderItem {
            key: col("v"),
            descending: false,
        }],
        Some(num("2")),
        Some(num("1")),
    );
    let ds = query(&reg, &stmts).unwrap();
    assert_eq!("v\n1\n3\n", ds.to_csv());
}

#[test]
fn decimal_cells_render_exactly() {
    let data = r#"[{"v":2.5},{"v":2.0},{"v":-0.625},{"v":20}]"#;
    let reg = json_registry(data);
    let stmts = select(
        "file://data.json",
        vec![AstSelectItem::Wildcard],
        None,
        vec![],
        None,
        None,
    );
    let ds = query(&reg, &stmts).unwrap();
    assert_eq!(
        "[{\"v\":2.5},{\"v\":2.0},{\"v\":-0.625},{\"v\":20}]",
        ds.to_json()
    );
}

#[test]
fn aliases_rename_projected_columns() {
    let data = r#"[{"location":"x","total":7}]"#;
    let reg = json_registry(data);
    let stmts = select(
        "file://data.json",
        vec![
            AstSelectItem::Column("location".to_string(), Some("name".to_string())),
            AstSelectItem::Column("total".to_string(), None),
        ],
        None,
        vec![],
        None,
        None,
    );
    let ds = query(&reg, &stmts).unwrap();
    assert_eq!("[{\"name\":\"x\",\"total\":7}]", ds.to_json());
}

struct RecordingFetcher {
    called: Rc<Cell<bool>>,
}

impl Fetch for RecordingFetcher {
    fn fetch(&self, _locator: &str) -> Result<(Option<String>, String), String> {
        self.called.set(true);
        Err("should never run".to_string())
    }
}

#[test]
fn multiple_statements_fail_before_any_fetch() {
    let parsed = sqlparser::parser::Parser::parse_sql(
        &sqlparser::dialect::GenericDialect {},
        "SELECT 1; SELECT 2;",
    )
    .unwrap();
    assert_eq!(2, parsed.len());

    let mut reg = FetcherRegistry::new();
    let called = Rc::new(Cell::new(false));
    let fetcher = RecordingFetcher {
        called: called.clone(),
    };
    reg.register("file".to_string(), fetcher);
    // two statements, as the parse above yields
    let stmts = vec![Statement::Unsupported, Statement::Unsupported];
    match query(&reg, &stmts) {
        Err(QueryError::Translation(_)) => {}
        other => panic!("expected a translation error, got {:?}", other.map(|_| ())),
    }
    assert!(!called.get());
}

#[test]
fn registered_scheme_resolves_and_unregistered_fails() {
    let mut reg: FetcherRegistry<StaticFetcher> = FetcherRegistry::new();
    reg.register(
        "custom".to_string(),
        StaticFetcher {
            hint: Some("json".to_string()),
            body: r#"[{"name":"aa","score":88},{"name":"bb","score":91}]"#.to_string(),
        },
    );
    let stmts = select(
        "custom://anything",
        vec![AstSelectItem::Wildcard],
        None,
        vec![],
        None,
        None,
    );
    let ds = query(&reg, &stmts).unwrap();
    assert_eq!(
        "[{\"name\":\"aa\",\"score\":88},{\"name\":\"bb\",\"score\":91}]",
        ds.to_json()
    );

    let bad = select(
        "ftp://x",
        vec![AstSelectItem::Wildcard],
        None,
        vec![],
        None,
        None,
    );
    match query(&reg, &bad) {
        Err(QueryError::Locator(_)) => {}
        other => panic!("expected a locator error, got {:?}", other.map(|_| ())),
    }
}

#[test]
fn malformed_locator_is_a_locator_error() {
    let reg = json_registry("[]");
    let stmts = select(
        "no-delimiter-here",
        vec![AstSelectItem::Wildcard],
        None,
        vec![],
        None,
        None,
    );
    match query(&reg, &stmts) {
        Err(QueryError::Locator(_)) => {}
        other => panic!("expected a locator error, got {:?}", other.map(|_| ())),
    }
}

#[test]
fn unknown_content_is_a_content_error() {
    let mut reg = FetcherRegistry::new();
    reg.register(
        "file".to_string(),
        StaticFetcher {
            hint: None,
            body: "whatever".to_string(),
        },
    );
    let stmts = select(
        "file://data.bin",
        vec![AstSelectItem::Wildcard],
        None,
        vec![],
        None,
        None,
    );
    match query(&reg, &stmts) {
        Err(QueryError::Content(_)) => {}
        other => panic!("expected a content error, got {:?}", other.map(|_| ())),
    }
}

#[test]
fn malformed_json_is_a_content_error() {
    let reg = json_registry("{\"not\":\"an array\"}");
    let stmts = select(
        "file://data.json",
        vec![AstSelectItem::Wildcard],
        None,
        vec![],
        None,
        None,
    );
    match query(&reg, &stmts) {
        Err(QueryError::Content(_)) => {}
        other => panic!("expected a content error, got {:?}", other.map(|_| ())),
    }
}

#[test]
fn failed_fetch_is_a_fetch_error() {
    let mut reg = FetcherRegistry::new();
    reg.register(
        "file".to_string(),
        RecordingFetcher {
            called: Rc::new(Cell::new(false)),
        },
    );
    let stmts = select(
        "file://data.json",
        vec![AstSelectItem::Wildcard],
        None,
        vec![],
        None,
        None,
    );
    match query(&reg, &stmts) {
        Err(QueryError::Fetch(m)) => assert_eq!("should never run", m),
        other => panic!("expected a fetch error, got {:?}", other.map(|_| ())),
    }
}

#[test]
fn missing_column_is_an_execution_error() {
    let reg = json_registry(r#"[{"name":"aa"}]"#);
    let stmts = select(
        "file://data.json",
        vec![AstSelectItem::Wildcard],
        Some(AstExpr::Binary(
            BinOp::Gt,
            Box::new(col("age")),
            Box::new(num("1")),
        )),
        vec![],
        None,
        None,
    );
    match query(&reg, &stmts) {
        Err(QueryError::Execution(_)) => {}
        other => panic!("expected an execution error, got {:?}", other.map(|_| ())),
    }
}

#[test]
fn unsupported_projection_is_a_translation_error() {
    let reg = json_registry("[]");
    let stmts = select(
        "file://data.json",
        vec![AstSelectItem::Unsupported],
        None,
        vec![],
        None,
        None,
    );
    match query(&reg, &stmts) {
        Err(QueryError::Translation(_)) => {}
        other => panic!("expected a translation error, got {:?}", other.map(|_| ())),
    }
}

#[test]
fn negative_limit_is_a_translation_error() {
    let reg = json_registry("[]");
    let stmts = select(
        "file://data.json",
        vec![AstSelectItem::Wildcard],
        None,
        vec![],
        Some(num("-1")),
        None,
    );
    match query(&reg, &stmts) {
        Err(QueryError::Translation(_)) => {}
        other => panic!("expected a translation error, got {:?}", other.map(|_| ())),
    }
}

#[test]
fn identical_queries_yield_identical_output() {
    let data = r#"[{"name":"bb","age":20},{"name":"cc","age":19},{"name":"aa","age":10}]"#;
    let stmts = select(
        "file://data.json",
        vec![AstSelectItem::Column("name".to_string(), None)],
        Some(AstExpr::Binary(
            BinOp::GtEq,
            Box::new(col("age")),
            Box::new(num("18")),
        )),
        vec![],
        None,
        None,
    );
    let first = query(&json_registry(data), &stmts).unwrap().to_json();
    let second = query(&json_registry(data), &stmts).unwrap().to_json();
    assert_eq!(first, second);
}
