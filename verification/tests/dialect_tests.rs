use queryer::SqlDialect;
use sqlparser::parser::Parser;

#[derive(Debug)]
struct TestDialect(SqlDialect);

impl sqlparser::dialect::Dialect for TestDialect {
    fn is_identifier_start(&self, ch: char) -> bool {
        self.0.is_identifier_start(ch)
    }

    fn is_identifier_part(&self, ch: char) -> bool {
        self.0.is_identifier_part(ch)
    }
}

pub fn example_sql() -> String {
    let url = "https://raw.githubusercontent.com/owid/covid-19-data/master/public/data/latest/owid-covid-latest.csv";

    let sql = format!(
        "SELECT location name, total_cases, new_cases, total_deaths, new_deaths \
    FROM {} where new_deaths >= 500 ORDER BY new_cases DESC LIMIT 6 OFFSET 5",
        url
    );

    sql
}

#[test]
fn it_works() {
    assert!(Parser::parse_sql(&TestDialect(SqlDialect::default()), &example_sql()).is_ok());
}

#[test]
fn identifier_predicates_follow_the_overlay() {
    let d = SqlDialect;
    assert!(d.is_identifier_start('a'));
    assert!(d.is_identifier_start('Z'));
    assert!(d.is_identifier_start('_'));
    assert!(!d.is_identifier_start('1'));
    assert!(!d.is_identifier_start(':'));
    assert!(d.is_identifier_part(':'));
    assert!(d.is_identifier_part('/'));
    assert!(d.is_identifier_part('?'));
    assert!(d.is_identifier_part('&'));
    assert!(d.is_identifier_part('='));
    assert!(d.is_identifier_part('-'));
    assert!(d.is_identifier_part('.'));
    assert!(d.is_identifier_part('7'));
    assert!(!d.is_identifier_part(' '));
    assert!(!d.is_identifier_part('"'));
    assert!(!d.is_identifier_part('\''));
}
