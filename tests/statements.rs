use rowstore::row::{str_from_array, Row};
use rowstore::statement::{
    do_meta_command, execute_insert, execute_select, execute_statement, PrepareError, Statement,
    StatementType,
};
use rowstore::table::{ExecuteError, Table};

fn text(field: &[u8]) -> String {
    String::from_utf8(str_from_array(field)).unwrap()
}

#[test]
fn prepare_insert_builds_the_row() {
    let s = Statement::prepare("insert 1 alice alice@x.com").unwrap();
    assert_eq!(s.statement_type, StatementType::Insert);
    let r = s.row_to_insert.unwrap();
    assert_eq!(r.id, 1);
    assert_eq!(text(&r.username), "alice");
    assert_eq!(text(&r.email), "alice@x.com");
    assert_eq!(r.username.len(), 32);
    assert_eq!(r.email.len(), 255);
}

#[test]
fn prepare_insert_accepts_a_plus_sign() {
    let s = Statement::prepare("insert +12 bob b@x").unwrap();
    assert_eq!(s.row_to_insert.unwrap().id, 12);
}

#[test]
fn prepare_select() {
    let s = Statement::prepare("select").unwrap();
    assert_eq!(s.statement_type, StatementType::Select);
    assert!(s.row_to_insert.is_none());
}

#[test]
fn prepare_errors() {
    assert_eq!(Statement::prepare("update 1").err(), Some(PrepareError::UnrecognizedStatement));
    assert_eq!(Statement::prepare("insert 1 alice").err(), Some(PrepareError::SyntaxError));
    assert_eq!(Statement::prepare("insert x alice a@x").err(), Some(PrepareError::SyntaxError));
    assert_eq!(Statement::prepare("insert -1 alice a@x").err(), Some(PrepareError::NegativeId));
    let long_name = format!("insert 1 {} a@x", "n".repeat(33));
    assert_eq!(Statement::prepare(&long_name).err(), Some(PrepareError::StringTooLong));
    let long_mail = format!("insert 1 n {}", "m".repeat(256));
    assert_eq!(Statement::prepare(&long_mail).err(), Some(PrepareError::StringTooLong));
    let widest = format!("insert 1 {} {}", "n".repeat(32), "m".repeat(255));
    assert!(Statement::prepare(&widest).is_ok());
}

#[test]
fn from_insert_tokens_cases() {
    let toks = |v: &[&str]| v.iter().map(|s| s.to_string()).collect::<Vec<String>>();
    assert_eq!(Statement::from_insert_tokens(&toks(&["3"])).err(), Some(PrepareError::SyntaxError));
    assert_eq!(
        Statement::from_insert_tokens(&toks(&["3", "", "e"])).err(),
        Some(PrepareError::SyntaxError)
    );
    assert_eq!(
        Statement::from_insert_tokens(&toks(&["99999999999", "u", "e"])).err(),
        Some(PrepareError::SyntaxError)
    );
    assert_eq!(
        Statement::from_insert_tokens(&toks(&["-5", "u", "e"])).err(),
        Some(PrepareError::NegativeId)
    );
    let s = Statement::from_insert_tokens(&toks(&["2147483647", "u", "e"])).unwrap();
    assert_eq!(s.row_to_insert.unwrap().id, 2147483647);
}

#[test]
fn execute_statements_against_a_table() {
    let mut t = Table::new(Vec::new()).unwrap();
    let ins = Statement::prepare("insert 1 alice alice@x.com").unwrap();
    assert_eq!(execute_insert(&ins, &mut t), Ok(()));
    let ins2 = Statement::prepare("insert 2 bob bob@x.com").unwrap();
    assert_eq!(execute_statement(&ins2, &mut t).unwrap().len(), 0);
    let sel = Statement::prepare("select").unwrap();
    let rows: Vec<Row> = execute_statement(&sel, &mut t).unwrap();
    assert_eq!(rows.len(), 2);
    assert_eq!(rows[1].id, 2);
    assert_eq!(text(&rows[1].email), "bob@x.com");
    assert_eq!(execute_select(&sel, &mut t).len(), 2);
}

#[test]
fn execute_insert_reports_a_full_table() {
    let mut t = Table::new(Vec::new()).unwrap();
    let ins = Statement::prepare("insert 1 a b").unwrap();
    for _ in 0..13 {
        assert_eq!(execute_statement(&ins, &mut t).map(|v| v.len()), Ok(0));
    }
    assert_eq!(execute_statement(&ins, &mut t).err(), Some(ExecuteError::TableFull));
}

#[test]
fn meta_commands() {
    let mut t = Table::new(Vec::new()).unwrap();
    t.insert(&Row::from_fields(4, b"d", b"d@x").unwrap()).unwrap();
    assert_eq!(do_meta_command(".tables", &mut t), Err(()));
    assert!(t.pager.store.is_empty());
    assert_eq!(do_meta_command(".exit", &mut t), Ok(()));
    assert_eq!(t.pager.store.len(), 4096);
    let mut reopened = Table::new(t.pager.store.clone()).unwrap();
    assert_eq!(reopened.select()[0].id, 4);
}
