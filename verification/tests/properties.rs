use sql_create_parser::{parse_query, ColumnDef, DataType, NumeralError, ParseError};

#[test]
fn table_name_is_case_preserved() {
    let parsed = parse_query("CREATE TABLE MyTable (x INT)").expect("valid statement");
    assert_eq!(parsed.table_name, "MyTable");
    let parsed = parse_query("create table _logs_2 (x int)").expect("valid statement");
    assert_eq!(parsed.table_name, "_logs_2");
}

#[test]
fn columns_keep_declaration_order() {
    let parsed = parse_query("CREATE TABLE t (b INT, a TEXT, c DATE)").expect("valid statement");
    let names: Vec<&str> = parsed.columns.iter().map(|c| c.name.as_str()).collect();
    assert_eq!(names, vec!["b", "a", "c"]);
}

#[test]
fn keywords_in_mixed_case_are_accepted() {
    let upper = parse_query("CREATE TABLE t (a VARCHAR(7) NOT NULL)").expect("uppercase");
    let mixed = parse_query("Create Table t (a VarChar(7) Not Null)").expect("mixed case");
    let lower = parse_query("create table t (a varchar(7) not null)").expect("lowercase");
    assert_eq!(upper, mixed);
    assert_eq!(upper, lower);
}

#[test]
fn simple_types_are_normalized_to_uppercase() {
    let lower = parse_query("create table t (a int)").expect("lowercase type");
    let upper = parse_query("create table t (a INT)").expect("uppercase type");
    assert_eq!(lower.columns[0].data_type, DataType::Simple("INT".to_string()));
    assert_eq!(lower.columns[0].data_type, upper.columns[0].data_type);
}

#[test]
fn column_names_keep_source_case() {
    let parsed = parse_query("CREATE TABLE t (UserId INT, userid TEXT)").expect("valid");
    assert_eq!(parsed.columns[0].name, "UserId");
    assert_eq!(parsed.columns[1].name, "userid");
}

#[test]
fn varchar_length_zero_is_accepted() {
    let parsed = parse_query("CREATE TABLE t (a VARCHAR(0))").expect("zero length");
    assert_eq!(parsed.columns[0].data_type, DataType::Varchar(0));
}

#[test]
fn varchar_length_max_u64_is_accepted() {
    let parsed = parse_query("CREATE TABLE t (a VARCHAR(18446744073709551615))").expect("max u64");
    assert_eq!(parsed.columns[0].data_type, DataType::Varchar(u64::MAX));
}

#[test]
fn varchar_length_above_u64_overflows() {
    let result = parse_query("CREATE TABLE t (a VARCHAR(18446744073709551616))");
    assert_eq!(
        result,
        Err(ParseError::InvalidVarcharLength(NumeralError::Overflow))
    );
}

#[test]
fn varchar_length_with_non_digit_is_the_length_error() {
    let result = parse_query("CREATE TABLE t (a VARCHAR(12a))");
    assert_eq!(
        result,
        Err(ParseError::InvalidVarcharLength(NumeralError::NonDigit))
    );
    let result = parse_query("CREATE TABLE t (a VARCHAR(abc))");
    assert_eq!(
        result,
        Err(ParseError::InvalidVarcharLength(NumeralError::NonDigit))
    );
}

#[test]
fn unknown_bare_type_is_the_invalid_data_type_error() {
    let result = parse_query("CREATE TABLE users (id FOOBAR)");
    assert_eq!(result, Err(ParseError::InvalidDataType));
}

#[test]
fn empty_input_is_no_query_found() {
    assert_eq!(parse_query(""), Err(ParseError::NoQueryFound));
    assert_eq!(parse_query("   \t\r\n "), Err(ParseError::NoQueryFound));
}

#[test]
fn missing_parentheses_is_a_syntax_error() {
    let result = parse_query("CREATE TABLE users;");
    assert!(matches!(result, Err(ParseError::ParsingError(_))));
}

#[test]
fn empty_column_list_is_rejected() {
    let result = parse_query("CREATE TABLE t ()");
    assert!(matches!(result, Err(ParseError::ParsingError(_))));
}

#[test]
fn not_without_null_is_rejected() {
    let result = parse_query("CREATE TABLE t (a INT NOT)");
    assert!(matches!(result, Err(ParseError::ParsingError(_))));
}

#[test]
fn trailing_text_after_semicolon_is_rejected() {
    let result = parse_query("CREATE TABLE t (a INT); extra");
    assert!(matches!(result, Err(ParseError::ParsingError(_))));
}

#[test]
fn wrong_leading_keyword_is_rejected() {
    let result = parse_query("ALTER TABLE t (a INT)");
    assert!(matches!(result, Err(ParseError::ParsingError(_))));
}

#[test]
fn not_null_leaves_name_and_type_alone() {
    let bare = parse_query("CREATE TABLE t (a VARCHAR(9))").expect("without constraint");
    let constrained = parse_query("CREATE TABLE t (a VARCHAR(9) NOT NULL)").expect("with it");
    assert_eq!(
        bare.columns[0],
        ColumnDef {
            name: "a".to_string(),
            data_type: DataType::Varchar(9),
            not_null: false,
        }
    );
    assert_eq!(constrained.columns[0].name, bare.columns[0].name);
    assert_eq!(constrained.columns[0].data_type, bare.columns[0].data_type);
    assert_eq!(constrained.columns[0].not_null, true);
}

#[test]
fn whitespace_between_tokens_is_insignificant() {
    let tight = parse_query("CREATE TABLE t(a INT,b VARCHAR(3));").expect("tight spacing");
    let loose = parse_query("  CREATE\tTABLE  t \n ( a  INT , b  VARCHAR ( 3 ) ) ; ").expect("loose spacing");
    assert_eq!(tight, loose);
}

#[test]
fn statement_without_semicolon_is_accepted() {
    let with = parse_query("CREATE TABLE t (a INT);").expect("with semicolon");
    let without = parse_query("CREATE TABLE t (a INT)").expect("without semicolon");
    assert_eq!(with, without);
}
