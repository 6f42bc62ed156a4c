use truth_table::environment::Environment;
use truth_table::interpreter::Interpreter;
use truth_table::lexer::Lexer;
use truth_table::parser::Parser;
use truth_table::stmt::Stmt;
use truth_table::token::{Literal, Token};
use truth_table::token_type::TokenType;
use truth_table::truth_table_printer::{TruthTable, TruthTablePrinter};

fn scan(src: &str) -> Vec<Token> {
    let mut lexer = Lexer::new(src.to_string());
    lexer.scan_tokens().clone()
}

fn parse_one(src: &str) -> Result<Stmt, &'static str> {
    let tokens = scan(src);
    let mut parser = Parser::new(tokens);
    let statements = parser.parse()?;
    Ok(statements.into_iter().next().expect("one statement"))
}

fn table_for(src: &str) -> Result<TruthTable, &'static str> {
    let stmt = parse_one(src)?;
    let mut printer = TruthTablePrinter::new();
    printer.tabulate(stmt)
}

fn header_of(table: &TruthTable) -> Vec<&str> {
    table.header.iter().map(|h| h.as_str()).collect()
}

#[test]
fn scan_single_char_tokens() {
    let kinds: Vec<TokenType> = scan("()+|*&';=").iter().map(|t| t.token_type).collect();
    assert_eq!(
        kinds,
        vec![
            TokenType::LeftParen,
            TokenType::RightParen,
            TokenType::Or,
            TokenType::Or,
            TokenType::And,
            TokenType::And,
            TokenType::Not,
            TokenType::Semicolon,
            TokenType::Equals,
            TokenType::Eof,
        ]
    );
}

#[test]
fn scan_keywords_and_identifiers() {
    let tokens = scan("true false truth _x ab1");
    let kinds: Vec<TokenType> = tokens.iter().map(|t| t.token_type).collect();
    assert_eq!(
        kinds,
        vec![
            TokenType::True,
            TokenType::False,
            TokenType::Identifier,
            TokenType::Identifier,
            TokenType::Identifier,
            TokenType::Eof,
        ]
    );
    assert_eq!(tokens[2].lexeme, "truth");
    assert_eq!(tokens[3].lexeme, "_x");
    assert_eq!(tokens[4].lexeme, "ab1");
}

#[test]
fn scan_numbers() {
    let tokens = scan("42 007");
    assert_eq!(tokens[0].token_type, TokenType::Num);
    assert_eq!(tokens[0].lexeme, "42");
    assert_eq!(tokens[1].token_type, TokenType::Num);
    assert_eq!(tokens[1].lexeme, "007");
}

#[test]
fn scan_skips_whitespace_and_reports_unexpected() {
    let mut lexer = Lexer::new("a \t@\r\n b".to_string());
    let tokens = lexer.scan_tokens().clone();
    let kinds: Vec<TokenType> = tokens.iter().map(|t| t.token_type).collect();
    assert_eq!(kinds, vec![TokenType::Identifier, TokenType::Identifier, TokenType::Eof]);
    assert_eq!(lexer.unexpected, 1);
}

#[test]
fn scan_prefix_not() {
    let tokens = scan("!a");
    assert_eq!(tokens[0].token_type, TokenType::PreNot);
    assert_eq!(tokens[1].token_type, TokenType::Identifier);
}

#[test]
fn literal_truthiness() {
    assert!(Literal::Boolean(true).evaluate());
    assert!(!Literal::Boolean(false).evaluate());
    assert!(!Literal::Number(0).evaluate());
    assert!(Literal::Number(7).evaluate());
}

#[test]
fn parse_precedence_or_over_and() {
    // `a + b * c` parses as Or(a, And(b, c)): with a=false, b=true, c=false
    // the output is false, where the wrong grouping And(Or(a, b), c) would
    // also give false — so check the tree shape itself.
    let stmt = parse_one("a + b * c;").expect("parses");
    let Stmt::Expression { value } = stmt else {
        panic!("expected expression statement");
    };
    match value {
        truth_table::expr::Expr::Binary(left, op, right) => {
            assert_eq!(op.token_type, TokenType::Or);
            assert!(matches!(*left, truth_table::expr::Expr::Variable(ref t) if t.lexeme == "a"));
            match *right {
                truth_table::expr::Expr::Binary(ref l2, ref op2, ref r2) => {
                    assert_eq!(op2.token_type, TokenType::And);
                    assert!(
                        matches!(**l2, truth_table::expr::Expr::Variable(ref t) if t.lexeme == "b")
                    );
                    assert!(
                        matches!(**r2, truth_table::expr::Expr::Variable(ref t) if t.lexeme == "c")
                    );
                }
                _ => panic!("right operand should be And(b, c)"),
            }
        }
        _ => panic!("expected Or at the top"),
    }
}

#[test]
fn precedence_by_evaluation() {
    // d = a + b * c with a=false, b=true, c=false is row t=2 of the table
    // (a is the most significant bit): Or(false, And(true, false)) = false.
    let table = table_for("d = a + b * c;").expect("table");
    assert_eq!(header_of(&table), vec!["a", "b", "c", "d"]);
    assert_eq!(table.rows[2], vec![false, true, false, false]);
}

#[test]
fn grouping_resets_precedence() {
    // (a + b) * c with a=true, b=false, c=false -> false
    let table = table_for("d = (a + b) * c;").expect("table");
    assert_eq!(header_of(&table), vec!["a", "b", "c", "d"]);
    assert_eq!(table.rows[4], vec![true, false, false, false]);
}

#[test]
fn operator_semantics() {
    // a * b with a=true, b=false -> false
    let and_table = table_for("c = a * b;").expect("table");
    assert_eq!(and_table.rows[2], vec![true, false, false]);
    // a + b with a=true, b=false -> true
    let or_table = table_for("c = a + b;").expect("table");
    assert_eq!(or_table.rows[2], vec![true, false, true]);
    // a' with a=true -> false
    let postfix_table = table_for("c = a';").expect("table");
    assert_eq!(postfix_table.rows[1], vec![true, false]);
    // !a with a=false -> true
    let prefix_table = table_for("c = !a;").expect("table");
    assert_eq!(prefix_table.rows[0], vec![false, true]);
}

#[test]
fn double_negation() {
    // a'' with a=true -> true
    let table = table_for("c = a'';").expect("table");
    assert_eq!(table.rows[1], vec![true, true]);
}

#[test]
fn end_to_end_scenario() {
    // c = a * b + a' computes (a AND b) OR (NOT a)
    let table = table_for("c = a * b + a';").expect("table");
    assert_eq!(header_of(&table), vec!["a", "b", "c"]);
    assert_eq!(table.rows.len(), 4);
    assert_eq!(table.rows[0], vec![false, false, true]);
    assert_eq!(table.rows[1], vec![false, true, true]);
    assert_eq!(table.rows[2], vec![true, false, false]);
    assert_eq!(table.rows[3], vec![true, true, true]);
}

#[test]
fn malformed_input_is_a_syntax_error() {
    let result = parse_one("a + ;");
    assert_eq!(result, Err("Expect expression."));
}

#[test]
fn missing_semicolon_is_a_syntax_error() {
    assert_eq!(parse_one("c = a"), Err("Expect ';' after value."));
    assert_eq!(parse_one("a + b"), Err("Expect ';' after expression."));
}

#[test]
fn missing_close_paren_is_a_syntax_error() {
    assert_eq!(parse_one("c = (a + b;"), Err("Expect value."));
    assert_eq!(parse_one("(a + b;"), Err("Expect ')' after expression."));
}

#[test]
fn invalid_assignment_target() {
    assert_eq!(parse_one("(a) = b;"), Err("Invalid assignment target."));
}

#[test]
fn bare_expression_yields_no_table() {
    let stmt = parse_one("a + b;").expect("parses");
    let mut printer = TruthTablePrinter::new();
    assert_eq!(printer.tabulate(stmt).unwrap_err(), "Expected Assign statement");
}

#[test]
fn zero_variable_statement() {
    let table = table_for("c = true;").expect("table");
    assert_eq!(header_of(&table), vec!["c"]);
    assert_eq!(table.rows, vec![vec![true]]);
}

#[test]
fn number_literals_are_truthy_when_nonzero() {
    let zero = table_for("c = 0;").expect("table");
    assert_eq!(zero.rows, vec![vec![false]]);
    let five = table_for("c = 5;").expect("table");
    assert_eq!(five.rows, vec![vec![true]]);
}

#[test]
fn row_count_is_a_power_of_two() {
    let table = table_for("d = a + b + c;").expect("table");
    assert_eq!(table.rows.len(), 8);
    let one_var = table_for("d = a;").expect("table");
    assert_eq!(one_var.rows.len(), 2);
}

#[test]
fn header_is_sorted_with_dependent_last() {
    let table = table_for("z = b + a;").expect("table");
    assert_eq!(header_of(&table), vec!["a", "b", "z"]);
    let table2 = table_for("a = z * y;").expect("table");
    assert_eq!(header_of(&table2), vec!["y", "z", "a"]);
}

#[test]
fn first_variable_is_most_significant_bit() {
    let table = table_for("d = a * b;").expect("table");
    assert_eq!(table.rows[0], vec![false, false, false]);
    assert_eq!(table.rows[1], vec![false, true, false]);
    assert_eq!(table.rows[2], vec![true, false, false]);
    assert_eq!(table.rows[3], vec![true, true, true]);
}

#[test]
fn enumeration_is_repeatable() {
    let stmt1 = parse_one("c = a * b + a';").expect("parses");
    let stmt2 = parse_one("c = a * b + a';").expect("parses");
    let mut printer1 = TruthTablePrinter::new();
    let mut printer2 = TruthTablePrinter::new();
    let t1 = printer1.tabulate(stmt1).expect("table");
    let t2 = printer2.tabulate(stmt2).expect("table");
    assert_eq!(t1.header, t2.header);
    assert_eq!(t1.rows, t2.rows);
}

#[test]
fn nested_assignment_is_an_expression() {
    // The inner assignment writes x and its value flows outward; x is
    // written, not read, so it is no column.
    let table = table_for("c = (x = true) + b;").expect("table");
    assert_eq!(header_of(&table), vec!["b", "c"]);
    assert_eq!(table.rows, vec![vec![false, true], vec![true, true]]);
}

#[test]
fn self_reference_feeds_back_table_value() {
    // The dependent variable read in its own expression observes what the
    // previous row wrote back (the seeded default first).
    let table = table_for("c = c;").expect("table");
    assert_eq!(header_of(&table), vec!["c", "c"]);
    assert_eq!(table.rows, vec![vec![false, false], vec![true, true]]);
}

#[test]
fn too_many_variables_is_refused() {
    let vars: Vec<String> = (0..32).map(|i| format!("v{:02}", i)).collect();
    let src = format!("x = {};", vars.join(" + "));
    assert_eq!(table_for(&src).unwrap_err(), "Too many variables.");
}

#[test]
fn multiple_statements_parse_in_order() {
    let tokens = scan("a + b; c = d;");
    let mut parser = Parser::new(tokens);
    let statements = parser.parse().expect("parses");
    assert_eq!(statements.len(), 2);
    assert!(matches!(statements[0], Stmt::Expression { .. }));
    assert!(matches!(statements[1], Stmt::Assign { .. }));
}

#[test]
fn environment_define_get_assign() {
    let mut env = Environment::new();
    env.define("a".to_string(), Literal::Boolean(true));
    assert_eq!(env.get("a".to_string()), Literal::Boolean(true));
    env.assign("a".to_string(), Literal::Boolean(false));
    assert_eq!(env.get("a".to_string()), Literal::Boolean(false));
    env.define("n".to_string(), Literal::Number(3));
    assert_eq!(env.get("n".to_string()), Literal::Number(3));
}

#[test]
fn interpreter_evaluates_under_bindings() {
    let stmt = parse_one("a + b * c;").expect("parses");
    let Stmt::Expression { value } = stmt else {
        panic!("expected expression statement");
    };
    let mut env = Environment::new();
    env.define("a".to_string(), Literal::Boolean(false));
    env.define("b".to_string(), Literal::Boolean(true));
    env.define("c".to_string(), Literal::Boolean(false));
    let mut interpreter = Interpreter::new();
    interpreter.update_environment(env);
    assert!(!interpreter.evaluate(&value));
}

#[test]
fn large_number_literal_parses() {
    let table = table_for("c = 18446744073709551615;").expect("table");
    assert_eq!(table.rows, vec![vec![true]]);
}
