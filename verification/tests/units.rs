use std::collections::HashMap;

use rusty_lox::ast::Ast;
use rusty_lox::environment::{Environment, Environments};
use rusty_lox::expr::Expr;
use rusty_lox::interpreter::{
    invalid_operand_number, Action, Event, Interpreter, Outcome, RuntimeError,
};
use rusty_lox::lox_type::{
    nan, negate, not, numbers_equal, numbers_less, stringify_double, LoxValue,
};
use rusty_lox::native_function::{Native, NativeFunction};
use rusty_lox::parser::Parser;
use rusty_lox::resolver::Resolver;
use rusty_lox::scanner::{is_alpha, is_alpha_numeric, is_digit, Scanner};
use rusty_lox::stmt::Stmt;
use rusty_lox::text::{chars_of, decimal_text, text, text_of};
use rusty_lox::token::{Literal, Token, TokenType};
use rusty_lox::{error, error_token, locate, report, Lox};

fn scan(source: &str) -> (Vec<Token>, Vec<String>) {
    let mut scanner = Scanner::new(source.to_string());
    let tokens = match scanner.scan_tokens() {
        Ok(tokens) => {
            assert!(scanner.diagnostics.is_empty());
            tokens
        }
        Err(tokens) => {
            assert!(!scanner.diagnostics.is_empty());
            tokens
        }
    };
    (tokens, scanner.diagnostics)
}

fn kinds(source: &str) -> Vec<TokenType> {
    scan(source).0.iter().map(|t| t.kind).collect()
}

struct Parse {
    ast: Ast,
    statements: Option<Vec<usize>>,
    diagnostics: Vec<String>,
}

fn parse(source: &str) -> Parse {
    let (tokens, scanned) = scan(source);
    assert!(scanned.is_empty());
    let mut parser = Parser::new(&tokens, Ast::new());
    let statements = parser.parse().ok();
    assert_eq!(statements.is_none(), parser.had_error);
    Parse { ast: parser.ast, statements, diagnostics: parser.diagnostics }
}

/// The expression of the `at`-th statement, which must be an expression
/// statement or a `print`.
fn expression_of(parse: &Parse, at: usize) -> usize {
    let id = parse.statements.as_ref().expect("no syntax error")[at];
    match &parse.ast.stmts[id] {
        Stmt::Expression { expression } => *expression,
        Stmt::Print { expression } => *expression,
        _ => panic!("no expression statement"),
    }
}

/// An expression written with every grouping shown.
fn show(ast: &Ast, id: usize) -> String {
    match &ast.exprs[id] {
        Expr::Binary { left, operator, right } => {
            format!("({} {} {})", operator.lexeme, show(ast, *left), show(ast, *right))
        }
        Expr::Logical { left, operator, right } => {
            format!("[{} {} {}]", operator.lexeme, show(ast, *left), show(ast, *right))
        }
        Expr::Grouping { expression } => format!("(group {})", show(ast, *expression)),
        Expr::Literal { value } => match value {
            Literal::Nil => "nil".to_string(),
            Literal::Boolean(b) => format!("{}", b),
            Literal::Number(n) => n.clone(),
            Literal::Text(t) => format!("\"{}\"", t),
        },
        Expr::Unary { operator, right } => format!("({} {})", operator.lexeme, show(ast, *right)),
        Expr::Variable { name } => name.lexeme.clone(),
        Expr::Assign { name, value } => format!("(= {} {})", name.lexeme, show(ast, *value)),
        Expr::Call { callee, paren: _, arguments } => {
            let mut out = format!("(call {}", show(ast, *callee));
            for a in arguments {
                out.push(' ');
                out.push_str(&show(ast, *a));
            }
            out.push(')');
            out
        }
    }
}

fn shown(source: &str) -> String {
    let parsed = parse(source);
    assert_eq!(parsed.diagnostics, Vec::<String>::new());
    show(&parsed.ast, expression_of(&parsed, 0))
}

/// A statement written with its parts.
fn show_stmt(ast: &Ast, id: usize) -> String {
    match &ast.stmts[id] {
        Stmt::Expression { expression } => format!("{};", show(ast, *expression)),
        Stmt::Print { expression } => format!("print {};", show(ast, *expression)),
        Stmt::Var { name, initializer } => {
            format!("var {} = {};", name.lexeme, show(ast, *initializer))
        }
        Stmt::Block { statements } => {
            let parts: Vec<String> = statements.iter().map(|s| show_stmt(ast, *s)).collect();
            format!("{{ {} }}", parts.join(" "))
        }
        Stmt::If { condition, then_branch, else_branch } => match else_branch {
            Some(e) => format!(
                "if {} {} else {}",
                show(ast, *condition),
                show_stmt(ast, *then_branch),
                show_stmt(ast, *e)
            ),
            None => format!("if {} {}", show(ast, *condition), show_stmt(ast, *then_branch)),
        },
        Stmt::While { condition, body } => {
            format!("while {} {}", show(ast, *condition), show_stmt(ast, *body))
        }
        Stmt::Function { name, params, body } => {
            let names: Vec<String> = params.iter().map(|p| p.lexeme.clone()).collect();
            let parts: Vec<String> = body.iter().map(|s| show_stmt(ast, *s)).collect();
            format!("fun {}({}) {{ {} }}", name.lexeme, names.join(", "), parts.join(" "))
        }
        Stmt::Return { keyword: _, value } => format!("return {};", show(ast, *value)),
    }
}

fn shown_program(source: &str) -> Vec<String> {
    let parsed = parse(source);
    assert_eq!(parsed.diagnostics, Vec::<String>::new());
    parsed.statements.unwrap().iter().map(|s| show_stmt(&parsed.ast, *s)).collect()
}

#[test]
fn characters_are_classified() {
    for c in ['0', '5', '9'] {
        assert!(is_digit(c));
        assert!(!is_alpha(c));
        assert!(is_alpha_numeric(c));
    }
    for c in ['a', 'z', 'A', 'Z', '_', 'q'] {
        assert!(!is_digit(c));
        assert!(is_alpha(c));
        assert!(is_alpha_numeric(c));
    }
    for c in ['/', ':', '@', '[', '`', '{', ' ', '\n', 'é', '٣'] {
        assert!(!is_digit(c));
        assert!(!is_alpha(c));
        assert!(!is_alpha_numeric(c));
    }
}

#[test]
fn punctuation_is_scanned() {
    assert_eq!(
        kinds("(){},.-+;/*%"),
        vec![
            TokenType::LEFT_PAREN,
            TokenType::RIGHT_PAREN,
            TokenType::LEFT_BRACE,
            TokenType::RIGHT_BRACE,
            TokenType::COMMA,
            TokenType::DOT,
            TokenType::MINUS,
            TokenType::PLUS,
            TokenType::SEMICOLON,
            TokenType::SLASH,
            TokenType::STAR,
            TokenType::PERCENTAGE,
            TokenType::EOF,
        ]
    );
}

#[test]
fn operators_take_a_following_equals_sign() {
    assert_eq!(
        kinds("! != = == < <= > >= !== =< ="),
        vec![
            TokenType::BANG,
            TokenType::BANG_EQUAL,
            TokenType::EQUAL,
            TokenType::EQUAL_EQUAL,
            TokenType::LESS,
            TokenType::LESS_EQUAL,
            TokenType::GREATER,
            TokenType::GREATER_EQUAL,
            TokenType::BANG_EQUAL,
            TokenType::EQUAL,
            TokenType::EQUAL,
            TokenType::LESS,
            TokenType::EQUAL,
            TokenType::EOF,
        ]
    );
}

#[test]
fn keywords_are_told_from_identifiers() {
    assert_eq!(
        kinds("and class else false fun for if nil or print return super this true var while"),
        vec![
            TokenType::AND,
            TokenType::CLASS,
            TokenType::ELSE,
            TokenType::FALSE,
            TokenType::FUN,
            TokenType::FOR,
            TokenType::IF,
            TokenType::NIL,
            TokenType::OR,
            TokenType::PRINT,
            TokenType::RETURN,
            TokenType::SUPER,
            TokenType::THIS,
            TokenType::TRUE,
            TokenType::VAR,
            TokenType::WHILE,
            TokenType::EOF,
        ]
    );
    assert_eq!(
        kinds("andy classes _var whiles For nil_ x1 _"),
        vec![
            TokenType::IDENTIFIER,
            TokenType::IDENTIFIER,
            TokenType::IDENTIFIER,
            TokenType::IDENTIFIER,
            TokenType::IDENTIFIER,
            TokenType::IDENTIFIER,
            TokenType::IDENTIFIER,
            TokenType::IDENTIFIER,
            TokenType::EOF,
        ]
    );
}

#[test]
fn tokens_keep_their_text_and_line() {
    let (tokens, diagnostics) = scan("var answer = 42.5;\n// nothing\nprint \"hi\nthere\" ;");
    assert!(diagnostics.is_empty());
    let seen: Vec<(TokenType, String, u32)> =
        tokens.iter().map(|t| (t.kind, t.lexeme.clone(), t.line)).collect();
    assert_eq!(
        seen,
        vec![
            (TokenType::VAR, "var".to_string(), 1),
            (TokenType::IDENTIFIER, "answer".to_string(), 1),
            (TokenType::EQUAL, "=".to_string(), 1),
            (TokenType::NUMBER, "42.5".to_string(), 1),
            (TokenType::SEMICOLON, ";".to_string(), 1),
            (TokenType::PRINT, "print".to_string(), 3),
            (TokenType::STRING, "\"hi\nthere\"".to_string(), 4),
            (TokenType::SEMICOLON, ";".to_string(), 4),
            (TokenType::EOF, "".to_string(), 4),
        ]
    );
    assert!(matches!(&tokens[3].literal, Literal::Number(n) if n == "42.5"));
    assert!(matches!(&tokens[6].literal, Literal::Text(t) if t == "hi\nthere"));
    assert!(matches!(&tokens[0].literal, Literal::Nil));
}

#[test]
fn numbers_have_no_leading_or_trailing_dot() {
    let (tokens, _) = scan("1. .5 1.5.2 007 3.14x");
    let seen: Vec<(TokenType, String)> = tokens.iter().map(|t| (t.kind, t.lexeme.clone())).collect();
    assert_eq!(
        seen,
        vec![
            (TokenType::NUMBER, "1".to_string()),
            (TokenType::DOT, ".".to_string()),
            (TokenType::DOT, ".".to_string()),
            (TokenType::NUMBER, "5".to_string()),
            (TokenType::NUMBER, "1.5".to_string()),
            (TokenType::DOT, ".".to_string()),
            (TokenType::NUMBER, "2".to_string()),
            (TokenType::NUMBER, "007".to_string()),
            (TokenType::NUMBER, "3.14".to_string()),
            (TokenType::IDENTIFIER, "x".to_string()),
            (TokenType::EOF, "".to_string()),
        ]
    );
}

#[test]
fn the_empty_text_scans_to_the_end_marker() {
    let (tokens, diagnostics) = scan("");
    assert!(diagnostics.is_empty());
    assert_eq!(tokens.len(), 1);
    assert_eq!(tokens[0].kind, TokenType::EOF);
    assert_eq!(tokens[0].line, 1);
    assert_eq!(kinds(" \t\r\n// only a comment"), vec![TokenType::EOF]);
}

#[test]
fn scan_errors_do_not_stop_the_scan() {
    let (tokens, diagnostics) = scan("a # b\n? c \"open\nend");
    assert_eq!(
        diagnostics,
        vec![
            "[line 1] Error  : Unexpected character.".to_string(),
            "[line 2] Error  : Unexpected character.".to_string(),
            "[line 3] Error  : Unterminated string.".to_string(),
        ]
    );
    let seen: Vec<String> = tokens.iter().map(|t| t.lexeme.clone()).collect();
    assert_eq!(seen, vec!["a", "b", "c", ""]);
    assert_eq!(tokens[3].line, 3);
}

#[test]
fn text_outside_ascii_may_stand_in_strings_and_comments() {
    let (tokens, diagnostics) = scan("// größe\nprint \"héllo ✓\";");
    assert!(diagnostics.is_empty());
    assert!(matches!(&tokens[1].literal, Literal::Text(t) if t == "héllo ✓"));
    let (_, diagnostics) = scan("é");
    assert_eq!(diagnostics.len(), 1);
}

#[test]
fn binary_operators_group_by_precedence() {
    assert_eq!(shown("1 + 2 * 3;"), "(+ 1 (* 2 3))");
    assert_eq!(shown("1 * 2 + 3;"), "(+ (* 1 2) 3)");
    assert_eq!(shown("1 + 2 < 3 * 4 == true;"), "(== (< (+ 1 2) (* 3 4)) true)");
    assert_eq!(shown("a or b and c == d;"), "[or a [and b (== c d)]]");
    assert_eq!(shown("-a * !b;"), "(* (- a) (! b))");
    assert_eq!(shown("!!a;"), "(! (! a))");
}

#[test]
fn binary_operators_group_to_the_left() {
    assert_eq!(shown("1 - 2 - 3;"), "(- (- 1 2) 3)");
    assert_eq!(shown("8 / 4 / 2;"), "(/ (/ 8 4) 2)");
    assert_eq!(shown("a == b != c;"), "(!= (== a b) c)");
    assert_eq!(shown("a < b <= c > d >= e;"), "(>= (> (<= (< a b) c) d) e)");
    assert_eq!(shown("a or b or c;"), "[or [or a b] c]");
    assert_eq!(shown("a and b and c;"), "[and [and a b] c]");
}

#[test]
fn assignment_groups_to_the_right() {
    assert_eq!(shown("a = b = c;"), "(= a (= b c))");
    assert_eq!(shown("a = b or c;"), "(= a [or b c])");
}

#[test]
fn parentheses_are_kept() {
    assert_eq!(shown("(1 + 2) * 3;"), "(* (group (+ 1 2)) 3)");
    assert_eq!(shown("((a));"), "(group (group a))");
}

#[test]
fn calls_chain() {
    assert_eq!(shown("f();"), "(call f)");
    assert_eq!(shown("f(1, a + b)(c)();"), "(call (call (call f 1 (+ a b)) c))");
    assert_eq!(shown("-f(x);"), "(- (call f x))");
}

#[test]
fn literals_are_parsed() {
    assert_eq!(shown("true;"), "true");
    assert_eq!(shown("false;"), "false");
    assert_eq!(shown("nil;"), "nil");
    assert_eq!(shown("12.50;"), "12.50");
    assert_eq!(shown("\"text\";"), "\"text\"");
}

#[test]
fn statements_are_parsed() {
    assert_eq!(
        shown_program("var a; var b = 1; print a; { b; } if (a) b; else print b; while (a) a = b;"),
        vec![
            "var a = nil;",
            "var b = 1;",
            "print a;",
            "{ b; }",
            "if a b; else print b;",
            "while a (= a b);",
        ]
    );
    assert_eq!(
        shown_program("fun f(a, b) { return a; return; } fun g() {}"),
        vec!["fun f(a, b) { return a; return nil; }", "fun g() {  }"]
    );
    assert_eq!(shown_program("if (a) if (b) 1; else 2;"), vec!["if a if b 1; else 2;"]);
}

#[test]
fn a_for_loop_stands_for_a_while_loop() {
    assert_eq!(
        shown_program("for (var i = 0; i < 3; i = i + 1) print i;"),
        vec!["{ var i = 0; while (< i 3) { print i; (= i (+ i 1)); } }"]
    );
    assert_eq!(shown_program("for (;;) print 1;"), vec!["while true { print 1; }"]);
    assert_eq!(
        shown_program("for (i = 0;;) print 1;"),
        vec!["{ (= i 0); while true { print 1; } }"]
    );
    assert_eq!(shown_program("for (; i < 3;) print 1;"), vec!["while (< i 3) { print 1; }"]);
    assert_eq!(shown_program("for (;;) { print 1; }"), vec!["while true { { print 1; } }"]);
    assert_eq!(
        shown_program("for (;; i = i + 1) {}"),
        vec!["while true { {  } (= i (+ i 1)); }"]
    );
}

#[test]
fn the_parser_recovers_at_statement_boundaries() {
    let parsed = parse("print (1;\nvar x = 2;\nprint +;\nfun (a) {}\nprint 3;");
    assert!(parsed.statements.is_none());
    assert_eq!(
        parsed.diagnostics,
        vec![
            "[line 1] Error  at ';' : Expect ')' after expression".to_string(),
            "[line 3] Error  at '+' : Expect Expression".to_string(),
            "[line 4] Error  at '(' : Expect function name.".to_string(),
        ]
    );
}

#[test]
fn every_syntax_error_has_its_message() {
    let cases = [
        ("var 1;", "[line 1] Error  at '1' : Expect variable name."),
        ("var a = 1", "[line 1] Error  at end : Expect ';' after variable declaration."),
        ("while a) b;", "[line 1] Error  at 'a' : Expect '(' after 'while'."),
        ("while (a b;", "[line 1] Error  at 'b' : Expect ')' after condition."),
        ("if a) b;", "[line 1] Error  at 'a' : Expect '(' after 'if'."),
        ("if (a b;", "[line 1] Error  at 'b' : Expect ')' after if condition."),
        ("for a;;) b;", "[line 1] Error  at 'a' : Expect '(' after 'for'."),
        ("for (;a b;) c;", "[line 1] Error  at 'b' : Expect ';' after loop condition."),
        ("for (;;a b) c;", "[line 1] Error  at 'b' : Expect ')' after for clause."),
        ("{ a;", "[line 1] Error  at end : Expect '}' after block."),
        ("print a", "[line 1] Error  at end : Expect ';' after value"),
        ("a", "[line 1] Error  at end : Expect ';' after value"),
        ("fun f() { return a }", "[line 1] Error  at '}' : Expect ';' after return value."),
        ("fun 1() {}", "[line 1] Error  at '1' : Expect function name."),
        ("fun f) {}", "[line 1] Error  at ')' : Expect '(' after function name."),
        ("fun f(1) {}", "[line 1] Error  at '1' : Expect parameter name."),
        ("fun f(a {}", "[line 1] Error  at '{' : Expect ')' after parameters."),
        ("fun f() a;", "[line 1] Error  at 'a' : Expect '{' before function body."),
        ("f(a;", "[line 1] Error  at ';' : Expect ')' after arguments."),
        ("(a;", "[line 1] Error  at ';' : Expect ')' after expression"),
        (";", "[line 1] Error  at ';' : Expect Expression"),
        ("1 = 2;", "[line 1] Error  at '=' : Invalid assignment target."),
        ("1 % 2;", "[line 1] Error  at '%' : Expect ';' after value"),
    ];
    for (source, message) in cases {
        let parsed = parse(source);
        assert!(parsed.statements.is_none(), "{}", source);
        assert_eq!(parsed.diagnostics[0], message, "{}", source);
    }
}

#[test]
fn an_invalid_assignment_target_does_not_end_the_expression() {
    let parsed = parse("a + b = c; print 1;");
    assert!(parsed.statements.is_none());
    assert_eq!(
        parsed.diagnostics,
        vec!["[line 1] Error  at '=' : Invalid assignment target.".to_string()]
    );
    assert_eq!(parsed.ast.stmts.len(), 2);
    assert_eq!(show_stmt(&parsed.ast, 0), "(+ a b);");
}

fn call_with(arguments: usize) -> String {
    let list: Vec<String> = (0..arguments).map(|i| format!("{}", i)).collect();
    format!("f({});", list.join(", "))
}

#[test]
fn a_call_takes_255_arguments_and_no_more() {
    let parsed = parse(&call_with(255));
    assert_eq!(parsed.diagnostics, Vec::<String>::new());
    let id = expression_of(&parsed, 0);
    assert!(matches!(&parsed.ast.exprs[id], Expr::Call { arguments, .. } if arguments.len() == 255));

    let parsed = parse(&format!("{} print 1;", call_with(257)));
    assert!(parsed.statements.is_none());
    assert_eq!(
        parsed.diagnostics,
        vec![
            "[line 1] Error  at '255' : Can't have more than 255 arguments.".to_string(),
            "[line 1] Error  at '256' : Can't have more than 255 arguments.".to_string(),
        ]
    );
    assert_eq!(show_stmt(&parsed.ast, parsed.ast.stmts.len() - 1), "print 1;");
}

#[test]
fn a_function_takes_255_parameters_and_no_more() {
    let names = |n: usize| -> String {
        let list: Vec<String> = (0..n).map(|i| format!("p{}", i)).collect();
        list.join(", ")
    };
    let parsed = parse(&format!("fun f({}) {{}}", names(255)));
    assert_eq!(parsed.diagnostics, Vec::<String>::new());
    let parsed = parse(&format!("fun f({}) {{}} print 1;", names(256)));
    assert!(parsed.statements.is_none());
    assert_eq!(
        parsed.diagnostics,
        vec!["[line 1] Error  at 'p255' : Can't have more than 255 parameters.".to_string()]
    );
    assert_eq!(show_stmt(&parsed.ast, parsed.ast.stmts.len() - 1), "print 1;");
}

#[test]
fn the_parser_adds_to_the_nodes_it_is_given() {
    let (first, _) = scan("print 1;");
    let mut parser = Parser::new(&first, Ast::new());
    assert_eq!(parser.parse(), Ok(vec![0]));
    let ast = parser.ast;
    let (second, _) = scan("print 2;");
    let mut parser = Parser::new(&second, ast);
    assert_eq!(parser.parse(), Ok(vec![1]));
    assert_eq!(show_stmt(&parser.ast, 0), "print 1;");
    assert_eq!(show_stmt(&parser.ast, 1), "print 2;");
}

/// Adds the expressions of the expression `id` to `out`.
fn reach_expr(ast: &Ast, id: usize, out: &mut Vec<usize>) {
    out.push(id);
    match &ast.exprs[id] {
        Expr::Binary { left, right, .. } | Expr::Logical { left, right, .. } => {
            reach_expr(ast, *left, out);
            reach_expr(ast, *right, out);
        }
        Expr::Grouping { expression } => reach_expr(ast, *expression, out),
        Expr::Unary { right, .. } => reach_expr(ast, *right, out),
        Expr::Assign { value, .. } => reach_expr(ast, *value, out),
        Expr::Call { callee, arguments, .. } => {
            reach_expr(ast, *callee, out);
            for a in arguments {
                reach_expr(ast, *a, out);
            }
        }
        Expr::Literal { .. } | Expr::Variable { .. } => {}
    }
}

/// Adds the expressions of the statement `id` to `out`.
fn reach_stmt(ast: &Ast, id: usize, out: &mut Vec<usize>) {
    match &ast.stmts[id] {
        Stmt::Expression { expression } | Stmt::Print { expression } => {
            reach_expr(ast, *expression, out)
        }
        Stmt::Var { initializer, .. } => reach_expr(ast, *initializer, out),
        Stmt::Return { value, .. } => reach_expr(ast, *value, out),
        Stmt::Block { statements } => {
            for s in statements {
                reach_stmt(ast, *s, out);
            }
        }
        Stmt::Function { body, .. } => {
            for s in body {
                reach_stmt(ast, *s, out);
            }
        }
        Stmt::If { condition, then_branch, else_branch } => {
            reach_expr(ast, *condition, out);
            reach_stmt(ast, *then_branch, out);
            if let Some(e) = else_branch {
                reach_stmt(ast, *e, out);
            }
        }
        Stmt::While { condition, body } => {
            reach_expr(ast, *condition, out);
            reach_stmt(ast, *body, out);
        }
    }
}

#[test]
fn no_expression_is_part_of_two_nodes() {
    let parsed = parse(
        "var a = 1; fun f(x, y) { return x + y * a; }\nfor (var i = 0; i < 3; i = i + 1) { a = f(i, a) + f(a, i); }\nif (a > 1 and a < 9) print f(f(1, 2), 3); else { while (a < 3) a = a + 1; }",
    );
    let statements = parsed.statements.expect("no syntax error");
    let mut reached: Vec<usize> = Vec::new();
    for s in &statements {
        reach_stmt(&parsed.ast, *s, &mut reached);
    }
    let mut sorted = reached.clone();
    sorted.sort();
    sorted.dedup();
    assert_eq!(sorted.len(), reached.len());
}

/// The distances that the resolver finds, by the text of the variable, in
/// the order of the uses in the source.
fn distances(source: &str) -> (Vec<(String, Option<usize>)>, Vec<String>) {
    let parsed = parse(source);
    let statements = parsed.statements.expect("no syntax error");
    let mut resolver = Resolver::new(&parsed.ast, HashMap::new());
    let result = resolver.resolve_vec(&statements);
    assert_eq!(result.is_ok(), resolver.diagnostics.is_empty());
    let mut reached: Vec<usize> = Vec::new();
    for s in &statements {
        reach_stmt(&parsed.ast, *s, &mut reached);
    }
    let mut uses: Vec<(usize, u32, String, Option<usize>)> = Vec::new();
    for (id, expr) in parsed.ast.exprs.iter().enumerate() {
        let name = match expr {
            Expr::Variable { name } => name,
            Expr::Assign { name, .. } => name,
            _ => continue,
        };
        // The target of an assignment is read as a variable first; that
        // node is no part of the program and is never resolved.
        if !reached.contains(&id) {
            continue;
        }
        uses.push((id, name.line, name.lexeme.clone(), resolver.locals.get(&id).copied()));
    }
    uses.sort_by_key(|u| (u.1, u.0));
    (uses.into_iter().map(|u| (u.2, u.3)).collect(), resolver.diagnostics)
}

fn by_name(list: &[(&str, Option<usize>)]) -> Vec<(String, Option<usize>)> {
    list.iter().map(|(n, d)| (n.to_string(), *d)).collect()
}

#[test]
fn globals_get_no_distance() {
    let (found, diagnostics) = distances("var a = 1;\nprint a;\na = 2;\nprint b;");
    assert!(diagnostics.is_empty());
    assert_eq!(found, by_name(&[("a", None), ("a", None), ("b", None)]));
}

#[test]
fn locals_get_the_number_of_scopes_between() {
    let (found, diagnostics) = distances(
        "var g;\n{ var a;\n print a;\n { var b;\n print a;\n print b;\n print g;\n { a = b;\n } } }",
    );
    assert!(diagnostics.is_empty());
    assert_eq!(
        found,
        by_name(&[
            ("a", Some(0)),
            ("a", Some(1)),
            ("b", Some(0)),
            ("g", None),
            ("b", Some(1)),
            ("a", Some(2)),
        ])
    );
}

#[test]
fn parameters_and_the_body_share_a_scope() {
    let (found, diagnostics) = distances(
        "fun f(a) {\n var b = a;\n print b;\n fun g(c) {\n print a;\n print c;\n print f;\n print g;\n }\n }",
    );
    assert!(diagnostics.is_empty());
    assert_eq!(
        found,
        by_name(&[
            ("a", Some(0)),
            ("b", Some(0)),
            ("a", Some(1)),
            ("c", Some(0)),
            ("f", None),
            ("g", Some(1)),
        ])
    );
}

#[test]
fn a_use_before_the_declaration_is_global() {
    let (found, diagnostics) = distances("{ fun show() {\n print a;\n }\n var a;\n print a;\n }");
    assert!(diagnostics.is_empty());
    assert_eq!(found, by_name(&[("a", None), ("a", Some(0))]));
}

#[test]
fn static_errors_of_the_resolver() {
    let (found, diagnostics) = distances("{ var a = a; }");
    assert_eq!(
        diagnostics,
        vec!["[line 1] Error  : Can't read local variable in its own initializer.".to_string()]
    );
    assert_eq!(found, by_name(&[("a", None)]));
    let (_, diagnostics) = distances("{ var a;\n var a;\n fun a() {}\n }");
    assert_eq!(
        diagnostics,
        vec![
            "[line 2] Error  at 'a' : Already a variable with this name in this scope".to_string(),
            "[line 3] Error  at 'a' : Already a variable with this name in this scope".to_string(),
        ]
    );
    let (_, diagnostics) = distances("var a = a; var a; fun a() {}");
    assert!(diagnostics.is_empty());
    let (found, diagnostics) = distances("{ var a; { var b = a; var a = b; } }");
    assert!(diagnostics.is_empty());
    assert_eq!(found, by_name(&[("a", Some(1)), ("b", Some(0))]));
}

#[test]
fn a_read_in_its_own_initializer_gets_no_distance() {
    let (found, diagnostics) = distances("var a = 1;\n{ var a = a + 1;\n print a;\n }");
    assert_eq!(
        diagnostics,
        vec!["[line 2] Error  : Can't read local variable in its own initializer.".to_string()]
    );
    assert_eq!(found, by_name(&[("a", None), ("a", Some(0))]));
}

#[test]
fn a_duplicate_declaration_leaves_the_scope_as_it_was() {
    let (found, diagnostics) = distances("{ var a = 1;\n var a = a;\n print a;\n }");
    assert_eq!(
        diagnostics,
        vec!["[line 2] Error  at 'a' : Already a variable with this name in this scope".to_string()]
    );
    assert_eq!(found, by_name(&[("a", Some(0)), ("a", Some(0))]));
    let (_, diagnostics) = distances("fun f(a, a) { print a; }");
    assert_eq!(
        diagnostics,
        vec!["[line 1] Error  at 'a' : Already a variable with this name in this scope".to_string()]
    );
}

#[test]
fn a_use_gets_its_distance_whenever_a_scope_holds_the_name() {
    let mut ast = Ast::new();
    let shared = ast.add_expr(Expr::Variable { name: name("a", 3) });
    let declared = ast.add_expr(Expr::Literal { value: Literal::Nil });
    let var = ast.add_stmt(Stmt::Var { name: name("a", 1), initializer: declared });
    let first = ast.add_stmt(Stmt::Print { expression: shared });
    let second = ast.add_stmt(Stmt::Print { expression: shared });
    let inner = ast.add_stmt(Stmt::Block { statements: vec![second] });
    let outer = ast.add_stmt(Stmt::Block { statements: vec![var, first, inner] });
    let mut resolver = Resolver::new(&ast, HashMap::new());
    assert!(resolver.resolve_vec(&vec![outer]).is_ok());
    assert_eq!(resolver.diagnostics, Vec::<String>::new());
    assert_eq!(resolver.locals.get(&shared), Some(&1));
}

fn name(lexeme: &str, line: u32) -> Token {
    Token::new(TokenType::IDENTIFIER, lexeme.to_string(), Literal::Nil, line)
}

fn number(value: f64) -> LoxValue {
    LoxValue::Number(value.to_bits())
}

#[test]
fn an_environment_binds_names() {
    let mut e = Environment::new();
    assert_eq!(e.enclosing, None);
    assert!(e.values.get(&"a".to_string()).is_none());
    e.define("a".to_string(), number(1.0));
    e.define("b".to_string(), LoxValue::Nil);
    e.define("a".to_string(), number(2.0));
    assert!(e.values.get(&"a".to_string()).unwrap().equals(&number(2.0)));
    assert!(e.values.get(&"b".to_string()).unwrap().equals(&LoxValue::Nil));
    assert!(e.values.contains_key(&"b".to_string()));
    assert!(!e.values.contains_key(&"c".to_string()));
    assert_eq!(Environment::new_enclosed(4).enclosing, Some(4));
}

#[test]
fn environments_are_searched_outwards() {
    let mut envs = Environments::new();
    assert_eq!(envs.len(), 1);
    let middle = envs.new_enclosed(0);
    let inner = envs.new_enclosed(middle);
    let other = envs.new_enclosed(0);
    assert_eq!((middle, inner, other, envs.len()), (1, 2, 3, 4));
    envs.define(0, "g".to_string(), number(0.0));
    envs.define(middle, "m".to_string(), number(1.0));
    envs.define(inner, "i".to_string(), number(2.0));
    envs.define(middle, "i".to_string(), number(3.0));

    assert!(envs.get(inner, &name("i", 1)).unwrap().equals(&number(2.0)));
    assert!(envs.get(inner, &name("m", 1)).unwrap().equals(&number(1.0)));
    assert!(envs.get(inner, &name("g", 1)).unwrap().equals(&number(0.0)));
    assert!(envs.get(middle, &name("i", 1)).unwrap().equals(&number(3.0)));
    assert!(envs.get(other, &name("g", 1)).unwrap().equals(&number(0.0)));
    let missing = envs.get(other, &name("m", 9)).unwrap_err();
    assert_eq!(missing.message, "Undefined variable 'm'.");
    assert_eq!(missing.line, 9);
    assert_eq!(missing.location, "");
    assert!(envs.get(17, &name("g", 1)).is_err());

    assert_eq!(envs.ancestor(inner, 0), Some(inner));
    assert_eq!(envs.ancestor(inner, 1), Some(middle));
    assert_eq!(envs.ancestor(inner, 2), Some(0));
    assert_eq!(envs.ancestor(inner, 3), None);
    assert_eq!(envs.ancestor(other, 1), Some(0));
    assert_eq!(envs.ancestor(9, 0), None);
}

#[test]
fn a_distance_names_one_environment() {
    let mut envs = Environments::new();
    let middle = envs.new_enclosed(0);
    let inner = envs.new_enclosed(middle);
    envs.define(0, "a".to_string(), number(0.0));
    envs.define(middle, "a".to_string(), number(1.0));
    envs.define(inner, "a".to_string(), number(2.0));
    envs.define(middle, "m".to_string(), number(5.0));
    assert!(envs.get_at(inner, 0, &name("a", 1)).unwrap().equals(&number(2.0)));
    assert!(envs.get_at(inner, 1, &name("a", 1)).unwrap().equals(&number(1.0)));
    assert!(envs.get_at(inner, 2, &name("a", 1)).unwrap().equals(&number(0.0)));
    assert!(envs.get_at(inner, 0, &name("m", 1)).is_err());
    assert!(envs.get_at(inner, 3, &name("a", 1)).is_err());

    assert!(envs.assign_at(inner, 1, &name("a", 1), &number(7.0)).is_ok());
    assert!(envs.get_at(inner, 1, &name("a", 1)).unwrap().equals(&number(7.0)));
    assert!(envs.get_at(inner, 0, &name("a", 1)).unwrap().equals(&number(2.0)));
    assert!(envs.assign_at(inner, 0, &name("new", 1), &number(8.0)).is_ok());
    assert!(envs.get_at(inner, 0, &name("new", 1)).unwrap().equals(&number(8.0)));
    let short = envs.assign_at(inner, 4, &name("a", 2), &number(9.0)).unwrap_err();
    assert_eq!(short.message, "Undefined variable 'a'.");
}

#[test]
fn assignment_goes_to_the_nearest_binding() {
    let mut envs = Environments::new();
    let inner = envs.new_enclosed(0);
    envs.define(0, "g".to_string(), number(0.0));
    envs.define(0, "both".to_string(), number(1.0));
    envs.define(inner, "both".to_string(), number(2.0));
    assert!(envs.assign(inner, &name("both", 1), &number(3.0)).is_ok());
    assert!(envs.assign(inner, &name("g", 1), &number(4.0)).is_ok());
    assert!(envs.get(inner, &name("both", 1)).unwrap().equals(&number(3.0)));
    assert!(envs.get(0, &name("both", 1)).unwrap().equals(&number(1.0)));
    assert!(envs.get(0, &name("g", 1)).unwrap().equals(&number(4.0)));
    let missing = envs.assign(inner, &name("none", 5), &number(1.0)).unwrap_err();
    assert_eq!(missing.message, "Undefined variable 'none'.");
    assert_eq!(missing.line, 5);
    assert!(envs.get(inner, &name("none", 1)).is_err());
}

fn samples() -> Vec<f64> {
    vec![
        0.0,
        -0.0,
        1.0,
        -1.0,
        0.5,
        -0.5,
        1.5,
        2.0,
        1e300,
        -1e300,
        5e-324,
        -5e-324,
        f64::MIN_POSITIVE,
        f64::MAX,
        f64::MIN,
        f64::INFINITY,
        f64::NEG_INFINITY,
        f64::NAN,
        -f64::NAN,
        f64::from_bits(0x7ff0_0000_0000_0001),
        f64::from_bits(0xfff8_0000_0000_1234),
        3.141592653589793,
        1234.0,
    ]
}

#[test]
fn numbers_compare_as_doubles_do() {
    for a in samples() {
        assert_eq!(nan(a.to_bits()), a.is_nan(), "{}", a);
        assert_eq!(f64::from_bits(negate(a.to_bits())).to_bits(), (-a).to_bits(), "{}", a);
        for b in samples() {
            assert_eq!(numbers_equal(a.to_bits(), b.to_bits()), a == b, "{} == {}", a, b);
            assert_eq!(numbers_less(a.to_bits(), b.to_bits()), a < b, "{} < {}", a, b);
        }
    }
}

#[test]
fn comparisons_on_values_are_those_on_doubles() {
    let op = |kind: TokenType, lexeme: &str| Token::new(kind, lexeme.to_string(), Literal::Nil, 1);
    for a in samples() {
        for b in samples() {
            let cases = [
                (op(TokenType::GREATER, ">"), a > b),
                (op(TokenType::GREATER_EQUAL, ">="), a >= b),
                (op(TokenType::LESS, "<"), a < b),
                (op(TokenType::LESS_EQUAL, "<="), a <= b),
                (op(TokenType::EQUAL_EQUAL, "=="), a == b),
                (op(TokenType::BANG_EQUAL, "!="), a != b),
            ];
            for (operator, expected) in cases {
                match Interpreter::visit_binary_expr(&operator, &number(a), &number(b)) {
                    Outcome::Done(LoxValue::Boolean(r)) => {
                        assert_eq!(r, expected, "{} {} {}", a, operator.lexeme, b)
                    }
                    _ => panic!("no boolean"),
                }
            }
        }
    }
}

#[test]
fn arithmetic_is_left_to_the_host() {
    let op = |kind: TokenType, lexeme: &str| Token::new(kind, lexeme.to_string(), Literal::Nil, 1);
    for (kind, lexeme) in [
        (TokenType::PLUS, "+"),
        (TokenType::MINUS, "-"),
        (TokenType::STAR, "*"),
        (TokenType::SLASH, "/"),
    ] {
        match Interpreter::visit_binary_expr(&op(kind, lexeme), &number(6.0), &number(3.0)) {
            Outcome::Compute { operator, left, right } => {
                assert_eq!(operator, kind);
                assert_eq!(left, 6.0f64.to_bits());
                assert_eq!(right, 3.0f64.to_bits());
            }
            _ => panic!("no request"),
        }
    }
    match Interpreter::visit_binary_expr(
        &op(TokenType::PLUS, "+"),
        &LoxValue::LoxString("ab".to_string()),
        &LoxValue::LoxString("cd".to_string()),
    ) {
        Outcome::Done(LoxValue::LoxString(s)) => assert_eq!(s, "abcd"),
        _ => panic!("no text"),
    }
    match Interpreter::visit_binary_expr(&op(TokenType::AND, "and"), &number(1.0), &number(2.0)) {
        Outcome::Fail(e) => assert_eq!(e.message, "Missed Parser Error"),
        _ => panic!("no error"),
    }
}

#[test]
fn truthiness_and_not() {
    let values = [
        (LoxValue::Boolean(true), true),
        (LoxValue::Boolean(false), false),
        (LoxValue::Nil, false),
        (number(0.0), true),
        (number(f64::NAN), true),
        (LoxValue::LoxString(String::new()), true),
        (LoxValue::LoxString("false".to_string()), true),
        (LoxValue::Function(0), true),
        (LoxValue::Native(NativeFunction { arity: 0, function: Native::Clock }), true),
    ];
    let bang = Token::new(TokenType::BANG, "!".to_string(), Literal::Nil, 1);
    for (value, truthy) in values {
        assert_eq!(value.is_truthy(), truthy);
        assert!(matches!(not(&value), LoxValue::Boolean(b) if b == !truthy));
        assert!(matches!(
            Interpreter::visit_unary_expr(&bang, &value),
            Ok(LoxValue::Boolean(b)) if b == !truthy
        ));
    }
}

#[test]
fn minus_negates_numbers_only() {
    let minus = Token::new(TokenType::MINUS, "-".to_string(), Literal::Nil, 4);
    assert!(matches!(
        Interpreter::visit_unary_expr(&minus, &number(2.5)),
        Ok(LoxValue::Number(n)) if n == (-2.5f64).to_bits()
    ));
    let error = Interpreter::visit_unary_expr(&minus, &LoxValue::Nil).unwrap_err();
    assert_eq!(error.message, "Operand must be a number.");
    assert_eq!(error.line, 4);
    assert_eq!(error.location, " at '-'");
    let plus = Token::new(TokenType::PLUS, "+".to_string(), Literal::Nil, 4);
    let error = Interpreter::visit_unary_expr(&plus, &number(1.0)).unwrap_err();
    assert_eq!(error.message, "Missed Parser Error");
    assert_eq!(invalid_operand_number(&plus).location, " at '+'");
}

#[test]
fn equality_of_values() {
    let all = [
        LoxValue::Boolean(true),
        LoxValue::Boolean(false),
        LoxValue::Nil,
        number(0.0),
        number(1.0),
        LoxValue::LoxString("1".to_string()),
        LoxValue::LoxString("".to_string()),
        LoxValue::Function(0),
        LoxValue::Function(1),
        LoxValue::Native(NativeFunction { arity: 0, function: Native::Clock }),
        LoxValue::Native(NativeFunction { arity: 1, function: Native::Clock }),
    ];
    for (i, a) in all.iter().enumerate() {
        for (j, b) in all.iter().enumerate() {
            assert_eq!(a.equals(b), i == j);
            assert_eq!(a.equals(b), b.equals(a));
        }
        assert!(a.clone().equals(a));
    }
    assert!(number(0.0).equals(&number(-0.0)));
    assert!(!number(f64::NAN).equals(&number(f64::NAN)));
}

#[test]
fn whole_numbers_are_shown_without_a_point() {
    for (numeral, shown) in [
        ("7.0", "7"),
        ("7", "7"),
        ("-12.0", "-12"),
        ("0.0", "0"),
        ("7.5", "7.5"),
        ("7.05", "7.05"),
        ("10", "10"),
        (".0", ".0"),
        ("0", "0"),
        ("", ""),
        ("1e21", "1e21"),
        ("inf", "inf"),
        ("NaN", "NaN"),
        ("100.00", "100.00"),
    ] {
        assert_eq!(stringify_double(&numeral.to_string()), shown);
    }
}

#[test]
fn helpers_on_text() {
    assert_eq!(chars_of("héllo"), vec!['h', 'é', 'l', 'l', 'o']);
    assert_eq!(chars_of(""), Vec::<char>::new());
    let chars = vec!['a', 'b', 'ç', 'd'];
    assert_eq!(text_of(&chars, 0, 4), "abçd");
    assert_eq!(text_of(&chars, 1, 3), "bç");
    assert_eq!(text_of(&chars, 2, 2), "");
    assert_eq!(text("copy"), "copy");
    for n in [0u64, 1, 9, 10, 11, 99, 100, 255, 1000, 4294967295, 18446744073709551615] {
        assert_eq!(decimal_text(n), format!("{}", n));
    }
}

#[test]
fn diagnostics_have_one_form() {
    assert_eq!(
        report(12, &" at 'x'".to_string(), &"Message.".to_string()),
        "[line 12] Error  at 'x' : Message."
    );
    assert_eq!(error(3, &"Message.".to_string()), "[line 3] Error  : Message.");
    assert_eq!(report(0, &"".to_string(), &"".to_string()), "[line 0] Error  : ");
    let end = Token::new(TokenType::EOF, "".to_string(), Literal::Nil, 8);
    let word = Token::new(TokenType::IDENTIFIER, "word".to_string(), Literal::Nil, 9);
    assert_eq!(locate(&end), " at end");
    assert_eq!(locate(&word), " at 'word'");
    assert_eq!(error_token(&end, "Message.".to_string()), "[line 8] Error  at end : Message.");
    assert_eq!(error_token(&word, "Message.".to_string()), "[line 9] Error  at 'word' : Message.");
    assert_eq!(
        report(4294967295, &"".to_string(), &"m".to_string()),
        "[line 4294967295] Error  : m"
    );
}

#[test]
fn runtime_errors_know_their_place() {
    let plain = RuntimeError::new("Message.".to_string(), 5);
    assert_eq!((plain.message.as_str(), plain.line, plain.location.as_str()), ("Message.", 5, ""));
    assert_eq!(plain.diagnostic(), "[line 5] Error  : Message.");
    let word = Token::new(TokenType::IDENTIFIER, "word".to_string(), Literal::Nil, 9);
    let at = RuntimeError::new_token(&word, "Message.".to_string());
    assert_eq!((at.message.as_str(), at.line, at.location.as_str()), ("Message.", 9, " at 'word'"));
    assert_eq!(at.diagnostic(), "[line 9] Error  at 'word' : Message.");
}

#[test]
fn tokens_are_made_and_copied() {
    let token = Token::new(TokenType::STRING, "\"a\"".to_string(), Literal::Text("a".to_string()), 2);
    let copy = token.clone();
    assert_eq!(copy.kind, TokenType::STRING);
    assert_eq!(copy.lexeme, "\"a\"");
    assert_eq!(copy.line, 2);
    assert!(matches!(copy.literal, Literal::Text(t) if t == "a"));
    assert!(matches!(Literal::Number("1.5".to_string()).clone(), Literal::Number(n) if n == "1.5"));
    assert!(matches!(Literal::Boolean(true).clone(), Literal::Boolean(true)));
    assert!(matches!(Literal::Nil.clone(), Literal::Nil));
}

/// The requests of the interpreter for a program, each with the answer
/// given, up to the end.
fn requests(source: &str) -> Vec<String> {
    let mut lox = Lox::new();
    assert!(lox.run(source.to_string()).is_ok());
    let mut seen = Vec::new();
    let mut event = Event::Nothing;
    loop {
        let action = lox.resume(event, 50);
        event = match action {
            Action::Continue => Event::Nothing,
            Action::Print { text } => {
                seen.push(format!("print {:?}", text));
                Event::Nothing
            }
            Action::ParseNumber { text } => {
                seen.push(format!("parse {}", text));
                Event::Number(text.parse::<f64>().unwrap().to_bits())
            }
            Action::Arithmetic { operator, left, right } => {
                let (a, b) = (f64::from_bits(left), f64::from_bits(right));
                seen.push(format!("{:?} {} {}", operator, a, b));
                Event::Number(
                    match operator {
                        TokenType::PLUS => a + b,
                        TokenType::MINUS => a - b,
                        TokenType::STAR => a * b,
                        _ => a / b,
                    }
                    .to_bits(),
                )
            }
            Action::Format { number } => {
                seen.push(format!("format {}", f64::from_bits(number)));
                Event::Text(format!("{:?}", f64::from_bits(number)))
            }
            Action::Clock => {
                seen.push("clock".to_string());
                Event::Number(5.0f64.to_bits())
            }
            Action::Finished => {
                seen.push("finished".to_string());
                return seen;
            }
            Action::Failed { error } => {
                seen.push(format!("failed {}", error.message));
                return seen;
            }
        };
    }
}

#[test]
fn the_host_is_asked_in_the_order_of_evaluation() {
    assert_eq!(
        requests("print 1 + 2 * 3;"),
        vec![
            "parse 1",
            "parse 2",
            "parse 3",
            "STAR 2 3",
            "PLUS 1 6",
            "format 7",
            "print \"7\\n\"",
            "finished",
        ]
    );
    assert_eq!(
        requests("print clock() - 1.5; print \"a\" + \"b\"; print 1 < 2;"),
        vec![
            "clock",
            "parse 1.5",
            "MINUS 5 1.5",
            "format 3.5",
            "print \"3.5\\n\"",
            "print \"ab\\n\"",
            "parse 1",
            "parse 2",
            "print \"true\\n\"",
            "finished",
        ]
    );
    assert_eq!(
        requests("print false and 1; print 2 or 3; print -4;"),
        vec![
            "print \"false\\n\"",
            "parse 2",
            "format 2",
            "print \"2\\n\"",
            "parse 4",
            "format -4",
            "print \"-4\\n\"",
            "finished",
        ]
    );
    assert_eq!(requests("print 1; print nil - 1;"), vec![
        "parse 1",
        "format 1",
        "print \"1\\n\"",
        "parse 1",
        "failed Operand must be a number.",
    ]);
}

#[test]
fn an_answer_must_fit_the_request() {
    let mut lox = Lox::new();
    assert!(lox.run("print 1;".to_string()).is_ok());
    assert!(matches!(lox.resume(Event::Nothing, 100), Action::ParseNumber { .. }));
    match lox.resume(Event::Text("1".to_string()), 100) {
        Action::Failed { error } => {
            assert_eq!(error.message, "The host's answer does not fit the request.")
        }
        _ => panic!("no error"),
    }
    assert!(lox.had_runtime_error);
    assert_eq!(lox.exit_code(), 70);
    assert!(matches!(lox.resume(Event::Nothing, 100), Action::Finished));

    let mut lox = Lox::new();
    assert!(lox.run("print 1;".to_string()).is_ok());
    assert!(matches!(lox.resume(Event::Nothing, 100), Action::ParseNumber { .. }));
    assert!(matches!(lox.resume(Event::Number(1.0f64.to_bits()), 100), Action::Format { .. }));
    assert!(matches!(lox.resume(Event::Number(1.0f64.to_bits()), 100), Action::Failed { .. }));
}

#[test]
fn a_budget_bounds_the_steps() {
    let mut lox = Lox::new();
    assert!(lox.run("while (true) {}".to_string()).is_ok());
    for budget in [0usize, 1, 7, 1000] {
        assert!(matches!(lox.resume(Event::Nothing, budget), Action::Continue));
    }
    let mut interpreter = Interpreter::new();
    assert!(matches!(interpreter.step(Event::Nothing), Action::Finished));
    assert!(matches!(interpreter.run(Event::Nothing, 10), Action::Finished));
    interpreter.interpret(Vec::new());
    assert!(matches!(interpreter.step(Event::Nothing), Action::Finished));
}

#[test]
fn a_new_interpreter_knows_the_clock() {
    let interpreter = Interpreter::new();
    assert_eq!(interpreter.globals, 0);
    assert_eq!(interpreter.environments.len(), 1);
    let clock = interpreter.environments.get(0, &name("clock", 1)).unwrap();
    assert!(clock.equals(&LoxValue::Native(NativeFunction { arity: 0, function: Native::Clock })));
    assert_eq!(interpreter.stringify(&clock), "<native fn>");
    assert_eq!(interpreter.stringify(&LoxValue::Boolean(true)), "true");
    assert_eq!(interpreter.stringify(&LoxValue::Boolean(false)), "false");
    assert_eq!(interpreter.stringify(&LoxValue::Nil), "nil");
    assert_eq!(interpreter.stringify(&LoxValue::LoxString("text".to_string())), "text");
    assert_eq!(interpreter.stringify(&LoxValue::Function(3)), "<fn>");
}

#[test]
fn distances_can_be_recorded_by_hand() {
    let mut interpreter = Interpreter::new();
    interpreter.resolve(4, 2);
    interpreter.resolve(4, 1);
    interpreter.resolve(9, 0);
    assert_eq!(interpreter.locals.get(&4), Some(&1));
    assert_eq!(interpreter.locals.get(&9), Some(&0));
    assert_eq!(interpreter.locals.len(), 2);
}

#[test]
fn exit_codes() {
    let mut lox = Lox::new();
    assert_eq!(lox.exit_code(), 0);
    lox.had_error = true;
    assert_eq!(lox.exit_code(), 65);
    lox.had_runtime_error = true;
    assert_eq!(lox.exit_code(), 70);
    lox.had_error = false;
    assert_eq!(lox.exit_code(), 70);
}
