use rusty_lox::ast::Ast;
use rusty_lox::expr::Expr;
use rusty_lox::interpreter::{Action, Event};
use rusty_lox::parser::Parser;
use rusty_lox::scanner::Scanner;
use rusty_lox::stmt::Stmt;
use rusty_lox::token::{Literal, TokenType};
use rusty_lox::Lox;

/// What came of a program: what it printed, the diagnostics, the exit code.
struct Run {
    output: String,
    diagnostics: Vec<String>,
    code: u8,
}

/// Does what the interpreter asks of its host.
fn answer(action: Action, output: &mut String) -> Option<Event> {
    match action {
        Action::Continue => Some(Event::Nothing),
        Action::Print { text } => {
            output.push_str(&text);
            Some(Event::Nothing)
        }
        Action::ParseNumber { text } => {
            let number: f64 = text.parse().expect("a numeral");
            Some(Event::Number(number.to_bits()))
        }
        Action::Arithmetic { operator, left, right } => {
            let a = f64::from_bits(left);
            let b = f64::from_bits(right);
            let result = match operator {
                TokenType::PLUS => a + b,
                TokenType::MINUS => a - b,
                TokenType::STAR => a * b,
                TokenType::SLASH => a / b,
                _ => panic!("no arithmetic operator"),
            };
            Some(Event::Number(result.to_bits()))
        }
        Action::Format { number } => Some(Event::Text(format!("{}", f64::from_bits(number)))),
        Action::Clock => Some(Event::Number(1234.0f64.to_bits())),
        Action::Finished => None,
        Action::Failed { .. } => None,
    }
}

fn run_lines(lox: &mut Lox, source: &str, output: &mut String) {
    if lox.run(source.to_string()).is_err() {
        return;
    }
    let mut event = Event::Nothing;
    loop {
        let action = lox.resume(event, 1000);
        match answer(action, output) {
            Some(next) => event = next,
            None => break,
        }
    }
}

fn run_source(source: &str) -> Run {
    let mut lox = Lox::new();
    let mut output = String::new();
    run_lines(&mut lox, source, &mut output);
    let code = lox.exit_code();
    Run { output, diagnostics: lox.take_diagnostics(), code }
}

fn run_and_assert(source: &str, expected: &str) {
    let run = run_source(source);
    assert_eq!(run.diagnostics, Vec::<String>::new());
    assert_eq!(run.output, expected);
    assert_eq!(run.code, 0);
}

#[test]
fn test_literals() {
    run_and_assert(
        "print 1;\nprint 12.5;\nprint \"text\";\nprint true;\nprint false;\nprint nil;\nprint \"\";\nprint 0;\n",
        "1\n12.5\ntext\ntrue\nfalse\nnil\n\n0\n",
    );
}

#[test]
fn test_comparisons() {
    run_and_assert(
        "print 1 < 2;\nprint 2 < 1;\nprint 1 <= 1;\nprint 2 > 1;\nprint 1 >= 2;\nprint 1 == 1;\nprint 1 != 1;\nprint \"a\" == \"a\";\nprint \"a\" == \"b\";\nprint nil == nil;\nprint nil == false;\nprint 1 == \"1\";\nprint !true;\nprint !nil;\nprint !0;\n",
        "true\nfalse\ntrue\ntrue\nfalse\ntrue\nfalse\ntrue\nfalse\ntrue\nfalse\nfalse\nfalse\ntrue\nfalse\n",
    );
}

#[test]
fn test_arithmetic() {
    run_and_assert(
        "print 1 + 2;\nprint 7 - 10;\nprint 3 * 4;\nprint 10 / 4;\nprint -3;\nprint 1 + 2 * 3;\nprint (1 + 2) * 3;\nprint 8 / 2 / 2;\nprint 1 - 2 - 3;\nprint \"ab\" + \"cd\";\nprint 0.1 + 0.2;\nprint 1 / 0;\nprint -(1 / 0);\n",
        "3\n-3\n12\n2.5\n-3\n7\n9\n2\n-4\nabcd\n0.30000000000000004\ninf\n-inf\n",
    );
}

#[test]
fn test_global_variables() {
    run_and_assert(
        "var a = 1;\nvar b;\nprint a;\nprint b;\na = a + 1;\nb = \"set\";\nprint a;\nprint b;\nvar a = \"again\";\nprint a;\nprint a = 3;\n",
        "1\nnil\n2\nset\nagain\n3\n",
    );
}

#[test]
fn test_colinked_recursion() {
    run_and_assert(
        "fun isEven(n) { if (n == 0) return true; return isOdd(n - 1); }\nfun isOdd(n) { if (n == 0) return false; return isEven(n - 1); }\nprint isEven(10);\nprint isOdd(10);\nprint isEven(7);\nprint isOdd(7);\n",
        "true\nfalse\nfalse\ntrue\n",
    );
}

#[test]
fn test_scope() {
    run_and_assert(
        "var a = \"global a\";\nvar b = \"global b\";\n{\n  var a = \"outer a\";\n  {\n    var a = \"inner a\";\n    print a;\n    print b;\n  }\n  print a;\n  b = \"changed b\";\n}\nprint a;\nprint b;\n",
        "inner a\nglobal b\nouter a\nglobal a\nchanged b\n",
    );
}

#[test]
fn test_if_control_flow() {
    run_and_assert(
        "if (true) print \"yes\"; else print \"no\";\nif (false) print \"yes\"; else print \"no\";\nif (nil) print \"never\";\nif (0) print \"zero is truthy\";\nif (\"\") { print \"empty is truthy\"; }\nif (1 < 2 and 2 < 3) print \"both\";\nif (1 > 2 or 2 < 3) print \"either\";\n",
        "yes\nno\nzero is truthy\nempty is truthy\nboth\neither\n",
    );
}

#[test]
fn test_loops() {
    run_and_assert(
        "var i = 0;\nwhile (i < 3) { print i; i = i + 1; }\nfor (var j = 0; j < 3; j = j + 1) print j * 2;\nvar k = 2;\nfor (; k > 0;) { print k; k = k - 1; }\nfor (k = 5; k < 6; k = k + 1) print k;\n",
        "0\n1\n2\n0\n2\n4\n2\n1\n5\n",
    );
}

#[test]
fn test_fibonocci() {
    run_and_assert(
        "fun fib(n) { if (n < 2) return n; return fib(n - 1) + fib(n - 2); }\nfor (var i = 0; i < 12; i = i + 1) print fib(i);\n",
        "0\n1\n1\n2\n3\n5\n8\n13\n21\n34\n55\n89\n",
    );
}

#[test]
fn adding_zero_prints_the_same_line() {
    run_and_assert("var x = 12.75; print x; x = x + 0; print x;", "12.75\n12.75\n");
    run_and_assert("var x = 3; print x; x = x + 0; print x;", "3\n3\n");
}

#[test]
fn logical_operators_give_operands() {
    run_and_assert("print nil or \"hi\";", "hi\n");
    run_and_assert("print 1 and 2;", "2\n");
    run_and_assert("print nil and 2;", "nil\n");
    run_and_assert("print 1 or 2;", "1\n");
    run_and_assert("var a = 0; false and (a = 1); true or (a = 2); print a;", "0\n");
}

#[test]
fn arithmetic_and_precedence() {
    run_and_assert("print 1 + 2 * 3;", "7\n");
    run_and_assert("print (1 + 2) * 3;", "9\n");
}

#[test]
fn closure_captures_mutable_outer() {
    run_and_assert(
        "fun makeCounter() { var n = 0; fun c() { n = n + 1; return n; } return c; }\nvar c = makeCounter(); print c(); print c(); print c();",
        "1\n2\n3\n",
    );
}

#[test]
fn sibling_closures_share_their_environment() {
    run_and_assert(
        "var get; var set;\nfun make() { var n = 1; fun g() { return n; } fun s(v) { n = v; } get = g; set = s; }\nmake(); print get(); set(5); print get();",
        "1\n5\n",
    );
}

#[test]
fn resolver_freezes_binding_at_declaration_site() {
    run_and_assert(
        "var a = \"global\"; { fun show() { print a; } show(); var a = \"local\"; show(); }",
        "global\nglobal\n",
    );
}

#[test]
fn read_in_own_initializer_is_a_static_error() {
    let run = run_source("{ var a = \"outer\"; { var a = a; } }");
    assert_eq!(run.code, 65);
    assert_eq!(run.output, "");
    assert_eq!(
        run.diagnostics,
        vec!["[line 1] Error  : Can't read local variable in its own initializer.".to_string()]
    );
}

#[test]
fn return_unwinds_through_nested_blocks() {
    run_and_assert("fun f() { { { return 7; } } } print f();", "7\n");
    run_and_assert(
        "fun f() { var i = 0; while (true) { i = i + 1; if (i == 3) { return i; } } } print f();",
        "3\n",
    );
}

#[test]
fn runtime_type_error() {
    let run = run_source("print \"a\" - 1;");
    assert_eq!(run.code, 70);
    assert_eq!(run.output, "");
    assert_eq!(
        run.diagnostics,
        vec!["[line 1] Error  at '-' : Operand must be a number.".to_string()]
    );
}

#[test]
fn function_without_return_gives_nil() {
    run_and_assert("fun f() { 1; } print f();", "nil\n");
    run_and_assert("fun f() { return; } print f();", "nil\n");
}

#[test]
fn functions_print_with_their_name() {
    run_and_assert("fun f() {} print f; print clock;", "<fn f>\n<native fn>\n");
}

#[test]
fn functions_are_equal_to_themselves_only() {
    run_and_assert(
        "fun f() {} fun g() {} var h = f; print f == f; print f == h; print f == g; print clock == clock;",
        "true\ntrue\nfalse\ntrue\n",
    );
    run_and_assert(
        "fun make() { fun inner() {} return inner; } print make() == make();",
        "false\n",
    );
}

#[test]
fn clock_is_a_number_from_the_host() {
    run_and_assert("print clock();", "1234\n");
    run_and_assert("print clock() + 1;", "1235\n");
}

#[test]
fn arguments_are_evaluated_left_to_right() {
    run_and_assert(
        "fun show(v) { print v; return v; } fun add(a, b, c) { return a + b + c; } print add(show(1), show(2), show(3));",
        "1\n2\n3\n6\n",
    );
}

#[test]
fn plus_on_mixed_operands_is_an_error() {
    let run = run_source("print 1 + \"a\";");
    assert_eq!(run.code, 70);
    assert_eq!(
        run.diagnostics,
        vec!["[line 1] Error  at '+' : Operands must be two numbers or two strings.".to_string()]
    );
    let run = run_source("print nil + nil;");
    assert_eq!(run.code, 70);
}

#[test]
fn negating_a_text_is_an_error() {
    let run = run_source("print 1;\nprint -\"a\";\nprint 2;");
    assert_eq!(run.code, 70);
    assert_eq!(run.output, "1\n");
    assert_eq!(
        run.diagnostics,
        vec!["[line 2] Error  at '-' : Operand must be a number.".to_string()]
    );
}

#[test]
fn comparing_a_text_is_an_error() {
    for operator in ["<", "<=", ">", ">=", "*", "/"] {
        let run = run_source(&format!("print 1 {} \"a\";", operator));
        assert_eq!(run.code, 70);
        assert_eq!(
            run.diagnostics,
            vec![format!("[line 1] Error  at '{}' : Operand must be a number.", operator)]
        );
    }
}

#[test]
fn undefined_variable_is_a_runtime_error() {
    let run = run_source("print missing;");
    assert_eq!(run.code, 70);
    assert_eq!(
        run.diagnostics,
        vec!["[line 1] Error  : Undefined variable 'missing'.".to_string()]
    );
    let run = run_source("\n\nmissing = 1;");
    assert_eq!(run.code, 70);
    assert_eq!(
        run.diagnostics,
        vec!["[line 3] Error  : Undefined variable 'missing'.".to_string()]
    );
}

#[test]
fn calling_what_is_no_function_is_an_error() {
    let run = run_source("var a = 1; a();");
    assert_eq!(run.code, 70);
    assert_eq!(
        run.diagnostics,
        vec!["[line 1] Error  at ')' : Can only call functions and classes.".to_string()]
    );
    let run = run_source("\"text\"(1);");
    assert_eq!(run.code, 70);
}

#[test]
fn wrong_number_of_arguments_is_an_error() {
    let run = run_source("fun f(a, b) {} f(1);");
    assert_eq!(run.code, 70);
    assert_eq!(
        run.diagnostics,
        vec!["[line 1] Error  at ')' : Expected 2 arguments but got 1.".to_string()]
    );
    let run = run_source("clock(1, 2, 3);");
    assert_eq!(
        run.diagnostics,
        vec!["[line 1] Error  at ')' : Expected 0 arguments but got 3.".to_string()]
    );
}

#[test]
fn return_outside_a_function_is_an_error() {
    let run = run_source("print 1; return 2; print 3;");
    assert_eq!(run.code, 70);
    assert_eq!(run.output, "1\n");
    assert_eq!(
        run.diagnostics,
        vec!["[line 1] Error  at 'return' : Return called outside of function".to_string()]
    );
}

#[test]
fn division_by_zero_is_no_error() {
    run_and_assert("print 1 / 0; print 0 / 0 == 0 / 0;", "inf\nfalse\n");
}

#[test]
fn syntax_errors_stop_the_program_before_it_runs() {
    let run = run_source("print 1;\nprint ;\nprint 2;\nvar = 3;\n");
    assert_eq!(run.code, 65);
    assert_eq!(run.output, "");
    assert_eq!(
        run.diagnostics,
        vec![
            "[line 2] Error  at ';' : Expect Expression".to_string(),
            "[line 4] Error  at '=' : Expect variable name.".to_string(),
        ]
    );
}

#[test]
fn a_missing_semicolon_is_reported_at_the_end() {
    let run = run_source("print 1");
    assert_eq!(run.code, 65);
    assert_eq!(run.diagnostics, vec!["[line 1] Error  at end : Expect ';' after value".to_string()]);
}

#[test]
fn scan_errors_are_reported_and_stop_the_program() {
    let run = run_source("print 1;\nprint @;\nprint \"open");
    assert_eq!(run.code, 65);
    assert_eq!(run.output, "");
    assert_eq!(run.diagnostics[0], "[line 2] Error  : Unexpected character.");
    assert_eq!(run.diagnostics[1], "[line 3] Error  : Unterminated string.");
}

#[test]
fn class_is_a_syntax_error() {
    let run = run_source("class A {}");
    assert_eq!(run.code, 65);
    assert_eq!(run.diagnostics[0], "[line 1] Error  at 'class' : Expect Expression");
}

#[test]
fn invalid_assignment_target_is_reported_at_the_equals_sign() {
    let run = run_source("var a = 1; var b = 2; a + b = 3; print 4");
    assert_eq!(run.code, 65);
    assert_eq!(
        run.diagnostics,
        vec![
            "[line 1] Error  at '=' : Invalid assignment target.".to_string(),
            "[line 1] Error  at end : Expect ';' after value".to_string(),
        ]
    );
}

#[test]
fn duplicate_local_declaration_is_a_static_error() {
    let run = run_source("{ var a = 1; var a = 2; }");
    assert_eq!(run.code, 65);
    assert_eq!(
        run.diagnostics,
        vec!["[line 1] Error  at 'a' : Already a variable with this name in this scope".to_string()]
    );
    let run = run_source("fun f(a, a) {}");
    assert_eq!(run.code, 65);
    run_and_assert("var a = 1; var a = 2; print a;", "2\n");
    let run = run_source("{ var a = 1; var a = a; }");
    assert_eq!(
        run.diagnostics,
        vec!["[line 1] Error  at 'a' : Already a variable with this name in this scope".to_string()]
    );
}

#[test]
fn resolver_reports_every_error() {
    let run = run_source("{ var a = a; var b = b; }");
    assert_eq!(run.code, 65);
    assert_eq!(run.diagnostics.len(), 2);
}

#[test]
fn the_prompt_keeps_its_globals_between_lines() {
    let mut lox = Lox::new();
    let mut output = String::new();
    run_lines(&mut lox, "var a = 1; fun next() { a = a + 1; return a; }", &mut output);
    run_lines(&mut lox, "print next();", &mut output);
    run_lines(&mut lox, "print missing;", &mut output);
    assert!(lox.had_runtime_error);
    run_lines(&mut lox, "print 1 +;", &mut output);
    assert!(lox.had_error);
    lox.had_error = false;
    run_lines(&mut lox, "print next() + a;", &mut output);
    assert_eq!(output, "2\n6\n");
    assert_eq!(lox.take_diagnostics().len(), 2);
    assert_eq!(lox.take_diagnostics().len(), 0);
}

#[test]
fn block_scopes_end_with_the_block() {
    let run = run_source("{ var a = 1; } print a;");
    assert_eq!(run.code, 70);
    assert_eq!(run.diagnostics, vec!["[line 1] Error  : Undefined variable 'a'.".to_string()]);
}

#[test]
fn deep_recursion_needs_no_deep_stack() {
    run_and_assert(
        "fun count(n) { if (n == 0) return 0; return 1 + count(n - 1); } print count(20000);",
        "20000\n",
    );
}

#[test]
fn strings_may_span_lines() {
    run_and_assert("print \"a\nb\";\nprint 1;", "a\nb\n1\n");
    let run = run_source("var s = \"a\n\nb\"; print missing;");
    assert_eq!(run.diagnostics, vec!["[line 3] Error  : Undefined variable 'missing'.".to_string()]);
}

#[test]
fn comments_are_skipped() {
    run_and_assert("// nothing\nprint 1; // one\n// print 2;\nprint 3; //", "1\n3\n");
}

/// Writes an expression as source text, fully parenthesized where the
/// program has parentheses and nowhere else.
fn write_expr(ast: &Ast, id: usize) -> String {
    match &ast.exprs[id] {
        Expr::Binary { left, operator, right } => {
            format!("{} {} {}", write_expr(ast, *left), operator.lexeme, write_expr(ast, *right))
        }
        Expr::Logical { left, operator, right } => {
            format!("{} {} {}", write_expr(ast, *left), operator.lexeme, write_expr(ast, *right))
        }
        Expr::Grouping { expression } => format!("({})", write_expr(ast, *expression)),
        Expr::Literal { value } => match value {
            Literal::Nil => "nil".to_string(),
            Literal::Boolean(b) => format!("{}", b),
            Literal::Number(n) => n.clone(),
            Literal::Text(t) => format!("\"{}\"", t),
        },
        Expr::Unary { operator, right } => format!("{}{}", operator.lexeme, write_expr(ast, *right)),
        Expr::Variable { name } => name.lexeme.clone(),
        Expr::Assign { name, value } => format!("{} = {}", name.lexeme, write_expr(ast, *value)),
        Expr::Call { callee, paren: _, arguments } => {
            let list: Vec<String> = arguments.iter().map(|a| write_expr(ast, *a)).collect();
            format!("{}({})", write_expr(ast, *callee), list.join(", "))
        }
    }
}

/// Writes a statement as source text, one statement to a line.
fn write_stmt(ast: &Ast, id: usize, indent: usize) -> String {
    let pad = "  ".repeat(indent);
    let block = |statements: &Vec<usize>| -> String {
        let mut out = String::from("{\n");
        for s in statements {
            out.push_str(&write_stmt(ast, *s, indent + 1));
        }
        out.push_str(&pad);
        out.push_str("}\n");
        out
    };
    match &ast.stmts[id] {
        Stmt::Expression { expression } => format!("{}{};\n", pad, write_expr(ast, *expression)),
        Stmt::Print { expression } => format!("{}print {};\n", pad, write_expr(ast, *expression)),
        Stmt::Var { name, initializer } => {
            format!("{}var {} = {};\n", pad, name.lexeme, write_expr(ast, *initializer))
        }
        Stmt::Block { statements } => format!("{}{}", pad, block(statements)),
        Stmt::If { condition, then_branch, else_branch } => {
            let mut out = format!(
                "{}if ({})\n{}",
                pad,
                write_expr(ast, *condition),
                write_stmt(ast, *then_branch, indent + 1)
            );
            if let Some(e) = else_branch {
                out.push_str(&format!("{}else\n{}", pad, write_stmt(ast, *e, indent + 1)));
            }
            out
        }
        Stmt::While { condition, body } => format!(
            "{}while ({})\n{}",
            pad,
            write_expr(ast, *condition),
            write_stmt(ast, *body, indent + 1)
        ),
        Stmt::Function { name, params, body } => {
            let names: Vec<String> = params.iter().map(|p| p.lexeme.clone()).collect();
            format!("{}fun {}({}) {}", pad, name.lexeme, names.join(", "), block(body))
        }
        Stmt::Return { keyword: _, value } => format!("{}return {};\n", pad, write_expr(ast, *value)),
    }
}

/// The program `source`, parsed and written out again.
fn rewritten(source: &str) -> String {
    let mut scanner = Scanner::new(source.to_string());
    let tokens = scanner.scan_tokens().expect("no scan error");
    let mut parser = Parser::new(&tokens, Ast::new());
    let statements = parser.parse().expect("no syntax error");
    let ast = parser.ast;
    let mut out = String::new();
    for s in statements {
        out.push_str(&write_stmt(&ast, s, 0));
    }
    out
}

#[test]
fn a_program_written_out_again_prints_the_same() {
    let programs = [
        "print 1 + 2 * 3; print (1 + 2) * 3; print -(-1 - 2) - 3; print !(1 < 2) == false;",
        "var a = 1; var b; { var a = a + 1; print a; b = a * 2; } print a; print b;",
        "for (var i = 0; i < 5; i = i + 1) { if (i == 1 or i == 3) print \"odd\"; else print i; }",
        "var i = 3; for (; i > 0;) i = i - 1; print i; for (i = 0; i < 2; i = i + 1) {} print i;",
        "fun fib(n) { if (n < 2) return n; return fib(n - 1) + fib(n - 2); } print fib(10);",
        "fun makeCounter() { var n = 0; fun c() { n = n + 1; return n; } return c; }\nvar c = makeCounter(); print c(); print c(); print makeCounter()();",
        "var a = \"global\"; { fun show() { print a; } show(); var a = \"local\"; show(); }",
        "print nil or \"hi\"; print 1 and 2; print \"a\" + \"b\" + \"c\"; print clock() > 0;",
        "fun f() { { { return 7; } } } print f(); fun g() {} print g(); print g;",
        "var x = 0; while (x < 3) { x = x + 1; if (x == 2) { print \"two\"; } } print x;",
        "print 1; print \"a\" - 1; print 2;",
        "print missing;",
        "fun f(a) { return a; } print f(1, 2);",
    ];
    for source in programs {
        let first = run_source(source);
        let again = rewritten(source);
        let second = run_source(&again);
        assert_eq!(first.output, second.output, "{}", again);
        assert_eq!(first.code, second.code, "{}", again);
        assert_eq!(first.diagnostics.len(), second.diagnostics.len(), "{}", again);
        assert_eq!(rewritten(&again), again);
    }
}

#[test]
fn a_long_loop_runs_to_its_end() {
    run_and_assert(
        "var sum = 0; for (var i = 0; i < 100000; i = i + 1) { var j = i; sum = sum + j; } print sum;",
        "4999950000\n",
    );
}

#[test]
fn environments_of_finished_blocks_are_given_up() {
    let mut lox = Lox::new();
    let mut output = String::new();
    run_lines(
        &mut lox,
        "var i = 0; while (i < 1000) { var j = i; { var k = j; if (k == 5) { print k; } } i = i + 1; }",
        &mut output,
    );
    assert_eq!(output, "5\n");
    assert_eq!(lox.interpreter.environments.len(), 1);

    run_lines(
        &mut lox,
        "fun count(n) { if (n == 0) { return 0; } { { return 1 + count(n - 1); } } } print count(100);",
        &mut output,
    );
    assert_eq!(output, "5\n100\n");
    assert_eq!(lox.interpreter.environments.len(), 1);
}

#[test]
fn environments_that_functions_keep_stay() {
    let mut lox = Lox::new();
    let mut output = String::new();
    run_lines(
        &mut lox,
        "fun make() { var n = 0; fun c() { n = n + 1; return n; } return c; } var c = make(); { var x = 1; }",
        &mut output,
    );
    // The globals and the environment of the call of `make`, which `c` keeps.
    assert_eq!(lox.interpreter.environments.len(), 2);
    run_lines(&mut lox, "print c(); { print c(); } print c();", &mut output);
    assert_eq!(output, "1\n2\n3\n");
    assert_eq!(lox.interpreter.environments.len(), 2);
    run_lines(&mut lox, "var d = make(); print d(); print c();", &mut output);
    assert_eq!(output, "1\n2\n3\n1\n4\n");
    assert_eq!(lox.interpreter.environments.len(), 3);
}

#[test]
fn a_runtime_error_ends_the_blocks_it_is_in() {
    let mut lox = Lox::new();
    let mut output = String::new();
    run_lines(&mut lox, "var a = 1; { var b = 2; { print b; print missing; } }", &mut output);
    assert!(lox.had_runtime_error);
    run_lines(&mut lox, "{ var b = 3; print a + b; }", &mut output);
    assert_eq!(output, "2\n4\n");
}
