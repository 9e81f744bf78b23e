//! The library's parts one by one: text, numbers, memory, statements,
//! blocks, the standard library, calls and the check.

use lib::block::{after_statement, menu_start, LineStep, MenuEvent, MenuPhase, MenuRequest};
use lib::calls::function_body_mode;
use lib::compute::{tokenize, tokenize_arguments, ArithOp, Evaluation, Step};
use lib::display::{decimal_text, pad_left_text, pad_right_text};
use lib::executor::{Block, Executor};
use lib::float::{
    number_eq, number_from_usize, number_is_nonzero, number_lt, number_round_to_usize, number_to_usize,
};
use lib::machine::{Event, Phase, Request};
use lib::memory::{name_key_of, Memory};
use lib::statement::{classify_statement, Statement};
use lib::stdlib::{call_stdlib, finish_parse, std_func_args_len, StdCall};
use lib::text::{contains_text, join_from, remove_all_text, remove_first_text, split_text, trim_text, utf8_length};
use lib::types::{ControlMode, ExecutionMode, Function, Piece, ReturnValue, Type};

fn n(x: f64) -> u64 {
    x.to_bits()
}

fn render(line: &[Piece]) -> String {
    let mut s = String::new();
    for p in line {
        match p {
            Piece::Text(t) => s.push_str(t),
            Piece::Number(b) => s.push_str(&f64::from_bits(*b).to_string()),
        }
    }
    s
}

fn lines(out: &[Vec<Piece>]) -> Vec<String> {
    out.iter().map(|l| render(l)).collect()
}

fn strings(v: &[&str]) -> Vec<String> {
    v.iter().map(|s| s.to_string()).collect()
}

#[test]
fn trim_removes_white_space_at_both_ends() {
    assert_eq!(trim_text("  a b\u{3000}"), "a b");
    assert_eq!(trim_text(""), "");
}

#[test]
fn split_and_join_give_the_text_back() {
    let parts = split_text("a=b==c", '=');
    assert_eq!(parts, strings(&["a", "b", "", "c"]));
    assert_eq!(join_from(&parts, 0, "="), "a=b==c");
    assert_eq!(join_from(&parts, 1, "="), "b==c");
    assert_eq!(split_text("", '='), strings(&[""]));
}

#[test]
fn remove_first_takes_one_occurrence() {
    assert_eq!(remove_first_text("var var x", "var"), " var x");
    assert_eq!(remove_first_text("abc", "x"), "abc");
    assert_eq!(remove_all_text("a b c", ' '), "abc");
    assert!(contains_text("endfor", "for"));
    assert!(!contains_text("fo", "for"));
}

#[test]
fn utf8_length_counts_bytes() {
    assert_eq!(utf8_length("abc"), 3);
    assert_eq!(utf8_length("変数"), 6);
}

#[test]
fn tokens_keep_quotes_and_brackets_together() {
    assert_eq!(tokenize("1 'a b' [1 2] (x y)", false), strings(&["1", "\"a b\"", "[1 2]", "(x y)"]));
    assert_eq!(tokenize("1\u{3000}2", false), strings(&["1", "2"]));
    assert_eq!(tokenize_arguments("a, b"), strings(&["a", " b"]));
    assert_eq!(tokenize_arguments("f(a, b), c"), strings(&["f(a, b)", " c"]));
}

#[test]
fn numbers_compare_as_binary64() {
    assert!(number_eq(n(1.0), n(1.0)));
    assert!(number_eq(n(0.0), n(-0.0)));
    assert!(!number_eq(n(f64::NAN), n(f64::NAN)));
    assert!(number_lt(n(-2.0), n(1.5)));
    assert!(!number_lt(n(1.5), n(1.5)));
    assert!(number_is_nonzero(n(f64::NAN)));
    assert!(!number_is_nonzero(n(-0.0)));
}

#[test]
fn numbers_convert_to_counts() {
    assert_eq!(number_to_usize(n(2.9)), 2);
    assert_eq!(number_to_usize(n(-3.0)), 0);
    assert_eq!(number_round_to_usize(n(2.5)), 3);
    assert_eq!(number_round_to_usize(n(2.4)), 2);
    assert_eq!(number_round_to_usize(n(f64::NAN)), 0);
    assert_eq!(number_to_usize(n(f64::INFINITY)), usize::MAX);
}

#[test]
fn counts_convert_to_numbers_and_back() {
    for k in [0usize, 1, 2, 7, 1000, 123456789] {
        let b = number_from_usize(k);
        assert_eq!(b, (k as f64).to_bits());
        assert_eq!(number_round_to_usize(b), k);
        assert_eq!(number_to_usize(b), k);
    }
}

#[test]
fn decimal_and_padding() {
    assert_eq!(decimal_text(0), "0");
    assert_eq!(decimal_text(1203), "1203");
    assert_eq!(pad_left_text("7", 3), "  7");
    assert_eq!(pad_right_text("ab", 4), "ab  ");
    assert_eq!(pad_right_text("abcde", 4), "abcde");
}

#[test]
fn names_are_keyed_without_spaces() {
    assert_eq!(name_key_of(" a b\u{3000}c "), "abc");
    assert_eq!(name_key_of(&name_key_of(" x y ")), name_key_of(" x y "));
}

#[test]
fn set_then_get_gives_the_value() {
    let mut mem = Memory::new();
    let mut out = Vec::new();
    mem.set_variable(" a ", Type::Number(n(1.0)), &ExecutionMode::Debug, &mut out);
    assert_eq!(lines(&out), strings(&["値を求めます", "メモリに変数を確保しました"]));
    out.clear();
    mem.set_variable("a", Type::Number(n(2.0)), &ExecutionMode::Debug, &mut out);
    assert_eq!(lines(&out), strings(&["値を求めます", "変数データを更新しました"]));
    assert_eq!(mem.memory.len(), 1);
    match mem.get_variable_value("a", &ExecutionMode::Script, &mut out) {
        Type::Number(b) => assert_eq!(f64::from_bits(b), 2.0),
        _ => panic!("expected a number"),
    }
}

#[test]
fn setting_one_variable_keeps_the_others() {
    let mut mem = Memory::new();
    let mut out = Vec::new();
    mem.set_variable("a", Type::Number(n(1.0)), &ExecutionMode::Script, &mut out);
    mem.set_variable("b", Type::Number(n(2.0)), &ExecutionMode::Script, &mut out);
    mem.set_variable("a", Type::Number(n(3.0)), &ExecutionMode::Script, &mut out);
    assert_eq!(mem.reference_variable("b"), Some(1));
    match &mem.memory[1].value {
        Type::Number(b) => assert_eq!(f64::from_bits(*b), 2.0),
        _ => panic!("expected a number"),
    }
}

#[test]
fn reading_a_missing_variable_gives_zero() {
    let mem = Memory::new();
    let mut out = Vec::new();
    match mem.get_variable_value("x", &ExecutionMode::Debug, &mut out) {
        Type::Number(b) => assert_eq!(b, 0),
        _ => panic!("expected 0"),
    }
    assert_eq!(lines(&out), strings(&["変数xを読み込みます", "変数xが見つかりません"]));
}

#[test]
fn functions_are_found_from_the_last_declared() {
    let mut mem = Memory::new();
    let mut out = Vec::new();
    let f = |name: &str| Function { name: name.to_string(), args: Vec::new(), code: Vec::new() };
    mem.declaration_function(f("f"), &ExecutionMode::Script, &mut out);
    mem.declaration_function(f("g"), &ExecutionMode::Script, &mut out);
    assert_eq!(mem.reference_function("g()"), Some(1));
    assert_eq!(mem.reference_function(" f ( ) "), Some(0));
    assert_eq!(mem.reference_function("h"), None);
    match &mem.memory[1].value {
        Type::Function(p) => assert_eq!(*p, 1),
        _ => panic!("expected a function"),
    }
    mem.declaration_function(f("f"), &ExecutionMode::Script, &mut out);
    assert_eq!(mem.reference_function("f"), Some(2));
}

#[test]
fn statements_are_told_apart_by_keywords() {
    match classify_statement("var x = a = b") {
        Statement::Assign(name, e) => {
            assert_eq!(name, "x");
            assert_eq!(e, " a = b");
        }
        _ => panic!("expected an assignment"),
    }
    match classify_statement("var l[0] = 1") {
        Statement::AssignIndex(t, e) => {
            assert_eq!(t, "l[0]");
            assert_eq!(e, " 1");
        }
        _ => panic!("expected an indexed assignment"),
    }
    match classify_statement("func f (a)") {
        Statement::Define(name) => assert_eq!(name, "f"),
        _ => panic!("expected a definition"),
    }
    assert!(matches!(classify_statement("func f"), Statement::DefineUnbracketed));
    assert!(matches!(classify_statement("for 3"), Statement::For(_)));
    assert!(matches!(classify_statement("if a"), Statement::If(_)));
    assert!(matches!(classify_statement("try"), Statement::Try));
    assert!(matches!(classify_statement("while a"), Statement::While(_)));
    assert!(matches!(classify_statement("import m"), Statement::Import(_)));
    assert!(matches!(classify_statement("mem"), Statement::Mem));
    assert!(matches!(classify_statement("del f()"), Statement::DelFunction(_)));
    assert!(matches!(classify_statement("del l[0]"), Statement::DelIndex(_)));
    assert!(matches!(classify_statement("del x"), Statement::DelVariable(_)));
    assert!(matches!(classify_statement("return 1"), Statement::Return(_)));
    assert!(matches!(classify_statement("break"), Statement::Break));
    assert!(matches!(classify_statement("next"), Statement::Next));
    assert!(matches!(classify_statement("exit"), Statement::Exit));
    assert!(matches!(classify_statement(" exit"), Statement::Evaluate(_)));
    assert!(matches!(classify_statement("1 2 +"), Statement::Evaluate(_)));
}

#[test]
fn a_for_block_is_collected_until_its_end() {
    let mut e = Executor::new(ExecutionMode::Script);
    let mut mem = Memory::new();
    let mut out = Vec::new();
    let (p, r) = e.execute("for 2", &mut mem, &mut out);
    assert!(matches!(p, Phase::Idle));
    assert!(matches!(r, Request::Done(ReturnValue::Nothing)));
    assert!(matches!(e.control_mode, ControlMode::For));
    assert_eq!(e.expr, " 2");
    e.execute("for 3", &mut mem, &mut out);
    e.execute("x", &mut mem, &mut out);
    e.execute("end for", &mut mem, &mut out);
    assert_eq!(e.nest_for, 0);
    let (p, r) = e.execute("end for", &mut mem, &mut out);
    match r {
        Request::Evaluate(x) => assert_eq!(x, " 2"),
        _ => panic!("expected the count to be evaluated"),
    }
    let body = match p {
        Phase::ForCount(b) => b,
        _ => panic!("expected the count phase"),
    };
    assert_eq!(body, strings(&["for 3", "x", "end for"]));
    let (p, r) = e.resume(Phase::ForCount(body.clone()), Event::Evaluated(ReturnValue::Value(Type::Number(n(2.0))), "2".to_string()), &mut mem, &mut out);
    assert!(matches!(r, Request::RunBlock(_)));
    assert!(matches!(p, Phase::ForBody(_, 1, 2)));
    let (p, r) = e.resume(p, Event::Ran(ReturnValue::Nothing), &mut mem, &mut out);
    assert!(matches!(p, Phase::ForBody(_, 2, 2)));
    assert!(matches!(r, Request::RunBlock(_)));
    let (_, r) = e.resume(p, Event::Ran(ReturnValue::Next), &mut mem, &mut out);
    assert!(matches!(r, Request::Done(ReturnValue::Nothing)));
    assert!(matches!(e.control_mode, ControlMode::Normal));
    assert!(e.stmt.is_empty());
}

#[test]
fn a_func_block_declares_the_function() {
    let mut e = Executor::new(ExecutionMode::Script);
    let mut mem = Memory::new();
    let mut out = Vec::new();
    e.execute("func sq(x)", &mut mem, &mut out);
    assert!(matches!(e.control_mode, ControlMode::Function));
    e.execute("return x x *", &mut mem, &mut out);
    match e.collect_line("end func", &mut mem, &mut out) {
        Block::Defined(_, body) => assert_eq!(body, strings(&["return x x *"])),
        _ => panic!("expected a definition"),
    }
    assert_eq!(mem.name_space.len(), 1);
    assert_eq!(mem.name_space[0].name, "sq");
    assert_eq!(mem.name_space[0].args, strings(&["x"]));
    assert_eq!(mem.reference_variable("sq"), Some(0));
}

#[test]
fn a_func_line_needs_a_parenthesis() {
    let mut e = Executor::new(ExecutionMode::Debug);
    let mut mem = Memory::new();
    let mut out = Vec::new();
    let (_, r) = e.execute("func f", &mut mem, &mut out);
    match r {
        Request::Done(ReturnValue::Error(m)) => assert_eq!(m, "エラー! 関数にはカッコをつけてください"),
        _ => panic!("expected an error"),
    }
    assert_eq!(lines(&out), strings(&["エラー! 関数にはカッコをつけてください"]));
}

#[test]
fn a_while_condition_switches_interactive_to_debug() {
    let mut e = Executor::new(ExecutionMode::Interactive);
    let mut mem = Memory::new();
    let mut out = Vec::new();
    e.execute("while go", &mut mem, &mut out);
    e.execute("x", &mut mem, &mut out);
    let (p, r) = e.execute("end while", &mut mem, &mut out);
    assert!(matches!(r, Request::Evaluate(_)));
    let (p, r) = e.resume(p, Event::Evaluated(ReturnValue::Value(Type::Bool(true)), String::new()), &mut mem, &mut out);
    assert!(matches!(e.execution_mode, ExecutionMode::Debug));
    assert!(matches!(r, Request::RunBlock(_)));
    let (p, r) = e.resume(p, Event::Ran(ReturnValue::Nothing), &mut mem, &mut out);
    assert!(matches!(r, Request::Evaluate(_)));
    let (_, r) = e.resume(p, Event::Evaluated(ReturnValue::Value(Type::Bool(false)), String::new()), &mut mem, &mut out);
    assert!(matches!(r, Request::Done(ReturnValue::Nothing)));
    assert!(matches!(e.control_mode, ControlMode::Normal));
}

#[test]
fn an_answer_of_the_wrong_kind_stops_the_statement() {
    let mut e = Executor::new(ExecutionMode::Script);
    let mut mem = Memory::new();
    let mut out = Vec::new();
    let (_, r) = e.resume(Phase::Return, Event::Shown, &mut mem, &mut out);
    assert!(matches!(r, Request::Fail));
}

#[test]
fn return_gives_the_expression_value() {
    let mut e = Executor::new(ExecutionMode::Script);
    let mut mem = Memory::new();
    let mut out = Vec::new();
    let (p, r) = e.execute("return 1 1 +", &mut mem, &mut out);
    match r {
        Request::Evaluate(x) => assert_eq!(x, " 1 1 +"),
        _ => panic!("expected an evaluation"),
    }
    let (_, r) = e.resume(p, Event::Evaluated(ReturnValue::Value(Type::Number(n(2.0))), String::new()), &mut mem, &mut out);
    match r {
        Request::Done(ReturnValue::Value(Type::Number(b))) => assert_eq!(f64::from_bits(b), 2.0),
        _ => panic!("expected the value"),
    }
}

#[test]
fn evaluation_asks_for_arithmetic() {
    let mut mem = Memory::new();
    let mut out = Vec::new();
    let mode = ExecutionMode::Script;
    let mut ev = Evaluation::compute("1 2 +", &mode, &mut out);
    let a = ev.next_item(&mem, &mode, &mut out).unwrap();
    assert!(matches!(ev.step(&a, Some(n(1.0)), &mem, &mode, &mut out), Step::Continue));
    let b = ev.next_item(&mem, &mode, &mut out).unwrap();
    assert!(matches!(ev.step(&b, Some(n(2.0)), &mem, &mode, &mut out), Step::Continue));
    let c = ev.next_item(&mem, &mode, &mut out).unwrap();
    match ev.step(&c, None, &mem, &mode, &mut out) {
        Step::Arith(ArithOp::Add, x, y) => {
            assert_eq!(f64::from_bits(x), 1.0);
            assert_eq!(f64::from_bits(y), 2.0);
        }
        _ => panic!("expected an addition"),
    }
    ev.push_number(n(3.0));
    assert!(ev.next_item(&mem, &mode, &mut out).is_none());
    match ev.finish(&mut mem, &mode, &mut out) {
        ReturnValue::Value(Type::Number(b)) => assert_eq!(f64::from_bits(b), 3.0),
        _ => panic!("expected 3"),
    }
}

#[test]
fn evaluation_of_texts_and_booleans() {
    let mem = Memory::new();
    let mut out = Vec::new();
    let mode = ExecutionMode::Script;
    for (expr, expect_text) in [("'a' 'b' +", true), ("true false |", false)] {
        let mut ev = Evaluation::compute(expr, &mode, &mut out);
        while let Some(item) = ev.next_item(&mem, &mode, &mut out) {
            let parsed = item.parse::<f64>().ok().map(|x| x.to_bits());
            assert!(matches!(ev.step(&item, parsed, &mem, &mode, &mut out), Step::Continue));
        }
        assert_eq!(ev.stack.len(), 1);
        match &ev.stack[0] {
            Type::String(s) => {
                assert!(expect_text);
                assert_eq!(s, "ab");
            }
            Type::Bool(b) => {
                assert!(!expect_text);
                assert!(*b);
            }
            _ => panic!("unexpected value"),
        }
    }
}

#[test]
fn mismatched_operands_are_an_error() {
    let mem = Memory::new();
    let mut out = Vec::new();
    let mode = ExecutionMode::Script;
    let mut ev = Evaluation::compute("1 true +", &mode, &mut out);
    let mut last = None;
    while let Some(item) = ev.next_item(&mem, &mode, &mut out) {
        let parsed = item.parse::<f64>().ok().map(|x| x.to_bits());
        match ev.step(&item, parsed, &mem, &mode, &mut out) {
            Step::Continue => {}
            s => {
                last = Some(s);
                break;
            }
        }
    }
    match last {
        Some(Step::Finish(ReturnValue::Error(e))) => assert_eq!(e, "エラー!型が一致しません"),
        _ => panic!("expected an error"),
    }
}

#[test]
fn standard_functions_take_their_arguments() {
    assert_eq!(std_func_args_len(&"print".to_string()), 1);
    assert_eq!(std_func_args_len(&"time.now".to_string()), 0);
    assert_eq!(std_func_args_len(&"list".to_string()), 0);
    assert_eq!(std_func_args_len(&"nothing".to_string()), 0);
}

#[test]
fn print_writes_the_value() {
    let mem = Memory::new();
    let mut out = Vec::new();
    let r = call_stdlib(&"print".to_string(), &vec![Type::String("it's".to_string())], &mem, &ExecutionMode::Debug, &mut out);
    assert!(matches!(r, StdCall::Done(ReturnValue::Nothing)));
    assert_eq!(lines(&out), strings(&["標準ライブラリのprint関数を呼び出します", "標準出力に表示します", "[出力]: its"]));
}

#[test]
fn standard_conversions() {
    let mem = Memory::new();
    let mut out = Vec::new();
    let m = ExecutionMode::Script;
    match call_stdlib(&"string".to_string(), &vec![Type::List(vec![Type::Number(n(1.0)), Type::String("a".to_string()), Type::Bool(true)])], &mem, &m, &mut out) {
        StdCall::Text(p) => assert_eq!(render(&p), "1, 'a', true"),
        _ => panic!("expected a text"),
    }
    match call_stdlib(&"number".to_string(), &vec![Type::Bool(true)], &mem, &m, &mut out) {
        StdCall::Done(ReturnValue::Value(Type::Number(b))) => assert_eq!(f64::from_bits(b), 1.0),
        _ => panic!("expected 1"),
    }
    match call_stdlib(&"number".to_string(), &vec![Type::String("x".to_string())], &mem, &m, &mut out) {
        StdCall::Parse(t, strict) => {
            assert_eq!(t, "x");
            assert!(strict);
        }
        _ => panic!("expected a parse"),
    }
    match call_stdlib(&"bool".to_string(), &vec![Type::String(String::new())], &mem, &m, &mut out) {
        StdCall::Done(ReturnValue::Value(Type::Bool(b))) => assert!(!b),
        _ => panic!("expected false"),
    }
    match call_stdlib(&"type".to_string(), &vec![Type::List(Vec::new())], &mem, &m, &mut out) {
        StdCall::Done(ReturnValue::Value(Type::String(s))) => assert_eq!(s, "list"),
        _ => panic!("expected list"),
    }
    assert!(matches!(call_stdlib(&"number".to_string(), &vec![Type::List(Vec::new())], &mem, &m, &mut out), StdCall::Fail));
    assert!(matches!(call_stdlib(&"unknown".to_string(), &Vec::new(), &mem, &m, &mut out), StdCall::Done(ReturnValue::Nothing)));
}

#[test]
fn standard_errors() {
    let mem = Memory::new();
    let mut out = Vec::new();
    let m = ExecutionMode::Script;
    let err = |r: StdCall| match r {
        StdCall::Done(ReturnValue::Error(e)) => e,
        _ => panic!("expected an error"),
    };
    assert_eq!(err(call_stdlib(&"input".to_string(), &vec![Type::Bool(true)], &mem, &m, &mut out)), "エラー! 入力プロンプトは文字列型です");
    assert_eq!(err(call_stdlib(&"time.sleep".to_string(), &vec![Type::Bool(true)], &mem, &m, &mut out)), "エラー! 秒数は数値型です");
    assert_eq!(err(call_stdlib(&"ref".to_string(), &vec![Type::String("q".to_string())], &mem, &m, &mut out)), "エラー! 変数が見つかりませんでした");
    assert_eq!(err(call_stdlib(&"access".to_string(), &vec![Type::Bool(true)], &mem, &m, &mut out)), "エラー! メモリアドレスは数値型です");
    assert_eq!(err(call_stdlib(&"access".to_string(), &vec![Type::Number(n(0.0))], &mem, &m, &mut out)), "エラー! アドレスが有効範囲外です");
    match finish_parse(true, None, &m, &mut out) {
        ReturnValue::Error(e) => assert_eq!(e, "エラー! 変換できませんでした"),
        _ => panic!("expected an error"),
    }
    match finish_parse(false, None, &m, &mut out) {
        ReturnValue::Value(Type::Number(b)) => assert_eq!(b, 0),
        _ => panic!("expected 0"),
    }
    match call_stdlib(&"time.sleep".to_string(), &vec![Type::Number(n(2.7))], &mem, &m, &mut out) {
        StdCall::Sleep(s) => assert_eq!(s, 2),
        _ => panic!("expected a sleep"),
    }
}

#[test]
fn calls_bind_arguments_to_parameters() {
    let mut mem = Memory::new();
    let mut out = Vec::new();
    let f = Function { name: "f".to_string(), args: strings(&["a", "b", "c"]), code: strings(&["return a"]) };
    mem.declaration_function(f, &ExecutionMode::Script, &mut out);
    let args = vec![Type::String("s".to_string()), Type::List(vec![Type::Number(n(1.5)), Type::Function(0)])];
    let code = mem.execute_function(0, &args).unwrap();
    assert_eq!(code, strings(&["return a"]));
    match &mem.memory[mem.reference_variable("a").unwrap()].value {
        Type::String(s) => assert_eq!(s, "s"),
        _ => panic!("expected a text"),
    }
    match &mem.memory[mem.reference_variable("b").unwrap()].value {
        Type::List(v) => {
            assert_eq!(v.len(), 2);
            assert!(matches!(v[1], Type::Function(0)));
        }
        _ => panic!("expected a list"),
    }
    assert!(mem.reference_variable("c").is_none());
    assert!(mem.execute_function(1, &args).is_none());
}

#[test]
fn argument_tokens_keep_all_but_top_level_commas() {
    let parts = tokenize_arguments("f(a, b),'c',,d");
    assert_eq!(parts, strings(&["f(a, b)", "\"c\"", "d"]));
    assert_eq!(parts.concat(), "f(a, b)\"c\"d");
}

#[test]
fn show_memory_lists_variables() {
    let mut mem = Memory::new();
    let mut out = Vec::new();
    mem.show_memory(&ExecutionMode::Debug, &mut out);
    assert_eq!(lines(&out), strings(&["変数がありません"]));
    out.clear();
    mem.set_variable("abc", Type::Bool(true), &ExecutionMode::Script, &mut out);
    mem.set_variable("d", Type::Number(n(2.0)), &ExecutionMode::Script, &mut out);
    mem.show_memory(&ExecutionMode::Script, &mut out);
    assert_eq!(lines(&out), strings(&["| [  0] abc :true", "| [  1] d   :2"]));
}

#[test]
fn block_lines_skip_comments_and_blanks() {
    let e = Executor::new(ExecutionMode::Debug);
    let mut out = Vec::new();
    let mut run = Executor::execute_block(strings(&["  # note", "", "x # y", "z"]));
    assert!(matches!(run.next_line(&e, &mut out), LineStep::Skip));
    assert!(matches!(run.next_line(&e, &mut out), LineStep::Skip));
    match run.next_line(&e, &mut out) {
        LineStep::Run(c) => assert_eq!(c, "x "),
        _ => panic!("expected a statement"),
    }
    match run.next_line(&e, &mut out) {
        LineStep::Run(c) => assert_eq!(c, "z"),
        _ => panic!("expected a statement"),
    }
    assert!(matches!(run.next_line(&e, &mut out), LineStep::End));
    assert_eq!(lines(&out), strings(&["※ コメント「 note」", "※ コメント「 y」", "1行目の〔 x  〕を実行します", "2行目の〔 z 〕を実行します"]));
}

#[test]
fn after_a_statement() {
    let e = Executor::new(ExecutionMode::Debug);
    let (menu, r) = after_statement(&e, ReturnValue::Nothing);
    assert!(menu);
    assert!(r.is_none());
    let s = Executor::new(ExecutionMode::Script);
    let (menu, r) = after_statement(&s, ReturnValue::Break);
    assert!(!menu);
    assert!(matches!(r, Some(ReturnValue::Break)));
}

#[test]
fn interactive_prompts_follow_the_mode() {
    let mut e = Executor::new(ExecutionMode::Script);
    assert_eq!(e.interactive(), "プログラム> ");
    assert!(matches!(e.execution_mode, ExecutionMode::Interactive));
    e.control_mode = ControlMode::Catch;
    assert_eq!(e.interactive(), "Catch文> ");
    let mut out = Vec::new();
    e.control_mode = ControlMode::Normal;
    assert!(e.interactive_line("   # only a comment", &mut out).is_none());
    assert_eq!(e.interactive_line("var a = 1", &mut out), Some("var a = 1".to_string()));
}

#[test]
fn debug_menu_commands() {
    let e = Executor::new(ExecutionMode::Debug);
    let mut mem = Memory::new();
    let mut out = Vec::new();
    let (p, r) = menu_start();
    match r {
        MenuRequest::Input(s) => assert_eq!(s, "デバッグメニュー>>> "),
        _ => panic!("expected a prompt"),
    }
    let (p, r) = e.menu_step(p, MenuEvent::Entered("var x = 1 1 +".to_string()), &mut mem, &mut out);
    match r {
        MenuRequest::Evaluate(x) => assert_eq!(x, " 1 1 +"),
        _ => panic!("expected an evaluation"),
    }
    let (p, r) = e.menu_step(p, MenuEvent::Evaluated(ReturnValue::Value(Type::Number(n(2.0)))), &mut mem, &mut out);
    assert!(matches!(r, MenuRequest::Input(_)));
    assert_eq!(mem.reference_variable("x"), Some(0));
    let (p, r) = e.menu_step(p, MenuEvent::Entered("ref y = x".to_string()), &mut mem, &mut out);
    match r {
        MenuRequest::Evaluate(x) => assert_eq!(x, "0"),
        _ => panic!("expected the address"),
    }
    let (p, _) = e.menu_step(p, MenuEvent::Evaluated(ReturnValue::Value(Type::Number(n(0.0)))), &mut mem, &mut out);
    assert_eq!(mem.reference_variable("y"), Some(1));
    let (p, _) = e.menu_step(p, MenuEvent::Entered("del x".to_string()), &mut mem, &mut out);
    assert!(mem.reference_variable("x").is_none());
    let (p, r) = e.menu_step(p, MenuEvent::Entered("exit".to_string()), &mut mem, &mut out);
    assert!(matches!(p, MenuPhase::Quit));
    assert!(matches!(r, MenuRequest::Input(_)));
    let (_, r) = e.menu_step(p, MenuEvent::Entered(String::new()), &mut mem, &mut out);
    assert!(matches!(r, MenuRequest::Exit));
    let (_, r) = e.menu_step(MenuPhase::Ask, MenuEvent::Entered("go".to_string()), &mut mem, &mut out);
    assert!(matches!(r, MenuRequest::Continue));
    assert_eq!(lines(&out).last().unwrap(), "継続します");
}

#[test]
fn function_bodies_run_in_the_callers_mode() {
    assert!(matches!(function_body_mode(&ExecutionMode::Debug), ExecutionMode::Debug));
}

#[test]
fn setting_an_element_needs_a_list_or_text() {
    let mut mem = Memory::new();
    let mut out = Vec::new();
    let m = ExecutionMode::Script;
    mem.set_variable("a", Type::Number(n(1.0)), &m, &mut out);
    let r = mem.set_sequence_value("a", 0, ReturnValue::Value(Type::Number(n(0.0))), &"0".to_string(), Type::Number(n(2.0)), &String::new(), &m, &mut out);
    match r {
        ReturnValue::Error(e) => assert_eq!(e, "エラー! スライスは文字列型やリスト型のみ有効です"),
        _ => panic!("expected an error"),
    }
    mem.set_variable("s", Type::String(String::new()), &m, &mut out);
    assert!(mem.set_would_panic("s", &ReturnValue::Value(Type::Bool(true))));
    assert!(!mem.set_would_panic("s", &ReturnValue::Value(Type::Number(n(0.0)))));
    assert!(mem.holds_text("s"));
    assert!(!mem.holds_text("a"));
}

#[test]
fn names_stay_distinct_when_set_again() {
    let mut mem = Memory::new();
    let mut out = Vec::new();
    let m = ExecutionMode::Script;
    for name in ["a", " a", "b", "a ", "b"] {
        mem.set_variable(name, Type::Bool(true), &m, &mut out);
    }
    assert_eq!(mem.memory.len(), 2);
    assert_eq!(mem.memory[0].name, "a");
    assert_eq!(mem.memory[1].name, "b");
}

#[test]
fn an_empty_expression_gives_zero() {
    let mem = Memory::new();
    let mode = ExecutionMode::Script;
    let mut out = Vec::new();
    let mut ev = Evaluation::compute("   ", &mode, &mut out);
    assert!(ev.next_item(&mem, &mode, &mut out).is_none());
    match ev.finish(&mem, &mode, &mut out) {
        ReturnValue::Value(Type::Number(b)) => assert_eq!(f64::from_bits(b), 0.0),
        _ => panic!("expected 0"),
    }
}

#[test]
fn a_call_free_evaluation_leaves_memory_alone() {
    let mut mem = Memory::new();
    let mode = ExecutionMode::Script;
    let mut out = Vec::new();
    mem.set_variable("x", Type::Number(n(2.0)), &mode, &mut out);
    let mut ev = Evaluation::compute("x 3 *", &mode, &mut out);
    let mut asked_arith = false;
    while let Some(item) = ev.next_item(&mem, &mode, &mut out) {
        let parsed = item.parse::<f64>().ok().map(|x| x.to_bits());
        match ev.step(&item, parsed, &mem, &mode, &mut out) {
            Step::Continue => {}
            Step::Arith(ArithOp::Mul, x, y) => {
                asked_arith = true;
                ev.push_number((f64::from_bits(x) * f64::from_bits(y)).to_bits());
            }
            _ => panic!("no call or other request expected"),
        }
    }
    assert!(asked_arith);
    match ev.finish(&mem, &mode, &mut out) {
        ReturnValue::Value(Type::Number(b)) => assert_eq!(f64::from_bits(b), 6.0),
        _ => panic!("expected 6"),
    }
    assert_eq!(mem.memory.len(), 1);
}
