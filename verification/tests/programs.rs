//! Whole programs run through the library's machines by a small host with
//! no terminal: input comes from a list, modules from a table, and what is
//! printed is collected.

use lib::block::{after_statement, menu_start, LineStep, MenuEvent, MenuRequest};
use lib::calls::function_body_mode;
use lib::checker::CheckRequest;
use lib::compute::{ArithOp, Evaluation, Step};
use lib::executor::Executor;
use lib::machine::{Event, Request};
use lib::memory::Memory;
use lib::sequence::{get_sequence_value, index_number, needs_second_evaluation};
use lib::stdlib::{call_stdlib, finish_parse, StdCall};
use lib::types::{ControlMode, ExecutionMode, Piece, ReturnValue, Type};

struct Host {
    mem: Memory,
    out: Vec<Vec<Piece>>,
    shown: Vec<String>,
    inputs: Vec<String>,
    modules: Vec<(String, String)>,
    exited: bool,
}

fn num(b: u64) -> String {
    f64::from_bits(b).to_string()
}

fn render(line: &[Piece]) -> String {
    let mut s = String::new();
    for p in line {
        match p {
            Piece::Text(t) => s.push_str(t),
            Piece::Number(b) => s.push_str(&num(*b)),
        }
    }
    s
}

impl Host {
    fn new() -> Host {
        Host { mem: Memory::new(), out: Vec::new(), shown: Vec::new(), inputs: Vec::new(), modules: Vec::new(), exited: false }
    }

    fn flush(&mut self) {
        for l in self.out.drain(..) {
            self.shown.push(render(&l));
        }
    }

    fn read(&mut self) -> String {
        if self.inputs.is_empty() {
            String::new()
        } else {
            self.inputs.remove(0)
        }
    }

    fn evaluate(&mut self, expr: &str, mode: &ExecutionMode) -> ReturnValue {
        let mut ev = Evaluation::compute(expr, mode, &mut self.out);
        loop {
            assert!(mode.is_script() || !ev.pending_item() || ev.stack_pointers_valid(&self.mem));
            let item = match ev.next_item(&self.mem, mode, &mut self.out) {
                Some(i) => i,
                None => return ev.finish(&self.mem, mode, &mut self.out),
            };
            let parsed = item.parse::<f64>().ok().map(|x| x.to_bits());
            assert!(!ev.would_panic(&item, parsed, &self.mem));
            let rv = match ev.step(&item, parsed, &self.mem, mode, &mut self.out) {
                Step::Continue => continue,
                Step::Finish(r) => return r,
                Step::Arith(op, x, y) => {
                    let (x, y) = (f64::from_bits(x), f64::from_bits(y));
                    let r = match op {
                        ArithOp::Add => x + y,
                        ArithOp::Sub => x - y,
                        ArithOp::Mul => x * y,
                        ArithOp::Div => x / y,
                        ArithOp::Rem => x % y,
                        ArithOp::Pow => x.powf(y),
                    };
                    ev.push_number(r.to_bits());
                    continue;
                }
                Step::CallStd(name, args) => match call_stdlib(&name, &args, &self.mem, mode, &mut self.out) {
                    StdCall::Done(r) => r,
                    StdCall::Fail => panic!("standard call fails"),
                    StdCall::Input(_) => ReturnValue::Value(Type::String(self.read())),
                    StdCall::TimeNow => ReturnValue::Value(Type::Number(1.0f64.to_bits())),
                    StdCall::Sleep(_) => ReturnValue::Nothing,
                    StdCall::Text(p) => ReturnValue::Value(Type::String(render(&p))),
                    StdCall::Parse(t, strict) => {
                        let parsed = t.parse::<f64>().ok().map(|x| x.to_bits());
                        finish_parse(strict, parsed, mode, &mut self.out)
                    }
                },
                Step::CallUser(p, args) => {
                    let code = self.mem.execute_function(p, &args).expect("call");
                    let mut inst = Executor::new(function_body_mode(mode));
                    self.run_block(&mut inst, code)
                }
                Step::Index(item, index) => {
                    let first = self.evaluate(&index, mode);
                    let second = if needs_second_evaluation(&item, &first) { self.evaluate(&index, mode) } else { ReturnValue::Nothing };
                    let shown = index_number(&first).map(num).unwrap_or_default();
                    get_sequence_value(&item, first, &shown, second, mode, &mut self.out)
                }
            };
            if let Some(r) = ev.resume(rv) {
                return r;
            }
        }
    }

    fn run_statement(&mut self, exec: &mut Executor, code: &str) -> ReturnValue {
        assert!(exec.is_ready());
        let (mut phase, mut request) = exec.execute(code, &mut self.mem, &mut self.out);
        loop {
            self.flush();
            let event = match request {
                Request::Done(r) => return r,
                Request::Fail => panic!("statement fails"),
                Request::Exit => {
                    self.exited = true;
                    return ReturnValue::Nothing;
                }
                Request::Evaluate(x) => {
                    let mode = exec.execution_mode.copy();
                    let r = self.evaluate(&x, &mode);
                    let shown = index_number(&r).map(num).unwrap_or_default();
                    Event::Evaluated(r, shown)
                }
                Request::RunBlock(lines) => {
                    let mut child = Executor::new(exec.execution_mode.copy());
                    Event::Ran(self.run_block(&mut child, lines))
                }
                Request::RunHere(lines) => Event::Ran(self.run_block(exec, lines)),
                Request::Load(name) => match self.modules.iter().find(|(n, _)| *n == name.trim()) {
                    Some((_, text)) => Event::Loaded(text.clone()),
                    None => Event::LoadFailed("no such file".to_string()),
                },
                Request::Render(p) => Event::Rendered(render(&p)),
                Request::ShowMemory => {
                    assert!(self.mem.values_valid());
                    self.mem.show_memory(&exec.execution_mode, &mut self.out);
                    Event::Shown
                }
            };
            let next = exec.resume(phase, event, &mut self.mem, &mut self.out);
            phase = next.0;
            request = next.1;
        }
    }

    fn run_block(&mut self, exec: &mut Executor, lines: Vec<String>) -> ReturnValue {
        let mut run = Executor::execute_block(lines);
        loop {
            if self.exited {
                return ReturnValue::Nothing;
            }
            let code = match run.next_line(exec, &mut self.out) {
                LineStep::End => {
                    self.flush();
                    return ReturnValue::Nothing;
                }
                LineStep::Skip => continue,
                LineStep::Run(c) => c,
            };
            self.flush();
            let status = self.run_statement(exec, &code);
            let (menu, result) = after_statement(exec, status);
            if menu {
                self.menu(exec);
            }
            if let Some(r) = result {
                return r;
            }
        }
    }

    fn menu(&mut self, exec: &Executor) {
        let (mut phase, mut request) = menu_start();
        loop {
            self.flush();
            let event = match request {
                MenuRequest::Continue => return,
                MenuRequest::Exit => {
                    self.exited = true;
                    return;
                }
                MenuRequest::Input(_) => MenuEvent::Entered(self.read()),
                MenuRequest::Evaluate(x) => {
                    let mode = exec.execution_mode.copy();
                    MenuEvent::Evaluated(self.evaluate(&x, &mode))
                }
                MenuRequest::ShowMemory => {
                    self.mem.show_memory(&exec.execution_mode, &mut self.out);
                    MenuEvent::Shown
                }
            };
            let next = exec.menu_step(phase, event, &mut self.mem, &mut self.out);
            phase = next.0;
            request = next.1;
        }
    }

    fn script(&mut self, code: &str) -> ReturnValue {
        let mut exec = Executor::new(ExecutionMode::Script);
        let run = exec.script(code);
        self.run_block(&mut exec, run.lines)
    }

    fn debug(&mut self, code: &str) -> ReturnValue {
        let mut exec = Executor::new(ExecutionMode::Script);
        let run = exec.debugger(code);
        self.run_block(&mut exec, run.lines)
    }

    fn check(&mut self, code: &str) {
        let lines = lib::text::split_text(code, '\n');
        let mut checker = Executor::new(ExecutionMode::Script).check(lines);
        loop {
            assert!(checker.is_ready());
            match checker.step(&mut self.out) {
                CheckRequest::Continue => {}
                CheckRequest::Done => break,
                CheckRequest::Load(name) => {
                    let m = match self.modules.iter().find(|(n, _)| *n == name.trim()) {
                        Some((_, t)) => Ok(t.clone()),
                        None => Err("no such file".to_string()),
                    };
                    checker.loaded(m, &mut self.out);
                }
            }
        }
        self.flush();
    }

    fn number(&mut self, name: &str) -> f64 {
        match self.mem.reference_variable(name) {
            Some(i) => match &self.mem.memory[i].value {
                Type::Number(b) => f64::from_bits(*b),
                _ => panic!("not a number"),
            },
            None => panic!("no variable {}", name),
        }
    }

    fn text(&mut self, name: &str) -> String {
        match self.mem.reference_variable(name) {
            Some(i) => match &self.mem.memory[i].value {
                Type::String(s) => s.clone(),
                _ => panic!("not a text"),
            },
            None => panic!("no variable {}", name),
        }
    }
}

#[test]
fn arithmetic_in_reverse_polish() {
    let mut h = Host::new();
    h.script("var x = 1 2 +\nvar y = x 3 *\nvar z = 7 2 %\nvar w = 2 10 ^");
    assert_eq!(h.number("x"), 3.0);
    assert_eq!(h.number("y"), 9.0);
    assert_eq!(h.number("z"), 1.0);
    assert_eq!(h.number("w"), 1024.0);
}

#[test]
fn print_writes_values_without_quotes() {
    let mut h = Host::new();
    h.script("'hello' ' world' + print ()\n1.5 print ()");
    assert_eq!(h.shown, vec!["hello world".to_string(), "1.5".to_string()]);
}

#[test]
fn for_loop_runs_its_count() {
    let mut h = Host::new();
    h.script("var n = 0\nfor 4\nvar n = n 1 +\nend for");
    assert_eq!(h.number("n"), 4.0);
}

#[test]
fn for_loop_rounds_its_count() {
    let mut h = Host::new();
    h.script("var n = 0\nfor 2.5\nvar n = n 1 +\nend for");
    assert_eq!(h.number("n"), 3.0);
}

#[test]
fn for_count_must_be_a_number() {
    let mut h = Host::new();
    let r = h.script("for 'a'\nprint(1)()\nend for");
    match r {
        ReturnValue::Error(e) => assert_eq!(e, "エラー! ループ回数は数値型です"),
        _ => panic!("expected an error"),
    }
}

#[test]
fn break_leaves_a_loop() {
    let mut h = Host::new();
    h.script("var n = 0\nfor 10\nvar n = n 1 +\nif n 3 =\nbreak\nend if\nend for");
    assert_eq!(h.number("n"), 3.0);
}

#[test]
fn next_skips_the_rest_of_an_iteration() {
    let mut h = Host::new();
    h.script("var n = 0\nvar m = 0\nfor 4\nvar n = n 1 +\nif n 2 =\nnext\nend if\nvar m = m 1 +\nend for");
    assert_eq!(h.number("n"), 4.0);
    assert_eq!(h.number("m"), 3.0);
}

#[test]
fn if_else_takes_one_branch() {
    let mut h = Host::new();
    h.script("var a = 0\nif 1 2 <\nvar a = 1\nelse\nvar a = 2\nend if\nif 1 2 >\nvar b = 1\nelse\nvar b = 2\nend if");
    assert_eq!(h.number("a"), 1.0);
    assert_eq!(h.number("b"), 2.0);
}

#[test]
fn while_loop_counts_down() {
    let mut h = Host::new();
    h.script("var k = 5\nvar s = 0\nwhile k 0 >\nvar s = s k +\nvar k = k 1 -\nend while");
    assert_eq!(h.number("k"), 0.0);
    assert_eq!(h.number("s"), 15.0);
}

#[test]
fn try_runs_catch_on_error() {
    let mut h = Host::new();
    h.script("var r = 0\ntry\n1 'a' +\nvar r = 1\ncatch\nvar r = 2\nend try");
    assert_eq!(h.number("r"), 2.0);
    let mut g = Host::new();
    g.script("var r = 0\ntry\nvar r = 1\ncatch\nvar r = 2\nend try");
    assert_eq!(g.number("r"), 1.0);
}

#[test]
fn functions_take_arguments_and_return() {
    let mut h = Host::new();
    h.script("func add(a, b)\nreturn a b -\nend func\nvar r = 3 10 add ()");
    assert_eq!(h.number("r"), 7.0);
}

#[test]
fn text_functions_convert() {
    let mut h = Host::new();
    h.script("var s = 42 string ()\nvar n = '2.5' number ()\nvar t = s type ()\nvar b = 0 bool ()");
    assert_eq!(h.text("s"), "42");
    assert_eq!(h.number("n"), 2.5);
    assert_eq!(h.text("t"), "string");
}

#[test]
fn lists_grow_and_index() {
    let mut h = Host::new();
    h.script("var l = list ()\nvar l = l 10 +\nvar l = l 20 +\nvar a = l [1]\nvar n = l ['len']");
    assert_eq!(h.number("a"), 20.0);
    assert_eq!(h.number("n"), 2.0);
}

#[test]
fn list_elements_are_set_and_deleted() {
    let mut h = Host::new();
    h.script("var l = list ()\nvar l = l 10 +\nvar l = l 20 +\nvar l[0] = 5\ndel l[1]\nvar a = l [0]\nvar n = l ['len']");
    assert_eq!(h.number("a"), 5.0);
    assert_eq!(h.number("n"), 1.0);
}

#[test]
fn text_elements_are_read_set_and_deleted() {
    let mut h = Host::new();
    h.script("var s = 'abc'\nvar c = s [1]\nvar s[0] = 'x'\ndel s[2]");
    assert_eq!(h.text("c"), "b");
    assert_eq!(h.text("s"), "xb");
}

#[test]
fn index_out_of_range_is_an_error() {
    let mut h = Host::new();
    let r = h.script("var l = list ()\nvar a = l [3]");
    match r {
        ReturnValue::Nothing => {}
        _ => panic!("an assignment's error is not passed on"),
    }
    let r2 = h.script("l [3]");
    match r2 {
        ReturnValue::Error(e) => assert_eq!(e, "エラー! 3はインデックス範囲外です"),
        _ => panic!("expected an error"),
    }
}

#[test]
fn ref_and_access_find_a_variable() {
    let mut h = Host::new();
    h.script("var a = 1\nvar b = 'two'\nvar r = 'b' ref ()\nvar v = r access ()");
    assert_eq!(h.number("r"), 1.0);
    assert_eq!(h.text("v"), "two");
}

#[test]
fn access_past_the_memory_is_an_error() {
    let mut h = Host::new();
    let r = h.script("5 access ()");
    match r {
        ReturnValue::Error(e) => assert_eq!(e, "エラー! アドレスが有効範囲外です"),
        _ => panic!("expected an error"),
    }
}

#[test]
fn del_removes_a_variable() {
    let mut h = Host::new();
    h.script("var a = 1\nvar c = 2\ndel a");
    assert!(h.mem.reference_variable("a").is_none());
    assert_eq!(h.number("c"), 2.0);
}

#[test]
fn input_reads_a_line() {
    let mut h = Host::new();
    h.inputs.push("Taro".to_string());
    h.script("var name = 'name?' input ()");
    assert_eq!(h.text("name"), "Taro");
}

#[test]
fn import_runs_a_module_in_place() {
    let mut h = Host::new();
    h.modules.push(("m.sim".to_string(), "var x = 40\nvar y = 2".to_string()));
    h.script("import m.sim\nvar z = x y +");
    assert_eq!(h.number("z"), 42.0);
}

#[test]
fn import_of_a_missing_module_is_an_error() {
    let mut h = Host::new();
    let r = h.script("import nothing.sim");
    match r {
        ReturnValue::Error(e) => assert_eq!(e, "エラー! no such file"),
        _ => panic!("expected an error"),
    }
}

#[test]
fn exit_stops_the_program() {
    let mut h = Host::new();
    h.script("var a = 1\nexit\nvar a = 2");
    assert!(h.exited);
    assert_eq!(h.number("a"), 1.0);
}

#[test]
fn comments_are_passed_over() {
    let mut h = Host::new();
    h.script("# a comment\nvar a = 1 # set a\n\nvar b = a");
    assert_eq!(h.number("b"), 1.0);
    assert!(h.shown.is_empty());
}

#[test]
fn debugging_shows_lines_and_comments() {
    let mut h = Host::new();
    h.debug("var a = 1 # one");
    assert_eq!(h.shown[0], "※ コメント「 one」");
    assert_eq!(h.shown[1], "1行目の〔 var a = 1  〕を実行します");
    assert!(h.shown.contains(&"変数aを定義します".to_string()));
    assert!(h.shown.contains(&"継続します".to_string()));
}

#[test]
fn debug_menu_sets_and_shows_variables() {
    let mut h = Host::new();
    h.inputs.push("var q = 5".to_string());
    h.inputs.push("mem".to_string());
    h.inputs.push("".to_string());
    h.debug("var a = 1");
    assert_eq!(h.number("q"), 5.0);
    assert!(h.shown.contains(&"| [  0] a :1".to_string()));
    assert!(h.shown.contains(&"| [  1] q :5".to_string()));
}

#[test]
fn mem_statement_lists_the_memory() {
    let mut h = Host::new();
    h.debug("var a = 1\nvar bb = 'x'\nmem");
    assert!(h.shown.contains(&"+-- メモリ内の変数".to_string()));
    assert!(h.shown.contains(&"| [  0] a  :1".to_string()));
    assert!(h.shown.contains(&"| [  1] bb :'x'".to_string()));
}

#[test]
fn check_reports_unclosed_blocks() {
    let mut h = Host::new();
    h.check("for 3\n1 print ()");
    assert_eq!(h.shown, vec!["エラー! for文の終わりが見つかりません".to_string()]);
}

#[test]
fn check_reports_malformed_lines() {
    let mut h = Host::new();
    h.check("var a 1\nfunc f\nend func");
    assert_eq!(
        h.shown,
        vec!["エラー! 変数名と式の間にイコールをいれてください".to_string(), "エラー! 関数にはカッコをつけてください".to_string()]
    );
}

#[test]
fn check_accepts_a_closed_program() {
    let mut h = Host::new();
    h.check("var a = 1\nfor 2\nif a 1 =\nvar a = 2\nend if\nend for\nwhile a 0 >\nvar a = a 1 -\nend while");
    assert!(h.shown.is_empty());
}

#[test]
fn check_follows_imported_modules() {
    let mut h = Host::new();
    h.modules.push(("m.sim".to_string(), "for 2".to_string()));
    h.check("import m.sim\n1 print ()\nend for");
    assert!(h.shown.contains(&"エラー! for文の終わりが見つかりません".to_string()));
}

#[test]
fn function_body_runs_in_debug_for_interactive_callers() {
    match function_body_mode(&ExecutionMode::Interactive) {
        ExecutionMode::Debug => {}
        _ => panic!("expected Debug"),
    }
    match function_body_mode(&ExecutionMode::Script) {
        ExecutionMode::Script => {}
        _ => panic!("expected Script"),
    }
}

#[test]
fn executor_starts_in_normal_mode() {
    let e = Executor::new(ExecutionMode::Debug);
    match e.control_mode {
        ControlMode::Normal => {}
        _ => panic!("expected Normal"),
    }
}

#[test]
fn assignment_swallows_evaluation_errors() {
    let mut h = Host::new();
    let r = h.script("var a = 1 'x' +");
    assert!(matches!(r, ReturnValue::Nothing));
    assert_eq!(h.number("a"), 0.0);
}

#[test]
fn while_break_stops_the_loop() {
    let mut h = Host::new();
    h.script("var k = 0\nwhile 1 1 =\nvar k = k 1 +\nif k 5 =\nbreak\nend if\nend while");
    assert_eq!(h.number("k"), 5.0);
}

#[test]
fn returning_from_inside_a_loop_ends_the_function() {
    let mut h = Host::new();
    h.script("func f(n)\nfor 10\nreturn n 2 *\nend for\nreturn 0\nend func\nvar r = 21 f ()");
    assert_eq!(h.number("r"), 42.0);
}

#[test]
fn deleting_a_function_forgets_it() {
    let mut h = Host::new();
    h.script("func f(a)\nreturn a\nend func\ndel f()");
    assert!(h.mem.name_space.is_empty());
}

#[test]
fn check_reads_try_lines_as_statements() {
    let mut h = Host::new();
    h.check("try\nvar a = 1\ncatch\nvar a 2\nend try");
    assert_eq!(h.shown, vec!["エラー! 変数名と式の間にイコールをいれてください".to_string()]);
}

#[test]
fn index_must_be_a_number() {
    let mut h = Host::new();
    let r = h.script("var l = list ()\nl [true]");
    match r {
        ReturnValue::Error(e) => assert_eq!(e, "エラー! インデックスは数値型です"),
        _ => panic!("expected an error"),
    }
}

#[test]
fn calls_need_a_function_on_the_stack() {
    let mut h = Host::new();
    match h.script("()") {
        ReturnValue::Error(e) => assert_eq!(e, "エラー! スタックが空です"),
        _ => panic!("expected an error"),
    }
    match h.script("1 ()") {
        ReturnValue::Error(e) => assert_eq!(e, "エラー! 関数オブジェクトのみ呼び出し可能です"),
        _ => panic!("expected an error"),
    }
}

#[test]
fn deleting_a_function_removes_the_one_named() {
    let mut h = Host::new();
    h.script("func g()\nend func\nfunc f()\nend func\ndel f()");
    assert_eq!(h.mem.name_space.len(), 1);
    assert_eq!(h.mem.name_space[0].name, "g");
}

#[test]
fn tilde_reads_a_memory_address() {
    let mut h = Host::new();
    h.script("var x = 7\nvar y = 0 ~\nvar z = 5 0 ~\nvar w = 'x' ~");
    assert_eq!(h.number("y"), 7.0);
    assert_eq!(h.number("z"), 7.0);
    assert_eq!(h.number("w"), 7.0);
}

#[test]
fn tilde_past_the_memory_is_an_error() {
    let mut h = Host::new();
    match h.script("3 ~") {
        ReturnValue::Error(e) => assert_eq!(e, "エラー! アドレスが有効範囲外です"),
        _ => panic!("expected an error"),
    }
}

#[test]
fn a_parameter_holds_the_argument_itself() {
    let mut h = Host::new();
    h.script("func f(a)\nreturn a\nend func\nvar l = list ()\nvar l = l 1 +\nvar r = l f ()");
    let i = h.mem.reference_variable("r").expect("r");
    match &h.mem.memory[i].value {
        Type::List(v) => {
            assert_eq!(v.len(), 1);
            match &v[0] {
                Type::Number(b) => assert_eq!(f64::from_bits(*b), 1.0),
                _ => panic!("expected a number"),
            }
        }
        _ => panic!("expected a list"),
    }
}
