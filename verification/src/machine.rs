//! Running one statement. A statement that needs an expression evaluated,
//! a block run, a module read or a value rendered says so in a `Request`
//! and waits in a `Phase`; the host does the work and answers with an
//! `Event`, and the statement goes on from there. The executor's mode at
//! the time of a request is the mode the host evaluates or runs in.
use vstd::prelude::*;
use crate::text::{split, split_text, trim};
use crate::types::{
    lines_view, log_print, logs, text, texts_of, vals_of, vars_view, funcs_view, lemma_val_kind,
    ControlMode, ExecutionMode, FunctionView, Piece, PieceView, ReturnValue, Returned, Type, Val,
};
use crate::memory::{
    Memory, first_index, func_names, function_key, latest_index, lemma_first_index_from, lemma_latest_index, name_key,
    set_var_logs, set_var_spec, var_names,
};
use crate::executor::{
    collect, counters_ok, definition_args, definition_name, definition_ok, Block, Collected,
    ExecView, Executor,
};
use crate::statement::{classify, classify_statement, Statement, StmtKind};
use crate::sequence::{
    current, del_list, del_list_logs, del_list_writes, del_text, del_text_logs, del_text_panics,
    found, read_logs, set_panics, set_seq, set_seq_logs, set_writes, target_has_index,
    target_of, target_parts,
};
use crate::display::{decimal, decimal_text, pointers_ok, pointers_valid, value_pieces};
use crate::float::{round_u64, clamp_usize, number_round_to_usize};

verus! {

/// What a statement asks of the host.
pub enum Request {
    /// Evaluate the expression.
    Evaluate(String),
    /// Run the lines as a block of a new executor.
    RunBlock(Vec<String>),
    /// Run the lines as a block of this executor.
    RunHere(Vec<String>),
    /// Read the module file of this name.
    Load(String),
    /// Render these pieces (a value as `type_string` writes it) as text.
    Render(Vec<Piece>),
    /// Show the memory.
    ShowMemory,
    /// End the process.
    Exit,
    /// The statement cannot go on: the interpreter stops here.
    Fail,
    /// The statement is done and gives this.
    Done(ReturnValue),
}

/// The content of a request.
pub enum Asked {
    Evaluate(Seq<char>),
    RunBlock(Seq<Seq<char>>),
    RunHere(Seq<Seq<char>>),
    Load(Seq<char>),
    Render(Seq<PieceView>),
    ShowMemory,
    Exit,
    Fail,
    Done(Returned),
}

impl View for Request {
    type V = Asked;

    open spec fn view(&self) -> Asked {
        match self {
            Request::Evaluate(x) => Asked::Evaluate(x@),
            Request::RunBlock(b) => Asked::RunBlock(texts_of(b@)),
            Request::RunHere(b) => Asked::RunHere(texts_of(b@)),
            Request::Load(f) => Asked::Load(f@),
            Request::Render(p) => Asked::Render(crate::types::line_view(*p)),
            Request::ShowMemory => Asked::ShowMemory,
            Request::Exit => Asked::Exit,
            Request::Fail => Asked::Fail,
            Request::Done(r) => Asked::Done(r@),
        }
    }
}

/// What the host answers.
pub enum Event {
    /// The expression's result, and the host's rendering of the number it
    /// gave (for messages about an index).
    Evaluated(ReturnValue, String),
    /// The block's result.
    Ran(ReturnValue),
    /// The module's text.
    Loaded(String),
    /// The module could not be read, and why.
    LoadFailed(String),
    /// The value as it is shown.
    Rendered(String),
    /// The memory was shown.
    Shown,
}

/// The content of an answer.
pub enum Told {
    Evaluated(Returned, Seq<char>),
    Ran(Returned),
    Loaded(Seq<char>),
    LoadFailed(Seq<char>),
    Rendered(Seq<char>),
    Shown,
}

impl View for Event {
    type V = Told;

    open spec fn view(&self) -> Told {
        match self {
            Event::Evaluated(r, s) => Told::Evaluated(r@, s@),
            Event::Ran(r) => Told::Ran(r@),
            Event::Loaded(m) => Told::Loaded(m@),
            Event::LoadFailed(e) => Told::LoadFailed(e@),
            Event::Rendered(t) => Told::Rendered(t@),
            Event::Shown => Told::Shown,
        }
    }
}

/// Where a statement waits.
pub enum Phase {
    /// Nothing is in progress.
    Idle,
    /// `var name = e`: for the value.
    Assign(String),
    /// `var target = e`: for the value.
    IndexValue(String),
    /// `var name[i] = e`: for the index; the value and the address found
    /// before the index is evaluated.
    IndexIndex(String, String, Type, usize),
    /// `var name[i] = e`: for the value's rendering; the rendering of the
    /// index, the value, the address and the index.
    IndexText(String, String, Type, usize, ReturnValue),
    /// `import`: for the module's text.
    Load,
    /// `import`: for the module to run; the mode to go back to.
    Import(ExecutionMode),
    /// `mem`: for the memory to be shown.
    Show,
    /// `del name[i]` on a list: for the index; the list read.
    DelList(String, String, Vec<Type>),
    /// `del name[i]` on a text: for the index; the text read.
    DelText(String, String, String),
    /// `return e`: for the value.
    Return,
    /// An expression statement: for its value.
    Eval,
    /// `for`: for the count; the body.
    ForCount(Vec<String>),
    /// `for`: for an iteration; the body, the iterations begun, the count.
    ForBody(Vec<String>, usize, usize),
    /// `if`: for the condition; the body.
    IfCond(Vec<String>),
    /// `if`: for the body.
    IfBody,
    /// `if`/`else`: for the condition; both bodies.
    IfElseCond(Vec<String>, Vec<String>),
    /// `if`/`else`: for the branch taken.
    IfElseBody,
    /// `while`: for the condition; the body.
    WhileCond(Vec<String>),
    /// `while`: for an iteration; the body.
    WhileBody(Vec<String>),
    /// `try`: for the body; the `catch` body.
    TryBody(Vec<String>),
    /// `try`: for the `catch` body.
    Catch,
}

/// The content of a phase.
pub enum PhaseView {
    Idle,
    Assign(Seq<char>),
    IndexValue(Seq<char>),
    IndexIndex(Seq<char>, Seq<char>, Val, usize),
    IndexText(Seq<char>, Seq<char>, Val, usize, Returned),
    Load,
    Import(ExecutionMode),
    Show,
    DelList(Seq<char>, Seq<char>, Seq<Val>),
    DelText(Seq<char>, Seq<char>, Seq<char>),
    Return,
    Eval,
    ForCount(Seq<Seq<char>>),
    ForBody(Seq<Seq<char>>, usize, usize),
    IfCond(Seq<Seq<char>>),
    IfBody,
    IfElseCond(Seq<Seq<char>>, Seq<Seq<char>>),
    IfElseBody,
    WhileCond(Seq<Seq<char>>),
    WhileBody(Seq<Seq<char>>),
    TryBody(Seq<Seq<char>>),
    Catch,
}

impl View for Phase {
    type V = PhaseView;

    open spec fn view(&self) -> PhaseView {
        match self {
            Phase::Idle => PhaseView::Idle,
            Phase::Assign(n) => PhaseView::Assign(n@),
            Phase::IndexValue(t) => PhaseView::IndexValue(t@),
            Phase::IndexIndex(n, x, v, a) => PhaseView::IndexIndex(n@, x@, v@, *a),
            Phase::IndexText(n, s, v, a, i) => PhaseView::IndexText(n@, s@, v@, *a, i@),
            Phase::Load => PhaseView::Load,
            Phase::Import(m) => PhaseView::Import(*m),
            Phase::Show => PhaseView::Show,
            Phase::DelList(n, x, l) => PhaseView::DelList(n@, x@, vals_of(l@)),
            Phase::DelText(n, x, s) => PhaseView::DelText(n@, x@, s@),
            Phase::Return => PhaseView::Return,
            Phase::Eval => PhaseView::Eval,
            Phase::ForCount(b) => PhaseView::ForCount(texts_of(b@)),
            Phase::ForBody(b, i, n) => PhaseView::ForBody(texts_of(b@), *i, *n),
            Phase::IfCond(b) => PhaseView::IfCond(texts_of(b@)),
            Phase::IfBody => PhaseView::IfBody,
            Phase::IfElseCond(b, o) => PhaseView::IfElseCond(texts_of(b@), texts_of(o@)),
            Phase::IfElseBody => PhaseView::IfElseBody,
            Phase::WhileCond(b) => PhaseView::WhileCond(texts_of(b@)),
            Phase::WhileBody(b) => PhaseView::WhileBody(texts_of(b@)),
            Phase::TryBody(c) => PhaseView::TryBody(texts_of(c@)),
            Phase::Catch => PhaseView::Catch,
        }
    }
}

/// One move of a statement: the executor, phase and request after it, the
/// variables and functions after it, and what it prints.
pub struct Transition {
    pub state: ExecView,
    pub phase: PhaseView,
    pub request: Asked,
    pub vars: Seq<(Seq<char>, Val)>,
    pub funcs: Seq<FunctionView>,
    pub logs: Seq<Seq<PieceView>>,
}

/// A move that leaves the memory as it is.
pub open spec fn keep(e: ExecView, mem: Memory, phase: PhaseView, request: Asked, lg: Seq<Seq<PieceView>>) -> Transition {
    Transition { state: e, phase, request, vars: vars_view(mem.memory@), funcs: funcs_view(mem.name_space@), logs: lg }
}

/// The state, answer and printing that a move is made of, against a
/// transition.
pub open spec fn follows(t: Transition, e: ExecView, phase: Phase, request: Request, mem: Memory, before: Seq<Vec<Piece>>, after: Seq<Vec<Piece>>) -> bool {
    &&& e == t.state
    &&& phase@ == t.phase
    &&& request@ == t.request
    &&& vars_view(mem.memory@) == t.vars
    &&& funcs_view(mem.name_space@) == t.funcs
    &&& lines_view(after) == lines_view(before) + t.logs
}

/// An executor can take a line: its nesting counters can grow, and a
/// function definition it collects has its parenthesis.
pub open spec fn ready(e: ExecView) -> bool {
    counters_ok(e) && (e.control_mode is Function ==> definition_ok(e.data))
}

/// A line of `Normal` mode.
pub open spec fn normal_spec(e: ExecView, code: Seq<char>, mem: Memory) -> Transition {
    let mode = e.execution_mode;
    let none = Seq::<Seq<PieceView>>::empty();
    match classify(code) {
        StmtKind::Assign(name, x) => keep(e, mem, PhaseView::Assign(name), Asked::Evaluate(x), logs(mode, seq!["変数"@ + name + "を定義します"@])),
        StmtKind::AssignIndex(t, x) => keep(e, mem, PhaseView::IndexValue(t), Asked::Evaluate(x), none),
        StmtKind::Define(name) => keep(ExecView { data: code, control_mode: ControlMode::Function, ..e }, mem, PhaseView::Idle, Asked::Done(Returned::Nothing), logs(mode, seq!["関数"@ + name + "を定義します"@])),
        StmtKind::DefineUnbracketed => keep(e, mem, PhaseView::Idle, Asked::Done(Returned::Error(unbracketed())), logs(mode, seq![unbracketed()])),
        StmtKind::For(x) => keep(ExecView { expr: x, control_mode: ControlMode::For, ..e }, mem, PhaseView::Idle, Asked::Done(Returned::Nothing), none),
        StmtKind::If(x) => keep(ExecView { expr: x, control_mode: ControlMode::If, ..e }, mem, PhaseView::Idle, Asked::Done(Returned::Nothing), none),
        StmtKind::Try => keep(ExecView { control_mode: ControlMode::Try, ..e }, mem, PhaseView::Idle, Asked::Done(Returned::Nothing), none),
        StmtKind::While(x) => keep(ExecView { expr: x, control_mode: ControlMode::While, ..e }, mem, PhaseView::Idle, Asked::Done(Returned::Nothing), none),
        StmtKind::Import(f) => keep(e, mem, PhaseView::Load, Asked::Load(f), logs(mode, seq!["モジュール"@ + f + "を読み込みます"@])),
        StmtKind::Mem => keep(e, mem, PhaseView::Show, Asked::ShowMemory, none),
        StmtKind::DelFunction(n) => match latest_index(func_names(mem.name_space@), function_key(n)) {
            Some(i) => Transition {
                state: e,
                phase: PhaseView::Idle,
                request: Asked::Done(Returned::Nothing),
                vars: vars_view(mem.memory@),
                funcs: funcs_view(mem.name_space@).remove(i),
                logs: logs(mode, seq!["関数"@ + n + "を削除しました"@]),
            },
            None => keep(e, mem, PhaseView::Idle, Asked::Done(Returned::Nothing), logs(mode, seq!["関数"@ + n + "が見つかりません"@])),
        },
        StmtKind::DelIndex(item) => if target_parts(item).len() < 2 {
            keep(e, mem, PhaseView::Idle, Asked::Fail, none)
        } else {
            let name = trim(target_parts(item)[0]);
            let x = target_parts(item)[1];
            let vars = vars_view(mem.memory@);
            match value_named(vars, name) {
                Val::List(l) => keep(e, mem, PhaseView::DelList(name, x, l), Asked::Evaluate(x), reading_logs(vars, name, mode)),
                _ => keep(e, mem, del_second(vars, name, x).0, del_second(vars, name, x).1, reading_logs(vars, name, mode) + reading_logs(vars, name, mode)),
            }
        },
        StmtKind::DelVariable(n) => match first_index(var_names(mem.memory@), name_key(n)) {
            Some(i) => Transition {
                state: e,
                phase: PhaseView::Idle,
                request: Asked::Done(Returned::Nothing),
                vars: vars_view(mem.memory@).remove(i),
                funcs: funcs_view(mem.name_space@),
                logs: logs(mode, seq!["変数"@ + n + "を削除しました"@]),
            },
            None => keep(e, mem, PhaseView::Idle, Asked::Done(Returned::Nothing), logs(mode, seq!["変数"@ + n + "が見つかりません"@])),
        },
        StmtKind::Return(x) => keep(e, mem, PhaseView::Return, Asked::Evaluate(x), logs(mode, seq!["戻り値を返します"@])),
        StmtKind::Break => keep(e, mem, PhaseView::Idle, Asked::Done(Returned::Break), logs(mode, seq!["ループを脱出します"@])),
        StmtKind::Next => keep(e, mem, PhaseView::Idle, Asked::Done(Returned::Next), logs(mode, seq!["次のループへ移ります"@])),
        StmtKind::Exit => keep(e, mem, PhaseView::Idle, Asked::Exit, logs(mode, seq!["プロセスを終了します"@])),
        StmtKind::Evaluate(x) => keep(e, mem, PhaseView::Eval, Asked::Evaluate(x), none),
    }
}

/// The error of a `func` line without a parenthesis.
pub open spec fn unbracketed() -> Seq<char> {
    "エラー! 関数にはカッコをつけてください"@
}

/// The names of variables.
pub open spec fn names_of(vars: Seq<(Seq<char>, Val)>) -> Seq<Seq<char>> {
    vars.map_values(|v: (Seq<char>, Val)| v.0)
}

/// The value of the variable that `name` finds (0 when none).
pub open spec fn value_named(vars: Seq<(Seq<char>, Val)>, name: Seq<char>) -> Val {
    match first_index(names_of(vars), name_key(name)) {
        Some(i) => vars[i].1,
        None => Val::Number(0),
    }
}

/// What reading the variable that `name` finds prints.
pub open spec fn reading_logs(vars: Seq<(Seq<char>, Val)>, name: Seq<char>, mode: ExecutionMode) -> Seq<Seq<PieceView>> {
    logs(
        mode,
        if first_index(names_of(vars), name_key(name)) is Some {
            seq!["変数"@ + name + "を読み込みます"@]
        } else {
            seq!["変数"@ + name + "を読み込みます"@, "変数"@ + name_key(name) + "が見つかりません"@]
        },
    )
}

pub proof fn lemma_views(mem: Memory, name: Seq<char>, mode: ExecutionMode)
    ensures
        current(mem, name) == value_named(vars_view(mem.memory@), name),
        read_logs(mem, name, mode) == reading_logs(vars_view(mem.memory@), name, mode),
        found(mem, name) == first_index(names_of(vars_view(mem.memory@)), name_key(name)),
        found(mem, name) matches Some(i) ==> 0 <= i < mem.memory@.len(),
{
    assert(var_names(mem.memory@) =~= names_of(vars_view(mem.memory@)));
    lemma_first_index_from(var_names(mem.memory@), name_key(name), 0);
}

/// The second part of `del name[i]`: a text held by `name` has its index
/// evaluated; anything else ends the statement.
pub open spec fn del_second(vars: Seq<(Seq<char>, Val)>, name: Seq<char>, x: Seq<char>) -> (PhaseView, Asked) {
    match value_named(vars, name) {
        Val::Text(s) => (PhaseView::DelText(name, x, s), Asked::Evaluate(x)),
        _ => (PhaseView::Idle, Asked::Done(Returned::Nothing)),
    }
}

/// A line of a block mode (see `collect`): a block that ends asks for
/// its first step; a `func` block that ends is declared.
pub open spec fn block_spec(e: ExecView, code: Seq<char>, mem: Memory) -> Transition {
    let c = collect(e, code);
    let e2 = c.0;
    let mode = e.execution_mode;
    let lg = logs(mode, c.2);
    match c.1 {
        Collected::Nothing => keep(e2, mem, PhaseView::Idle, Asked::Done(Returned::Nothing), lg),
        Collected::Define(data, body) => {
            let f = FunctionView { name: definition_name(data), args: definition_args(data), code: body };
            Transition {
                state: e2,
                phase: PhaseView::Idle,
                request: Asked::Done(Returned::Nothing),
                vars: set_var_spec(vars_view(mem.memory@), var_names(mem.memory@), f.name, Val::Function(mem.name_space@.len() as usize)),
                funcs: funcs_view(mem.name_space@).push(f),
                logs: logs(mode, seq!["メモリに関数を保存しました"@] + set_var_logs(var_names(mem.memory@), f.name)),
            }
        },
        Collected::For(x, body) => keep(e2, mem, PhaseView::ForCount(body), Asked::Evaluate(x), lg),
        Collected::If(x, body) => keep(e2, mem, PhaseView::IfCond(body), Asked::Evaluate(x), lg),
        Collected::IfElse(x, b1, b2) => keep(e2, mem, PhaseView::IfElseCond(b1, b2), Asked::Evaluate(x), lg),
        Collected::While(x, body) => keep(e2, mem, PhaseView::WhileCond(body), Asked::Evaluate(x), lg + logs(mode, seq!["whileの条件式を評価します"@])),
        Collected::Try(b1, b2) => keep(e2, mem, PhaseView::TryBody(b2), Asked::RunBlock(b1), lg),
    }
}

/// The first move of a line.
pub open spec fn start_spec(e: ExecView, code: Seq<char>, mem: Memory) -> Transition {
    if e.control_mode is Normal {
        normal_spec(e, code, mem)
    } else {
        block_spec(e, code, mem)
    }
}

/// The answer is of the kind the phase waits for.
pub open spec fn answers(p: PhaseView, ev: Told) -> bool {
    match p {
        PhaseView::Idle => false,
        PhaseView::IndexText(..) => ev is Rendered,
        PhaseView::Load => ev is Loaded || ev is LoadFailed,
        PhaseView::Show => ev is Shown,
        PhaseView::Import(_) | PhaseView::ForBody(..) | PhaseView::IfBody | PhaseView::IfElseBody
        | PhaseView::WhileBody(_) | PhaseView::TryBody(_) | PhaseView::Catch => ev is Ran,
        _ => ev is Evaluated,
    }
}

/// The value a result stands for: what it returned, or 0.
pub open spec fn given(r: Returned) -> Val {
    match r {
        Returned::Value(v) => v,
        _ => Val::Number(0),
    }
}

/// The executor once a block is over: back to `Normal`, its body dropped.
pub open spec fn block_over(e: ExecView) -> ExecView {
    ExecView { stmt: Seq::empty(), control_mode: ControlMode::Normal, ..e }
}

/// The executor once an `if`/`else` or `try` block is over.
pub open spec fn both_over(e: ExecView) -> ExecView {
    ExecView { stmt: Seq::empty(), else_stmt: Seq::empty(), control_mode: ControlMode::Normal, ..e }
}

/// The next iteration of a `for` block after `i` of `n`, or its end.
pub open spec fn for_next(e: ExecView, mem: Memory, body: Seq<Seq<char>>, i: usize, n: usize) -> Transition {
    if i < n {
        keep(e, mem, PhaseView::ForBody(body, (i + 1) as usize, n), Asked::RunBlock(body), logs(e.execution_mode, seq![decimal((i + 1) as nat) + "回目のループ"@]))
    } else {
        keep(block_over(e), mem, PhaseView::Idle, Asked::Done(Returned::Nothing), Seq::empty())
    }
}

/// The number of iterations a count value asks for: rounded, saturated.
pub open spec fn count_of(b: u64) -> usize {
    clamp_usize(round_u64(b)) as usize
}

/// The error of a `for` count that is not a number.
pub open spec fn count_error() -> Seq<char> {
    "エラー! ループ回数は数値型です"@
}

/// Setting an element cannot go on: the interpreter stops.
pub open spec fn set_stuck(mem: Memory, name: Seq<char>, a: usize, index: Returned) -> bool {
    set_panics(mem, name, index) || (set_writes(mem, name, index) && a >= mem.memory@.len())
}

/// Setting an element, with the value's rendering.
pub open spec fn set_move(e: ExecView, mem: Memory, name: Seq<char>, shown: Seq<char>, v: Val, a: usize, index: Returned, t: Seq<char>) -> Transition {
    Transition {
        state: e,
        phase: PhaseView::Idle,
        request: Asked::Done(Returned::Nothing),
        vars: set_seq(mem, name, a as int, index, shown, v, t).1,
        funcs: funcs_view(mem.name_space@),
        logs: set_seq_logs(mem, name, index, e.execution_mode),
    }
}

/// The move that an answer makes.
pub open spec fn resume_spec(e: ExecView, p: PhaseView, ev: Told, mem: Memory) -> Transition {
    let mode = e.execution_mode;
    let none = Seq::<Seq<PieceView>>::empty();
    let vars = vars_view(mem.memory@);
    let stuck = keep(e, mem, PhaseView::Idle, Asked::Fail, none);
    match ev {
        Told::Evaluated(r, shown) => match p {
            PhaseView::Assign(name) => Transition {
                state: e,
                phase: PhaseView::Idle,
                request: Asked::Done(Returned::Nothing),
                vars: set_var_spec(vars, var_names(mem.memory@), name, given(r)),
                funcs: funcs_view(mem.name_space@),
                logs: logs(mode, set_var_logs(var_names(mem.memory@), name)),
            },
            PhaseView::IndexValue(t) => if r is Error {
                keep(e, mem, PhaseView::Idle, Asked::Done(r), none)
            } else if target_parts(t).len() < 2 {
                stuck
            } else {
                let name = trim(target_parts(t)[0]);
                let x = target_parts(t)[1];
                let a: usize = match found(mem, name) {
                    Some(i) => i as usize,
                    None => 0,
                };
                keep(e, mem, PhaseView::IndexIndex(name, x, given(r), a), Asked::Evaluate(x), none)
            },
            PhaseView::IndexIndex(name, _, v, a) => if set_stuck(mem, name, a, r) {
                stuck
            } else if value_named(vars, name) is Text {
                match v {
                    Val::Text(t) => set_move(e, mem, name, shown, v, a, r, t),
                    _ => if pointers_ok(v, mem.name_space@.len()) {
                        keep(
                            e,
                            mem,
                            PhaseView::IndexText(name, shown, v, a, r),
                            Asked::Render(value_pieces(v, funcs_view(mem.name_space@), mode is Script)),
                            none,
                        )
                    } else {
                        stuck
                    },
                }
            } else {
                set_move(e, mem, name, shown, v, a, r, Seq::empty())
            },
            PhaseView::DelList(name, x, l) => if del_list_writes(l, r) && mem.memory@.len() == 0 {
                stuck
            } else {
                let d = del_list(mem, name, l, r, shown);
                Transition {
                    state: e,
                    phase: if d.0 is Some { PhaseView::Idle } else { del_second(d.1, name, x).0 },
                    request: if d.0 is Some { Asked::Done(Returned::Nothing) } else { del_second(d.1, name, x).1 },
                    vars: d.1,
                    funcs: funcs_view(mem.name_space@),
                    logs: del_list_logs(l, r, mode) + if d.0 is Some { none } else { reading_logs(d.1, name, mode) },
                }
            },
            PhaseView::DelText(name, _, s) => if del_text_panics(mem, s, r, mode) {
                stuck
            } else {
                Transition {
                    state: e,
                    phase: PhaseView::Idle,
                    request: Asked::Done(Returned::Nothing),
                    vars: del_text(mem, name, s, r, shown, mode).1,
                    funcs: funcs_view(mem.name_space@),
                    logs: del_text_logs(r, mode),
                }
            },
            PhaseView::Return => keep(e, mem, PhaseView::Idle, Asked::Done(r), none),
            PhaseView::Eval => keep(e, mem, PhaseView::Idle, Asked::Done(if r is Error { r } else { Returned::Nothing }), none),
            PhaseView::ForCount(body) => match r {
                Returned::Error(_) => keep(e, mem, PhaseView::Idle, Asked::Done(r), none),
                Returned::Value(Val::Number(b)) => for_next(e, mem, body, 0, count_of(b)),
                Returned::Value(_) => keep(e, mem, PhaseView::Idle, Asked::Done(Returned::Error(count_error())), none),
                _ => for_next(e, mem, body, 0, 0),
            },
            PhaseView::IfCond(body) => if r is Error {
                keep(e, mem, PhaseView::Idle, Asked::Done(r), none)
            } else if r == Returned::Value(Val::Bool(true)) {
                keep(e, mem, PhaseView::IfBody, Asked::RunBlock(body), logs(mode, seq!["条件が一致したので、実行します"@]))
            } else {
                keep(block_over(e), mem, PhaseView::Idle, Asked::Done(Returned::Nothing), logs(mode, seq!["条件が一致しなかったので、実行しません"@]))
            },
            PhaseView::IfElseCond(b1, b2) => if r is Error {
                keep(e, mem, PhaseView::Idle, Asked::Done(r), none)
            } else if r == Returned::Value(Val::Bool(true)) {
                keep(e, mem, PhaseView::IfElseBody, Asked::RunBlock(b1), logs(mode, seq!["条件が一致したので、実行します"@]))
            } else {
                keep(e, mem, PhaseView::IfElseBody, Asked::RunBlock(b2), logs(mode, seq!["条件が一致しなかったので、elseのコードを実行します"@]))
            },
            PhaseView::WhileCond(body) => if r is Error {
                keep(e, mem, PhaseView::Idle, Asked::Done(r), none)
            } else if r == Returned::Value(Val::Bool(true)) {
                keep(
                    if mode is Interactive { ExecView { execution_mode: ExecutionMode::Debug, ..e } } else { e },
                    mem,
                    PhaseView::WhileBody(body),
                    Asked::RunBlock(body),
                    logs(mode, seq!["条件が一致したので、ループを継続します"@]),
                )
            } else {
                keep(block_over(e), mem, PhaseView::Idle, Asked::Done(Returned::Nothing), logs(mode, seq!["条件が一致しなかったので、ループを脱出します"@]))
            },
            _ => stuck,
        },
        Told::Ran(r) => match p {
            PhaseView::Import(saved) => keep(ExecView { execution_mode: saved, ..e }, mem, PhaseView::Idle, Asked::Done(Returned::Nothing), none),
            PhaseView::ForBody(body, i, n) => match r {
                Returned::Break => keep(block_over(e), mem, PhaseView::Idle, Asked::Done(Returned::Nothing), none),
                Returned::Value(_) | Returned::Error(_) => keep(e, mem, PhaseView::Idle, Asked::Done(r), none),
                _ => for_next(e, mem, body, i, n),
            },
            PhaseView::IfBody => if r is Nothing {
                keep(block_over(e), mem, PhaseView::Idle, Asked::Done(Returned::Nothing), none)
            } else {
                keep(e, mem, PhaseView::Idle, Asked::Done(r), none)
            },
            PhaseView::IfElseBody => if r is Nothing {
                keep(both_over(e), mem, PhaseView::Idle, Asked::Done(Returned::Nothing), none)
            } else {
                keep(e, mem, PhaseView::Idle, Asked::Done(r), none)
            },
            PhaseView::WhileBody(body) => match r {
                Returned::Break => keep(ExecView { control_mode: ControlMode::Normal, ..e }, mem, PhaseView::Idle, Asked::Done(Returned::Nothing), none),
                Returned::Value(_) | Returned::Error(_) => keep(e, mem, PhaseView::Idle, Asked::Done(r), none),
                _ => keep(e, mem, PhaseView::WhileCond(body), Asked::Evaluate(e.expr), logs(mode, seq!["whileの条件式を評価します"@])),
            },
            PhaseView::TryBody(c) => match r {
                Returned::Error(_) => keep(e, mem, PhaseView::Catch, Asked::RunBlock(c), logs(mode, seq!["エラーが発生したので、Catchのコードを実行します"@])),
                Returned::Nothing => keep(both_over(e), mem, PhaseView::Idle, Asked::Done(Returned::Nothing), logs(mode, seq!["正常に実行されました"@])),
                _ => keep(e, mem, PhaseView::Idle, Asked::Done(r), none),
            },
            PhaseView::Catch => if r is Nothing {
                keep(both_over(e), mem, PhaseView::Idle, Asked::Done(Returned::Nothing), none)
            } else {
                keep(e, mem, PhaseView::Idle, Asked::Done(r), none)
            },
            _ => stuck,
        },
        Told::Loaded(m) => match p {
            PhaseView::Load => keep(
                ExecView { execution_mode: if mode is Script { ExecutionMode::Script } else { ExecutionMode::Debug }, ..e },
                mem,
                PhaseView::Import(mode),
                Asked::RunHere(split(m, '\n')),
                none,
            ),
            _ => stuck,
        },
        Told::LoadFailed(x) => match p {
            PhaseView::Load => keep(e, mem, PhaseView::Idle, Asked::Done(Returned::Error("エラー! "@ + x)), none),
            _ => stuck,
        },
        Told::Rendered(t) => match p {
            PhaseView::IndexText(name, shown, v, a, index) => if set_stuck(mem, name, a, index) {
                stuck
            } else {
                set_move(e, mem, name, shown, v, a, index, t)
            },
            _ => stuck,
        },
        Told::Shown => match p {
            PhaseView::Show => keep(e, mem, PhaseView::Idle, Asked::Done(Returned::Nothing), none),
            _ => stuck,
        },
    }
}

/// The text `a`, then `b`, then `c`.
pub fn message(a: &str, b: &str, c: &str) -> (r: String)
    ensures
        r@ == a@ + b@ + c@,
{
    let mut m = String::from_str(a);
    m.append(b);
    m.append(c);
    m
}

impl Executor {
    /// Whether the executor can take a line (see `ready`).
    pub fn is_ready(&self) -> (r: bool)
        ensures
            r == ready(self@),
    {
        let counters = self.nest_if < usize::MAX && self.nest_try < usize::MAX && self.nest_for < usize::MAX
            && self.nest_while < usize::MAX && self.nest_func < usize::MAX;
        let defined = match self.control_mode {
            ControlMode::Function => {
                let a = crate::text::remove_all_text(self.data.as_str(), ')');
                let parts = split_text(a.as_str(), '(');
                parts.len() >= 2
            },
            _ => true,
        };
        counters && defined
    }

    /// The second part of `del name[i]` (see `del_second`).
    fn del_second_part(name: String, x: String, mem: &Memory, mode: &ExecutionMode, out: &mut Vec<Vec<Piece>>) -> (r: (Phase, Request))
        ensures
            r.0@ == del_second(vars_view(mem.memory@), name@, x@).0,
            r.1@ == del_second(vars_view(mem.memory@), name@, x@).1,
            lines_view(final(out)@) == lines_view(old(out)@) + reading_logs(vars_view(mem.memory@), name@, *mode),
    {
        proof { lemma_views(*mem, name@, *mode); }
        let v = mem.get_variable_value(name.as_str(), mode, out);
        proof { lemma_val_kind(v); }
        match v {
            Type::String(s) => {
                let y = x.clone();
                (Phase::DelText(name, x, s), Request::Evaluate(y))
            },
            _ => (Phase::Idle, Request::Done(ReturnValue::Nothing)),
        }
    }

    /// The first move of a line in `Normal` mode (see `normal_spec`).
    fn start_normal(&mut self, code: &str, mem: &mut Memory, out: &mut Vec<Vec<Piece>>) -> (r: (Phase, Request))
        requires
            old(self).control_mode is Normal,
        ensures
            follows(normal_spec(old(self)@, code@, *old(mem)), final(self)@, r.0, r.1, *final(mem), old(out)@, final(out)@),
    {
        let mode = self.execution_mode.copy();
        let ghost none = Seq::<Seq<PieceView>>::empty();
        match classify_statement(code) {
            Statement::Assign(name, x) => {
                log_print(&mode, message("変数", name.as_str(), "を定義します"), out);
                (Phase::Assign(name), Request::Evaluate(x))
            },
            Statement::AssignIndex(t, x) => {
                assert(lines_view(out@) =~= lines_view(old(out)@) + none);
                (Phase::IndexValue(t), Request::Evaluate(x))
            },
            Statement::Define(name) => {
                log_print(&mode, message("関数", name.as_str(), "を定義します"), out);
                self.data = String::from_str(code);
                self.control_mode = ControlMode::Function;
                (Phase::Idle, Request::Done(ReturnValue::Nothing))
            },
            Statement::DefineUnbracketed => {
                log_print(&mode, text("エラー! 関数にはカッコをつけてください"), out);
                (Phase::Idle, Request::Done(ReturnValue::Error(text("エラー! 関数にはカッコをつけてください"))))
            },
            Statement::For(x) => {
                self.expr = x;
                self.control_mode = ControlMode::For;
                assert(lines_view(out@) =~= lines_view(old(out)@) + none);
                (Phase::Idle, Request::Done(ReturnValue::Nothing))
            },
            Statement::If(x) => {
                self.expr = x;
                self.control_mode = ControlMode::If;
                assert(lines_view(out@) =~= lines_view(old(out)@) + none);
                (Phase::Idle, Request::Done(ReturnValue::Nothing))
            },
            Statement::Try => {
                self.control_mode = ControlMode::Try;
                assert(lines_view(out@) =~= lines_view(old(out)@) + none);
                (Phase::Idle, Request::Done(ReturnValue::Nothing))
            },
            Statement::While(x) => {
                self.expr = x;
                self.control_mode = ControlMode::While;
                assert(lines_view(out@) =~= lines_view(old(out)@) + none);
                (Phase::Idle, Request::Done(ReturnValue::Nothing))
            },
            Statement::Import(f) => {
                log_print(&mode, message("モジュール", f.as_str(), "を読み込みます"), out);
                (Phase::Load, Request::Load(f))
            },
            Statement::Mem => {
                assert(lines_view(out@) =~= lines_view(old(out)@) + none);
                (Phase::Show, Request::ShowMemory)
            },
            Statement::DelFunction(n) => {
                match mem.reference_function(n.as_str()) {
                    Some(i) => {
                        proof {
                            lemma_latest_index(func_names(mem.name_space@), function_key(n@));
                        }
                        let ghost before = funcs_view(mem.name_space@);
                        mem.name_space.remove(i);
                        assert(funcs_view(mem.name_space@) =~= before.remove(i as int));
                        log_print(&mode, message("関数", n.as_str(), "を削除しました"), out);
                    },
                    None => {
                        log_print(&mode, message("関数", n.as_str(), "が見つかりません"), out);
                    },
                }
                (Phase::Idle, Request::Done(ReturnValue::Nothing))
            },
            Statement::DelIndex(item) => {
                if !target_has_index(item.as_str()) {
                    assert(lines_view(out@) =~= lines_view(old(out)@) + none);
                    return (Phase::Idle, Request::Fail);
                }
                let (name, x) = target_of(item.as_str());
                proof { lemma_views(*mem, name@, mode); }
                let v = mem.get_variable_value(name.as_str(), &mode, out);
                proof { lemma_val_kind(v); crate::types::lemma_list_view(v); }
                let ghost reading = reading_logs(vars_view(mem.memory@), name@, mode);
                match v {
                    Type::List(l) => {
                        let y = x.clone();
                        (Phase::DelList(name, x, l), Request::Evaluate(y))
                    },
                    _ => {
                        let r = Self::del_second_part(name, x, mem, &mode, out);
                        assert(lines_view(out@) =~= lines_view(old(out)@) + (reading + reading));
                        r
                    },
                }
            },
            Statement::DelVariable(n) => {
                match mem.reference_variable(n.as_str()) {
                    Some(i) => {
                        let ghost before = vars_view(mem.memory@);
                        mem.memory.remove(i);
                        assert(vars_view(mem.memory@) =~= before.remove(i as int));
                        log_print(&mode, message("変数", n.as_str(), "を削除しました"), out);
                    },
                    None => {
                        log_print(&mode, message("変数", n.as_str(), "が見つかりません"), out);
                    },
                }
                (Phase::Idle, Request::Done(ReturnValue::Nothing))
            },
            Statement::Return(x) => {
                log_print(&mode, text("戻り値を返します"), out);
                (Phase::Return, Request::Evaluate(x))
            },
            Statement::Break => {
                log_print(&mode, text("ループを脱出します"), out);
                (Phase::Idle, Request::Done(ReturnValue::Break))
            },
            Statement::Next => {
                log_print(&mode, text("次のループへ移ります"), out);
                (Phase::Idle, Request::Done(ReturnValue::Next))
            },
            Statement::Exit => {
                log_print(&mode, text("プロセスを終了します"), out);
                (Phase::Idle, Request::Exit)
            },
            Statement::Evaluate(x) => {
                assert(lines_view(out@) =~= lines_view(old(out)@) + none);
                (Phase::Eval, Request::Evaluate(x))
            },
        }
    }
}

impl Executor {
    /// The first move of a line in a block mode (see `block_spec`).
    fn start_block(&mut self, code: &str, mem: &mut Memory, out: &mut Vec<Vec<Piece>>) -> (r: (Phase, Request))
        requires
            !(old(self).control_mode is Normal),
            ready(old(self)@),
        ensures
            follows(block_spec(old(self)@, code@, *old(mem)), final(self)@, r.0, r.1, *final(mem), old(out)@, final(out)@),
    {
        let mode = self.execution_mode.copy();
        let b = self.collect_line(code, mem, out);
        match b {
            Block::Nothing => (Phase::Idle, Request::Done(ReturnValue::Nothing)),
            Block::Defined(_, _) => (Phase::Idle, Request::Done(ReturnValue::Nothing)),
            Block::For(x, body) => (Phase::ForCount(body), Request::Evaluate(x)),
            Block::If(x, body) => (Phase::IfCond(body), Request::Evaluate(x)),
            Block::IfElse(x, b1, b2) => (Phase::IfElseCond(b1, b2), Request::Evaluate(x)),
            Block::While(x, body) => {
                let ghost mid = lines_view(out@);
                log_print(&mode, text("whileの条件式を評価します"), out);
                (Phase::WhileCond(body), Request::Evaluate(x))
            },
            Block::Try(b1, b2) => (Phase::TryBody(b2), Request::RunBlock(b1)),
        }
    }

    /// The first move of a line (see `start_spec`): in `Normal` mode the
    /// line is a statement; in a block mode it is collected, and a block
    /// that ends starts to run.
    pub fn execute(&mut self, code: &str, mem: &mut Memory, out: &mut Vec<Vec<Piece>>) -> (r: (Phase, Request))
        requires
            ready(old(self)@),
        ensures
            follows(start_spec(old(self)@, code@, *old(mem)), final(self)@, r.0, r.1, *final(mem), old(out)@, final(out)@),
    {
        match self.control_mode {
            ControlMode::Normal => self.start_normal(code, mem, out),
            _ => self.start_block(code, mem, out),
        }
    }
}

impl Executor {
    /// Ends a block: back to `Normal`, the body dropped.
    fn end_block(&mut self)
        ensures
            final(self)@ == block_over(old(self)@),
    {
        self.stmt = Vec::new();
        self.control_mode = ControlMode::Normal;
        assert(self@.stmt =~= Seq::<Seq<char>>::empty());
        assert(self@ =~= block_over(old(self)@));
    }

    /// Ends an `if`/`else` or `try` block.
    fn end_both(&mut self)
        ensures
            final(self)@ == both_over(old(self)@),
    {
        self.else_stmt = Vec::new();
        self.stmt = Vec::new();
        self.control_mode = ControlMode::Normal;
        assert(self@.stmt =~= Seq::<Seq<char>>::empty());
        assert(self@.else_stmt =~= Seq::<Seq<char>>::empty());
        assert(self@ =~= both_over(old(self)@));
    }

    /// The next iteration of a `for` block (see `for_next`).
    fn for_next_move(&mut self, body: Vec<String>, i: usize, n: usize, mem: &Memory, out: &mut Vec<Vec<Piece>>) -> (r: (Phase, Request))
        ensures
            follows(for_next(old(self)@, *mem, texts_of(body@), i, n), final(self)@, r.0, r.1, *mem, old(out)@, final(out)@),
    {
        if i < n {
            let mut m = decimal_text(i + 1);
            m.append("回目のループ");
            log_print(&self.execution_mode, m, out);
            let b2 = crate::types::copy_texts(&body);
            (Phase::ForBody(body, i + 1, n), Request::RunBlock(b2))
        } else {
            self.end_block();
            assert(lines_view(out@) =~= lines_view(old(out)@) + Seq::<Seq<PieceView>>::empty());
            (Phase::Idle, Request::Done(ReturnValue::Nothing))
        }
    }

    /// Sets an element once its value is rendered, unless the
    /// interpreter stops there.
    fn set_element(name: String, shown: String, v: Type, a: usize, index: ReturnValue, t: &String, mem: &mut Memory, mode: &ExecutionMode, out: &mut Vec<Vec<Piece>>) -> (r: Request)
        ensures
            set_stuck(*old(mem), name@, a, index@) ==> r@ == Asked::Fail && *final(mem) == *old(mem) && final(out)@ == old(out)@,
            !set_stuck(*old(mem), name@, a, index@) ==> r@ == Asked::Done(Returned::Nothing)
                && vars_view(final(mem).memory@) == set_seq(*old(mem), name@, a as int, index@, shown@, v@, t@).1
                && final(mem).name_space == old(mem).name_space
                && lines_view(final(out)@) == lines_view(old(out)@) + set_seq_logs(*old(mem), name@, index@, *mode),
    {
        if mem.set_would_panic(name.as_str(), &index) || (mem.set_would_write(name.as_str(), &index) && a >= mem.memory.len()) {
            return Request::Fail;
        }
        mem.set_sequence_value(name.as_str(), a, index, &shown, v, t, mode, out);
        Request::Done(ReturnValue::Nothing)
    }

    /// The move an expression's result makes in an assignment.
    fn resume_assign(&mut self, phase: Phase, r: ReturnValue, shown: String, mem: &mut Memory, out: &mut Vec<Vec<Piece>>) -> (res: (Phase, Request))
        requires
            phase is Assign || phase is IndexValue || phase is IndexIndex,
        ensures
            follows(resume_spec(old(self)@, phase@, Told::Evaluated(r@, shown@), *old(mem)), final(self)@, res.0, res.1, *final(mem), old(out)@, final(out)@),
    {
        let mode = self.execution_mode.copy();
        let ghost none = Seq::<Seq<PieceView>>::empty();
        let ghost rv = r@;
        proof {
            if r is Value {
                lemma_val_kind(r->Value_0);
            }
        }
        match phase {
            Phase::Assign(name) => {
                let value = match r {
                    ReturnValue::Value(v) => v,
                    _ => Type::Number(0),
                };
                mem.set_variable(name.as_str(), value, &mode, out);
                (Phase::Idle, Request::Done(ReturnValue::Nothing))
            },
            Phase::IndexValue(t) => {
                assert(lines_view(out@) =~= lines_view(old(out)@) + none);
                let value = match r {
                    ReturnValue::Error(e) => return (Phase::Idle, Request::Done(ReturnValue::Error(e))),
                    ReturnValue::Value(v) => v,
                    _ => Type::Number(0),
                };
                if !target_has_index(t.as_str()) {
                    return (Phase::Idle, Request::Fail);
                }
                let (name, x) = target_of(t.as_str());
                let a = match mem.reference_variable(name.as_str()) {
                    Some(i) => i,
                    None => 0,
                };
                let y = x.clone();
                (Phase::IndexIndex(name, x, value, a), Request::Evaluate(y))
            },
            Phase::IndexIndex(name, _, v, a) => {
                proof { lemma_views(*mem, name@, mode); }
                assert(lines_view(out@) =~= lines_view(old(out)@) + none);
                if mem.set_would_panic(name.as_str(), &r) || (mem.set_would_write(name.as_str(), &r) && a >= mem.memory.len()) {
                    return (Phase::Idle, Request::Fail);
                }
                if mem.holds_text(name.as_str()) {
                    proof { lemma_val_kind(v); }
                    if let Type::String(t) = &v {
                        let t = t.clone();
                        let req = Self::set_element(name, shown, v, a, r, &t, mem, &mode, out);
                        (Phase::Idle, req)
                    } else if pointers_valid(&v, mem) {
                        let mut p: Vec<Piece> = Vec::new();
                        crate::display::type_string(&v, mem, mode.is_script(), &mut p);
                        assert(crate::types::line_view(p) =~= value_pieces(v@, funcs_view(mem.name_space@), mode is Script));
                        (Phase::IndexText(name, shown, v, a, r), Request::Render(p))
                    } else {
                        (Phase::Idle, Request::Fail)
                    }
                } else {
                    let req = Self::set_element(name, shown, v, a, r, &String::new(), mem, &mode, out);
                    (Phase::Idle, req)
                }
            },
            _ => (Phase::Idle, Request::Fail),
        }
    }

    /// The move an expression's result makes in a deletion.
    fn resume_delete(&mut self, phase: Phase, r: ReturnValue, shown: String, mem: &mut Memory, out: &mut Vec<Vec<Piece>>) -> (res: (Phase, Request))
        requires
            phase is DelList || phase is DelText,
        ensures
            follows(resume_spec(old(self)@, phase@, Told::Evaluated(r@, shown@), *old(mem)), final(self)@, res.0, res.1, *final(mem), old(out)@, final(out)@),
    {
        let mode = self.execution_mode.copy();
        let ghost none = Seq::<Seq<PieceView>>::empty();
        let ghost rv = r@;
        proof {
            if r is Value {
                lemma_val_kind(r->Value_0);
            }
        }
        match phase {
            Phase::DelList(name, x, l) => {
                proof { crate::types::lemma_list_view(Type::List(l)); }
                let writes = match &r {
                    ReturnValue::Error(_) => false,
                    ReturnValue::Value(Type::Number(b)) => crate::float::number_to_usize(*b) < l.len(),
                    ReturnValue::Value(_) => false,
                    _ => crate::float::number_to_usize(0) < l.len(),
                };
                if writes && mem.memory.len() == 0 {
                    assert(lines_view(out@) =~= lines_view(old(out)@) + none);
                    return (Phase::Idle, Request::Fail);
                }
                let ghost lv = vals_of(l@);
                let d = mem.del_from_list(name.as_str(), l, r, &shown, &mode, out);
                let ghost mid = lines_view(out@);
                match d {
                    Some(_) => {
                        assert(lines_view(out@) =~= lines_view(old(out)@) + (del_list_logs(lv, rv, mode) + none));
                        (Phase::Idle, Request::Done(ReturnValue::Nothing))
                    },
                    None => {
                        let res = Self::del_second_part(name, x, mem, &mode, out);
                        assert(lines_view(out@) =~= lines_view(old(out)@) + (del_list_logs(lv, rv, mode) + reading_logs(vars_view(mem.memory@), name@, mode)));
                        res
                    },
                }
            },
            Phase::DelText(name, _, s) => {
                if mem.del_text_would_panic(&s, &r, &mode) {
                    assert(lines_view(out@) =~= lines_view(old(out)@) + none);
                    return (Phase::Idle, Request::Fail);
                }
                mem.del_from_text(name.as_str(), s, r, &shown, &mode, out);
                (Phase::Idle, Request::Done(ReturnValue::Nothing))
            },
            _ => (Phase::Idle, Request::Fail),
        }
    }

    /// The move an expression's result makes in a control statement.
    fn resume_control(&mut self, phase: Phase, r: ReturnValue, shown: String, mem: &mut Memory, out: &mut Vec<Vec<Piece>>) -> (res: (Phase, Request))
        requires
            phase is Return || phase is Eval || phase is ForCount || phase is IfCond || phase is IfElseCond || phase is WhileCond,
        ensures
            follows(resume_spec(old(self)@, phase@, Told::Evaluated(r@, shown@), *old(mem)), final(self)@, res.0, res.1, *final(mem), old(out)@, final(out)@),
    {
        let mode = self.execution_mode.copy();
        let ghost none = Seq::<Seq<PieceView>>::empty();
        let ghost rv = r@;
        proof {
            if r is Value {
                lemma_val_kind(r->Value_0);
            }
        }
        match phase {
            Phase::Return => {
                assert(lines_view(out@) =~= lines_view(old(out)@) + none);
                (Phase::Idle, Request::Done(r))
            },
            Phase::Eval => {
                assert(lines_view(out@) =~= lines_view(old(out)@) + none);
                match r {
                    ReturnValue::Error(e) => (Phase::Idle, Request::Done(ReturnValue::Error(e))),
                    _ => (Phase::Idle, Request::Done(ReturnValue::Nothing)),
                }
            },
            Phase::ForCount(body) => {
                match r {
                    ReturnValue::Error(e) => {
                        assert(lines_view(out@) =~= lines_view(old(out)@) + none);
                        (Phase::Idle, Request::Done(ReturnValue::Error(e)))
                    },
                    ReturnValue::Value(Type::Number(b)) => {
                        let n = number_round_to_usize(b);
                        self.for_next_move(body, 0, n, mem, out)
                    },
                    ReturnValue::Value(_) => {
                        assert(lines_view(out@) =~= lines_view(old(out)@) + none);
                        (Phase::Idle, Request::Done(ReturnValue::Error(text("エラー! ループ回数は数値型です"))))
                    },
                    _ => self.for_next_move(body, 0, 0, mem, out),
                }
            },
            Phase::IfCond(body) => {
                match r {
                    ReturnValue::Error(e) => {
                        assert(lines_view(out@) =~= lines_view(old(out)@) + none);
                        (Phase::Idle, Request::Done(ReturnValue::Error(e)))
                    },
                    ReturnValue::Value(Type::Bool(true)) => {
                        log_print(&mode, text("条件が一致したので、実行します"), out);
                        (Phase::IfBody, Request::RunBlock(body))
                    },
                    _ => {
                        log_print(&mode, text("条件が一致しなかったので、実行しません"), out);
                        self.end_block();
                        (Phase::Idle, Request::Done(ReturnValue::Nothing))
                    },
                }
            },
            Phase::IfElseCond(b1, b2) => {
                match r {
                    ReturnValue::Error(e) => {
                        assert(lines_view(out@) =~= lines_view(old(out)@) + none);
                        (Phase::Idle, Request::Done(ReturnValue::Error(e)))
                    },
                    ReturnValue::Value(Type::Bool(true)) => {
                        log_print(&mode, text("条件が一致したので、実行します"), out);
                        (Phase::IfElseBody, Request::RunBlock(b1))
                    },
                    _ => {
                        log_print(&mode, text("条件が一致しなかったので、elseのコードを実行します"), out);
                        (Phase::IfElseBody, Request::RunBlock(b2))
                    },
                }
            },
            Phase::WhileCond(body) => {
                match r {
                    ReturnValue::Error(e) => {
                        assert(lines_view(out@) =~= lines_view(old(out)@) + none);
                        (Phase::Idle, Request::Done(ReturnValue::Error(e)))
                    },
                    ReturnValue::Value(Type::Bool(true)) => {
                        log_print(&mode, text("条件が一致したので、ループを継続します"), out);
                        if let ExecutionMode::Interactive = self.execution_mode {
                            self.execution_mode = ExecutionMode::Debug;
                        }
                        let b2 = body_copy(&body);
                        (Phase::WhileBody(body), Request::RunBlock(b2))
                    },
                    _ => {
                        self.stmt = Vec::new();
                        log_print(&mode, text("条件が一致しなかったので、ループを脱出します"), out);
                        self.control_mode = ControlMode::Normal;
                        assert(self@.stmt =~= Seq::<Seq<char>>::empty());
                        assert(self@ =~= block_over(old(self)@));
                        (Phase::Idle, Request::Done(ReturnValue::Nothing))
                    },
                }
            },
            _ => (Phase::Idle, Request::Fail),
        }
    }

    /// The move an expression's result makes.
    fn resume_evaluated(&mut self, phase: Phase, r: ReturnValue, shown: String, mem: &mut Memory, out: &mut Vec<Vec<Piece>>) -> (res: (Phase, Request))
        ensures
            follows(resume_spec(old(self)@, phase@, Told::Evaluated(r@, shown@), *old(mem)), final(self)@, res.0, res.1, *final(mem), old(out)@, final(out)@),
    {
        match phase {
            Phase::Assign(_) | Phase::IndexValue(_) | Phase::IndexIndex(..) => self.resume_assign(phase, r, shown, mem, out),
            Phase::DelList(..) | Phase::DelText(..) => self.resume_delete(phase, r, shown, mem, out),
            Phase::Return | Phase::Eval | Phase::ForCount(_) | Phase::IfCond(_) | Phase::IfElseCond(..) | Phase::WhileCond(_) => self.resume_control(phase, r, shown, mem, out),
            _ => {
                assert(lines_view(out@) =~= lines_view(old(out)@) + Seq::<Seq<PieceView>>::empty());
                (Phase::Idle, Request::Fail)
            },
        }
    }
}

/// A copy of a block's lines.
fn body_copy(b: &Vec<String>) -> (r: Vec<String>)
    ensures
        r@ == b@,
{
    crate::types::copy_texts(b)
}

impl Executor {
    /// The move a block's result makes.
    fn resume_ran(&mut self, phase: Phase, r: ReturnValue, mem: &mut Memory, out: &mut Vec<Vec<Piece>>) -> (res: (Phase, Request))
        ensures
            follows(resume_spec(old(self)@, phase@, Told::Ran(r@), *old(mem)), final(self)@, res.0, res.1, *final(mem), old(out)@, final(out)@),
    {
        let ghost none = Seq::<Seq<PieceView>>::empty();
        match phase {
            Phase::Import(saved) => {
                self.execution_mode = saved;
                assert(lines_view(out@) =~= lines_view(old(out)@) + none);
                (Phase::Idle, Request::Done(ReturnValue::Nothing))
            },
            Phase::ForBody(body, i, n) => {
                match r {
                    ReturnValue::Break => {
                        self.end_block();
                        assert(lines_view(out@) =~= lines_view(old(out)@) + none);
                        (Phase::Idle, Request::Done(ReturnValue::Nothing))
                    },
                    ReturnValue::Value(v) => {
                        assert(lines_view(out@) =~= lines_view(old(out)@) + none);
                        (Phase::Idle, Request::Done(ReturnValue::Value(v)))
                    },
                    ReturnValue::Error(e) => {
                        assert(lines_view(out@) =~= lines_view(old(out)@) + none);
                        (Phase::Idle, Request::Done(ReturnValue::Error(e)))
                    },
                    _ => self.for_next_move(body, i, n, mem, out),
                }
            },
            Phase::IfBody => {
                assert(lines_view(out@) =~= lines_view(old(out)@) + none);
                match r {
                    ReturnValue::Nothing => {
                        self.end_block();
                        (Phase::Idle, Request::Done(ReturnValue::Nothing))
                    },
                    _ => (Phase::Idle, Request::Done(r)),
                }
            },
            Phase::IfElseBody => {
                assert(lines_view(out@) =~= lines_view(old(out)@) + none);
                match r {
                    ReturnValue::Nothing => {
                        self.end_both();
                        (Phase::Idle, Request::Done(ReturnValue::Nothing))
                    },
                    _ => (Phase::Idle, Request::Done(r)),
                }
            },
            Phase::WhileBody(body) => {
                match r {
                    ReturnValue::Break => {
                        self.control_mode = ControlMode::Normal;
                        assert(lines_view(out@) =~= lines_view(old(out)@) + none);
                        (Phase::Idle, Request::Done(ReturnValue::Nothing))
                    },
                    ReturnValue::Value(v) => {
                        assert(lines_view(out@) =~= lines_view(old(out)@) + none);
                        (Phase::Idle, Request::Done(ReturnValue::Value(v)))
                    },
                    ReturnValue::Error(e) => {
                        assert(lines_view(out@) =~= lines_view(old(out)@) + none);
                        (Phase::Idle, Request::Done(ReturnValue::Error(e)))
                    },
                    _ => {
                        log_print(&self.execution_mode, text("whileの条件式を評価します"), out);
                        (Phase::WhileCond(body), Request::Evaluate(self.expr.clone()))
                    },
                }
            },
            Phase::TryBody(c) => {
                match r {
                    ReturnValue::Error(_) => {
                        log_print(&self.execution_mode, text("エラーが発生したので、Catchのコードを実行します"), out);
                        (Phase::Catch, Request::RunBlock(c))
                    },
                    ReturnValue::Nothing => {
                        log_print(&self.execution_mode, text("正常に実行されました"), out);
                        self.end_both();
                        (Phase::Idle, Request::Done(ReturnValue::Nothing))
                    },
                    _ => {
                        assert(lines_view(out@) =~= lines_view(old(out)@) + none);
                        (Phase::Idle, Request::Done(r))
                    },
                }
            },
            Phase::Catch => {
                assert(lines_view(out@) =~= lines_view(old(out)@) + none);
                match r {
                    ReturnValue::Nothing => {
                        self.end_both();
                        (Phase::Idle, Request::Done(ReturnValue::Nothing))
                    },
                    _ => (Phase::Idle, Request::Done(r)),
                }
            },
            _ => {
                assert(lines_view(out@) =~= lines_view(old(out)@) + none);
                (Phase::Idle, Request::Fail)
            },
        }
    }

    /// The move an answer makes (see `resume_spec`): the statement goes on
    /// from its phase with what the host did. An answer of the wrong kind
    /// for the phase stops it.
    pub fn resume(&mut self, phase: Phase, event: Event, mem: &mut Memory, out: &mut Vec<Vec<Piece>>) -> (res: (Phase, Request))
        ensures
            follows(resume_spec(old(self)@, phase@, event@, *old(mem)), final(self)@, res.0, res.1, *final(mem), old(out)@, final(out)@),
    {
        let ghost none = Seq::<Seq<PieceView>>::empty();
        match event {
            Event::Evaluated(r, shown) => self.resume_evaluated(phase, r, shown, mem, out),
            Event::Ran(r) => self.resume_ran(phase, r, mem, out),
            Event::Loaded(m) => {
                assert(lines_view(out@) =~= lines_view(old(out)@) + none);
                match phase {
                    Phase::Load => {
                        let saved = self.execution_mode.copy();
                        self.execution_mode = if saved.is_script() { ExecutionMode::Script } else { ExecutionMode::Debug };
                        let lines = split_text(m.as_str(), '\n');
                        assert(texts_of(lines@) =~= split(m@, '\n'));
                        (Phase::Import(saved), Request::RunHere(lines))
                    },
                    _ => (Phase::Idle, Request::Fail),
                }
            },
            Event::LoadFailed(x) => {
                assert(lines_view(out@) =~= lines_view(old(out)@) + none);
                match phase {
                    Phase::Load => {
                        let mut e = text("エラー! ");
                        e.append(x.as_str());
                        (Phase::Idle, Request::Done(ReturnValue::Error(e)))
                    },
                    _ => (Phase::Idle, Request::Fail),
                }
            },
            Event::Rendered(t) => {
                match phase {
                    Phase::IndexText(name, shown, v, a, index) => {
                        let mode = self.execution_mode.copy();
                        let req = Self::set_element(name, shown, v, a, index, &t, mem, &mode, out);
                        proof {
                            if req is Fail {
                                assert(lines_view(out@) =~= lines_view(old(out)@) + none);
                            }
                        }
                        (Phase::Idle, req)
                    },
                    _ => {
                        assert(lines_view(out@) =~= lines_view(old(out)@) + none);
                        (Phase::Idle, Request::Fail)
                    },
                }
            },
            Event::Shown => {
                assert(lines_view(out@) =~= lines_view(old(out)@) + none);
                match phase {
                    Phase::Show => (Phase::Idle, Request::Done(ReturnValue::Nothing)),
                    _ => (Phase::Idle, Request::Fail),
                }
            },
        }
    }
}

} // verus!
