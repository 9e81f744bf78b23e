//! Statements. An executor collects the lines of a block (`for`, `if`,
//! `while`, `func`, `try`) until the block ends, and then runs it; in
//! `Normal` mode it runs each statement as it comes.
//!
//! Evaluating expressions, running nested blocks and reading modules are
//! work that the host does when a statement asks for it (`Request`); the
//! statement goes on when it is told the outcome (`Event`).
use vstd::prelude::*;
use crate::text::{
    contains, contains_text, join, join_from, remove_all, remove_all_text, remove_first,
    remove_first_text, split, split_text, trim, trim_text, lemma_split_nonempty,
};
use crate::types::{
    copy_texts, lines_view, log_print, logs, text, texts_of, vars_view, funcs_view,
    ControlMode, ExecutionMode, Function, FunctionView, Piece, PieceView, ReturnValue, Returned,
    Type, Val,
};
use crate::memory::{Memory, set_var_spec, set_var_logs, var_names};
use crate::compute::{tokenize, tokens};

verus! {

/// An executor: the block it is collecting and how it runs.
pub struct Executor {
    pub stmt: Vec<String>,
    pub else_stmt: Vec<String>,
    pub data: String,
    pub expr: String,
    pub execution_mode: ExecutionMode,
    pub control_mode: ControlMode,
    pub nest_if: usize,
    pub nest_try: usize,
    pub nest_for: usize,
    pub nest_while: usize,
    pub nest_func: usize,
}

/// The content of an executor.
pub struct ExecView {
    pub stmt: Seq<Seq<char>>,
    pub else_stmt: Seq<Seq<char>>,
    pub data: Seq<char>,
    pub expr: Seq<char>,
    pub execution_mode: ExecutionMode,
    pub control_mode: ControlMode,
    pub nest_if: nat,
    pub nest_try: nat,
    pub nest_for: nat,
    pub nest_while: nat,
    pub nest_func: nat,
}

impl View for Executor {
    type V = ExecView;

    open spec fn view(&self) -> ExecView {
        ExecView {
            stmt: texts_of(self.stmt@),
            else_stmt: texts_of(self.else_stmt@),
            data: self.data@,
            expr: self.expr@,
            execution_mode: self.execution_mode,
            control_mode: self.control_mode,
            nest_if: self.nest_if as nat,
            nest_try: self.nest_try as nat,
            nest_for: self.nest_for as nat,
            nest_while: self.nest_while as nat,
            nest_func: self.nest_func as nat,
        }
    }
}

/// A function definition's line holds the parenthesis that starts its
/// parameters, as the `func` statement checks.
pub open spec fn definition_ok(data: Seq<char>) -> bool {
    split(remove_all(data, ')'), '(').len() >= 2
}

/// What a block that has ended asks to run.
pub enum Collected {
    /// Still collecting, or the block changed mode.
    Nothing,
    /// `for`: the count expression and the body.
    For(Seq<char>, Seq<Seq<char>>),
    /// `if` without `else`: the condition and the body.
    If(Seq<char>, Seq<Seq<char>>),
    /// `if` with `else`: the condition and both bodies.
    IfElse(Seq<char>, Seq<Seq<char>>, Seq<Seq<char>>),
    /// `while`: the condition and the body.
    While(Seq<char>, Seq<Seq<char>>),
    /// `func`: the definition line and the body.
    Define(Seq<char>, Seq<Seq<char>>),
    /// `try`: the body and the `catch` body.
    Try(Seq<Seq<char>>, Seq<Seq<char>>),
}

/// What a block that has ended asks to run, as values.
pub enum Block {
    Nothing,
    For(String, Vec<String>),
    If(String, Vec<String>),
    IfElse(String, Vec<String>, Vec<String>),
    While(String, Vec<String>),
    Defined(String, Vec<String>),
    Try(Vec<String>, Vec<String>),
}

impl View for Block {
    type V = Collected;

    open spec fn view(&self) -> Collected {
        match self {
            Block::Nothing => Collected::Nothing,
            Block::For(e, b) => Collected::For(e@, texts_of(b@)),
            Block::If(e, b) => Collected::If(e@, texts_of(b@)),
            Block::IfElse(e, b, o) => Collected::IfElse(e@, texts_of(b@), texts_of(o@)),
            Block::While(e, b) => Collected::While(e@, texts_of(b@)),
            Block::Defined(d, b) => Collected::Define(d@, texts_of(b@)),
            Block::Try(b, c) => Collected::Try(texts_of(b@), texts_of(c@)),
        }
    }
}

/// The line closes a `for` block.
pub open spec fn ends_for(c: Seq<char>) -> bool {
    contains(c, "end for"@) || contains(c, "endfor"@)
}

/// The line closes an `if` block.
pub open spec fn ends_if(c: Seq<char>) -> bool {
    contains(c, "end if"@) || contains(c, "endif"@)
}

/// The line closes a `while` block.
pub open spec fn ends_while(c: Seq<char>) -> bool {
    contains(c, "end while"@) || contains(c, "endwhile"@)
}

/// The line closes a `func` block.
pub open spec fn ends_func(c: Seq<char>) -> bool {
    contains(c, "end func"@) || contains(c, "endfunc"@)
}

/// The line closes a `try` block.
pub open spec fn ends_try(c: Seq<char>) -> bool {
    contains(c, "end try"@) || contains(c, "endtry"@)
}

/// One line in a block mode: the executor after it, what the block asks
/// to run, and what is printed.
pub open spec fn collect(e: ExecView, c: Seq<char>) -> (ExecView, Collected, Seq<Seq<char>>) {
    match e.control_mode {
        ControlMode::For => if ends_for(c) {
            if e.nest_for > 0 {
                (ExecView { nest_for: (e.nest_for - 1) as nat, stmt: e.stmt.push(c), ..e }, Collected::Nothing, seq![])
            } else {
                (e, Collected::For(e.expr, e.stmt), seq!["ループ回数を求めます"@])
            }
        } else if contains(c, "for"@) {
            (ExecView { nest_for: e.nest_for + 1, stmt: e.stmt.push(c), ..e }, Collected::Nothing, seq![])
        } else {
            (ExecView { stmt: e.stmt.push(c), ..e }, Collected::Nothing, seq![])
        },
        ControlMode::If => if contains(c, "else"@) {
            (ExecView { control_mode: ControlMode::Else, ..e }, Collected::Nothing, seq![])
        } else if ends_if(c) {
            if e.nest_if > 0 {
                (ExecView { nest_if: (e.nest_if - 1) as nat, stmt: e.stmt.push(c), ..e }, Collected::Nothing, seq![])
            } else {
                (e, Collected::If(e.expr, e.stmt), seq!["ifの条件式を評価します"@])
            }
        } else if contains(c, "if"@) {
            (ExecView { nest_if: e.nest_if + 1, stmt: e.stmt.push(c), ..e }, Collected::Nothing, seq![])
        } else {
            (ExecView { stmt: e.stmt.push(c), ..e }, Collected::Nothing, seq![])
        },
        ControlMode::Else => if ends_if(c) {
            if e.nest_if > 0 {
                (ExecView { nest_if: (e.nest_if - 1) as nat, else_stmt: e.else_stmt.push(c), ..e }, Collected::Nothing, seq![])
            } else {
                (e, Collected::IfElse(e.expr, e.stmt, e.else_stmt), seq!["ifの条件式を評価します"@])
            }
        } else if contains(c, "if"@) {
            (ExecView { nest_if: e.nest_if + 1, else_stmt: e.else_stmt.push(c), ..e }, Collected::Nothing, seq![])
        } else {
            (ExecView { else_stmt: e.else_stmt.push(c), ..e }, Collected::Nothing, seq![])
        },
        ControlMode::While => if ends_while(c) {
            if e.nest_while > 0 {
                (ExecView { nest_while: (e.nest_while - 1) as nat, stmt: e.stmt.push(c), ..e }, Collected::Nothing, seq![])
            } else {
                (e, Collected::While(e.expr, e.stmt), seq![])
            }
        } else if contains(c, "while"@) {
            (ExecView { nest_while: e.nest_while + 1, stmt: e.stmt.push(c), ..e }, Collected::Nothing, seq![])
        } else {
            (ExecView { stmt: e.stmt.push(c), ..e }, Collected::Nothing, seq![])
        },
        ControlMode::Function => if ends_func(c) {
            if e.nest_func > 0 {
                (ExecView { nest_func: (e.nest_func - 1) as nat, stmt: e.stmt.push(c), ..e }, Collected::Nothing, seq![])
            } else {
                (ExecView { stmt: Seq::empty(), control_mode: ControlMode::Normal, ..e }, Collected::Define(e.data, e.stmt), seq![])
            }
        } else if contains(c, "func"@) {
            (ExecView { nest_func: e.nest_func + 1, stmt: e.stmt.push(c), ..e }, Collected::Nothing, seq![])
        } else {
            (ExecView { stmt: e.stmt.push(c), ..e }, Collected::Nothing, seq![])
        },
        ControlMode::Try => if contains(c, "catch"@) {
            if e.nest_try > 0 {
                (ExecView { nest_try: (e.nest_try - 1) as nat, stmt: e.stmt.push(c), ..e }, Collected::Nothing, seq![])
            } else {
                (ExecView { control_mode: ControlMode::Catch, ..e }, Collected::Nothing, seq![])
            }
        } else if contains(c, "try"@) {
            (ExecView { nest_try: e.nest_try + 1, stmt: e.stmt.push(c), ..e }, Collected::Nothing, seq![])
        } else {
            (ExecView { stmt: e.stmt.push(c), ..e }, Collected::Nothing, seq![])
        },
        ControlMode::Catch => if ends_try(c) {
            if e.nest_try > 0 {
                (ExecView { nest_try: (e.nest_try - 1) as nat, stmt: e.stmt.push(c), ..e }, Collected::Nothing, seq![])
            } else {
                (e, Collected::Try(e.stmt, e.else_stmt), seq!["エラーが起きそうなTryのコードを実行します"@])
            }
        } else if contains(c, "try"@) {
            (ExecView { nest_try: e.nest_try + 1, else_stmt: e.else_stmt.push(c), ..e }, Collected::Nothing, seq![])
        } else {
            (ExecView { else_stmt: e.else_stmt.push(c), ..e }, Collected::Nothing, seq![])
        },
        ControlMode::Normal => (e, Collected::Nothing, seq![]),
    }
}

/// The counters cannot pass `usize::MAX`: a line can only deepen a
/// nesting that is below it.
pub open spec fn counters_ok(e: ExecView) -> bool {
    e.nest_if < usize::MAX && e.nest_try < usize::MAX && e.nest_for < usize::MAX
        && e.nest_while < usize::MAX && e.nest_func < usize::MAX
}

/// The name of a function from its definition line.
pub open spec fn definition_name(data: Seq<char>) -> Seq<char> {
    trim(split(remove_first(data, "func"@), '(')[0])
}

/// The parameter names of a function from its definition line.
pub open spec fn definition_args(data: Seq<char>) -> Seq<Seq<char>> {
    tokens(split(remove_all(data, ')'), '(')[1], true)
}

impl Executor {
    /// A new executor in `Normal` mode with nothing collected.
    pub fn new(mode: ExecutionMode) -> (r: Executor)
        ensures
            r@.stmt.len() == 0,
            r@.else_stmt.len() == 0,
            r@.data.len() == 0,
            r@.expr.len() == 0,
            r.execution_mode == mode,
            r.control_mode == ControlMode::Normal,
            r.nest_if == 0 && r.nest_try == 0 && r.nest_for == 0 && r.nest_while == 0 && r.nest_func == 0,
    {
        let r = Executor {
            stmt: Vec::new(),
            else_stmt: Vec::new(),
            data: String::new(),
            expr: String::new(),
            execution_mode: mode,
            control_mode: ControlMode::Normal,
            nest_if: 0,
            nest_try: 0,
            nest_for: 0,
            nest_while: 0,
            nest_func: 0,
        };
        assert(r@.stmt =~= Seq::<Seq<char>>::empty());
        assert(r@.else_stmt =~= Seq::<Seq<char>>::empty());
        r
    }

    /// The function that a `func` block defines.
    pub fn definition(data: &String, code: Vec<String>) -> (r: Function)
        requires
            definition_ok(data@),
        ensures
            r@ == (FunctionView { name: definition_name(data@), args: definition_args(data@), code: texts_of(code@) }),
    {
        let a = remove_all_text(data.as_str(), ')');
        let parts = split_text(a.as_str(), '(');
        let args = tokenize(parts[1].as_str(), true);
        assert(texts_of(args@) =~= definition_args(data@));
        let b = remove_first_text(data.as_str(), "func");
        let parts2 = split_text(b.as_str(), '(');
        proof {
            lemma_split_nonempty(remove_first(data@, "func"@), '(');
        }
        let name = trim_text(parts2[0].as_str());
        Function { name, args, code }
    }

    fn push_stmt(&mut self, c: String)
        ensures
            final(self)@ == (ExecView { stmt: old(self)@.stmt.push(c@), ..old(self)@ }),
    {
        self.stmt.push(c);
        assert(self@.stmt =~= old(self)@.stmt.push(c@));
        assert(self@ =~= (ExecView { stmt: old(self)@.stmt.push(c@), ..old(self)@ }));
    }

    fn push_else(&mut self, c: String)
        ensures
            final(self)@ == (ExecView { else_stmt: old(self)@.else_stmt.push(c@), ..old(self)@ }),
    {
        self.else_stmt.push(c);
        assert(self@.else_stmt =~= old(self)@.else_stmt.push(c@));
        assert(self@ =~= (ExecView { else_stmt: old(self)@.else_stmt.push(c@), ..old(self)@ }));
    }

    /// One line in a block mode (see `collect`). A `func` block that ends is
    /// declared at once.
    pub fn collect_line(&mut self, code: &str, mem: &mut Memory, out: &mut Vec<Vec<Piece>>) -> (r: Block)
        requires
            !(old(self).control_mode is Normal),
            counters_ok(old(self)@),
            old(self).control_mode is Function ==> definition_ok(old(self)@.data),
        ensures
            final(self)@ == collect(old(self)@, code@).0,
            r@ == collect(old(self)@, code@).1,
            r is Defined ==> {
                let f = FunctionView { name: definition_name(old(self)@.data), args: definition_args(old(self)@.data), code: old(self)@.stmt };
                &&& funcs_view(final(mem).name_space@) == funcs_view(old(mem).name_space@).push(f)
                &&& vars_view(final(mem).memory@) == set_var_spec(vars_view(old(mem).memory@), var_names(old(mem).memory@), f.name, Val::Function(old(mem).name_space@.len() as usize))
                &&& lines_view(final(out)@) == lines_view(old(out)@) + logs(old(self).execution_mode, seq!["メモリに関数を保存しました"@] + set_var_logs(var_names(old(mem).memory@), f.name))
            },
            !(r is Defined) ==> *final(mem) == *old(mem) && lines_view(final(out)@) == lines_view(old(out)@) + logs(old(self).execution_mode, collect(old(self)@, code@).2),
    {
        let c = String::from_str(code);
        let mode = self.execution_mode.copy();
        match self.control_mode {
            ControlMode::For => {
                if contains_text(code, "end for") || contains_text(code, "endfor") {
                    if self.nest_for > 0 {
                        self.nest_for = self.nest_for - 1;
                        self.push_stmt(c);
                        Block::Nothing
                    } else {
                        log_print(&mode, text("ループ回数を求めます"), out);
                        Block::For(self.expr.clone(), copy_texts(&self.stmt))
                    }
                } else if contains_text(code, "for") {
                    self.nest_for = self.nest_for + 1;
                    self.push_stmt(c);
                    Block::Nothing
                } else {
                    self.push_stmt(c);
                    Block::Nothing
                }
            },
            ControlMode::If => {
                if contains_text(code, "else") {
                    self.control_mode = ControlMode::Else;
                    Block::Nothing
                } else if contains_text(code, "end if") || contains_text(code, "endif") {
                    if self.nest_if > 0 {
                        self.nest_if = self.nest_if - 1;
                        self.push_stmt(c);
                        Block::Nothing
                    } else {
                        log_print(&mode, text("ifの条件式を評価します"), out);
                        Block::If(self.expr.clone(), copy_texts(&self.stmt))
                    }
                } else if contains_text(code, "if") {
                    self.nest_if = self.nest_if + 1;
                    self.push_stmt(c);
                    Block::Nothing
                } else {
                    self.push_stmt(c);
                    Block::Nothing
                }
            },
            ControlMode::Else => {
                if contains_text(code, "end if") || contains_text(code, "endif") {
                    if self.nest_if > 0 {
                        self.nest_if = self.nest_if - 1;
                        self.push_else(c);
                        Block::Nothing
                    } else {
                        log_print(&mode, text("ifの条件式を評価します"), out);
                        Block::IfElse(self.expr.clone(), copy_texts(&self.stmt), copy_texts(&self.else_stmt))
                    }
                } else if contains_text(code, "if") {
                    self.nest_if = self.nest_if + 1;
                    self.push_else(c);
                    Block::Nothing
                } else {
                    self.push_else(c);
                    Block::Nothing
                }
            },
            ControlMode::While => {
                if contains_text(code, "end while") || contains_text(code, "endwhile") {
                    if self.nest_while > 0 {
                        self.nest_while = self.nest_while - 1;
                        self.push_stmt(c);
                        Block::Nothing
                    } else {
                        Block::While(self.expr.clone(), copy_texts(&self.stmt))
                    }
                } else if contains_text(code, "while") {
                    self.nest_while = self.nest_while + 1;
                    self.push_stmt(c);
                    Block::Nothing
                } else {
                    self.push_stmt(c);
                    Block::Nothing
                }
            },
            ControlMode::Function => {
                if contains_text(code, "end func") || contains_text(code, "endfunc") {
                    if self.nest_func > 0 {
                        self.nest_func = self.nest_func - 1;
                        self.push_stmt(c);
                        Block::Nothing
                    } else {
                        let body = copy_texts(&self.stmt);
                        let f = Self::definition(&self.data, copy_texts(&self.stmt));
                        mem.declaration_function(f, &mode, out);
                        self.stmt = Vec::new();
                        self.control_mode = ControlMode::Normal;
                        assert(self@.stmt =~= Seq::<Seq<char>>::empty());
                        assert(self@ =~= collect(old(self)@, code@).0);
                        Block::Defined(self.data.clone(), body)
                    }
                } else if contains_text(code, "func") {
                    self.nest_func = self.nest_func + 1;
                    self.push_stmt(c);
                    Block::Nothing
                } else {
                    self.push_stmt(c);
                    Block::Nothing
                }
            },
            ControlMode::Try => {
                if contains_text(code, "catch") {
                    if self.nest_try > 0 {
                        self.nest_try = self.nest_try - 1;
                        self.push_stmt(c);
                        Block::Nothing
                    } else {
                        self.control_mode = ControlMode::Catch;
                        Block::Nothing
                    }
                } else if contains_text(code, "try") {
                    self.nest_try = self.nest_try + 1;
                    self.push_stmt(c);
                    Block::Nothing
                } else {
                    self.push_stmt(c);
                    Block::Nothing
                }
            },
            ControlMode::Catch => {
                if contains_text(code, "end try") || contains_text(code, "endtry") {
                    if self.nest_try > 0 {
                        self.nest_try = self.nest_try - 1;
                        self.push_stmt(c);
                        Block::Nothing
                    } else {
                        log_print(&mode, text("エラーが起きそうなTryのコードを実行します"), out);
                        Block::Try(copy_texts(&self.stmt), copy_texts(&self.else_stmt))
                    }
                } else if contains_text(code, "try") {
                    self.nest_try = self.nest_try + 1;
                    self.push_else(c);
                    Block::Nothing
                } else {
                    self.push_else(c);
                    Block::Nothing
                }
            },
            ControlMode::Normal => Block::Nothing,
        }
    }
}

impl Executor {
    /// A copy of the executor.
    pub fn copy(&self) -> (r: Executor)
        ensures
            r@ == self@,
    {
        Executor {
            stmt: copy_texts(&self.stmt),
            else_stmt: copy_texts(&self.else_stmt),
            data: self.data.clone(),
            expr: self.expr.clone(),
            execution_mode: self.execution_mode.copy(),
            control_mode: self.control_mode.copy(),
            nest_if: self.nest_if,
            nest_try: self.nest_try,
            nest_for: self.nest_for,
            nest_while: self.nest_while,
            nest_func: self.nest_func,
        }
    }
}

} // verus!
