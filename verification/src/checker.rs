//! The syntax check (`check`): reads a program line by line without
//! running it, reports lines that are malformed and blocks that never
//! end, and checks each block's body as a program of its own.
//!
//! The check of a body is nested in the check of the program around it;
//! here each check in progress is a frame of a stack, and an imported
//! module is a frame that goes on with the executor of the one that
//! imported it.
use vstd::prelude::*;
use crate::text::{contains, contains_text, remove_first, remove_first_text, split, split_text, trim, trim_text, lemma_split_nonempty};
use crate::types::{
    copy_texts, lines_view, log_print, logs, text, text_line, text_piece_line, texts_of,
    ControlMode, ExecutionMode, Piece, PieceView,
};
use crate::executor::{counters_ok, ends_for, ends_func, ends_if, ends_try, ends_while, ExecView, Executor};
use crate::machine::message;

verus! {

/// A check in progress: the executor whose modes it follows, its lines, the
/// next line, and whether it checks a module for the frame below it.
pub struct CheckFrame {
    pub executor: Executor,
    pub lines: Vec<String>,
    pub next: usize,
    pub import: bool,
}

/// The content of a frame.
pub struct FrameView {
    pub state: ExecView,
    pub lines: Seq<Seq<char>>,
    pub next: nat,
    pub import: bool,
}

/// The content of a frame.
pub open spec fn frame_view(f: CheckFrame) -> FrameView {
    FrameView { state: f.executor@, lines: texts_of(f.lines@), next: f.next as nat, import: f.import }
}

/// The contents of the frames, bottom first.
pub open spec fn frames_view(fs: Seq<CheckFrame>) -> Seq<FrameView> {
    fs.map_values(|f: CheckFrame| frame_view(f))
}

/// A syntax check: a stack of checks in progress.
pub struct Checker {
    pub frames: Vec<CheckFrame>,
}

/// What the check asks of the host.
pub enum CheckRequest {
    /// Go on.
    Continue,
    /// Read the module of this name and answer with `loaded`.
    Load(String),
    /// The check is over.
    Done,
}

/// The content of a check request.
pub enum CheckAsked {
    Continue,
    Load(Seq<char>),
    Done,
}

impl View for CheckRequest {
    type V = CheckAsked;

    open spec fn view(&self) -> CheckAsked {
        match self {
            CheckRequest::Continue => CheckAsked::Continue,
            CheckRequest::Load(n) => CheckAsked::Load(n@),
            CheckRequest::Done => CheckAsked::Done,
        }
    }
}

/// An executor in `Normal` mode with nothing collected.
pub open spec fn fresh(mode: ExecutionMode) -> ExecView {
    ExecView {
        stmt: Seq::empty(),
        else_stmt: Seq::empty(),
        data: Seq::empty(),
        expr: Seq::empty(),
        execution_mode: mode,
        control_mode: ControlMode::Normal,
        nest_if: 0,
        nest_try: 0,
        nest_for: 0,
        nest_while: 0,
        nest_func: 0,
    }
}

/// The code of a line as the check reads it: the whole line while a
/// function is collected, else the part before the first `#` of the
/// trimmed line.
pub open spec fn check_code(l: Seq<char>, function: bool) -> Seq<char> {
    if function {
        l
    } else {
        split(trim(l), '#')[0]
    }
}

/// The error for a line without the parentheses of a function.
pub open spec fn paren_error() -> Seq<char> {
    "エラー! 関数にはカッコをつけてください"@
}

/// One line of `Normal` mode: the executor after it, the module it
/// imports if any, and what it prints.
pub open spec fn check_statement(e: ExecView, code: Seq<char>) -> (ExecView, Option<Seq<char>>, Seq<Seq<PieceView>>) {
    let none = Seq::<Seq<PieceView>>::empty();
    let parens = contains(code, "("@) && contains(code, ")"@);
    if contains(code, "var"@) {
        (e, None, if contains(remove_first(code, "var"@), "="@) { none } else { seq![text_line("エラー! 変数名と式の間にイコールをいれてください"@)] })
    } else if contains(code, "func"@) {
        (ExecView { control_mode: ControlMode::Function, ..e }, None, if parens { none } else { seq![text_line(paren_error())] })
    } else if contains(code, "call"@) {
        (e, None, if parens { none } else { seq![text_line(paren_error())] })
    } else if contains(code, "for"@) {
        (ExecView { control_mode: ControlMode::For, ..e }, None, none)
    } else if contains(code, "import"@) {
        let name = remove_first(code, "import"@);
        (e, Some(name), logs(e.execution_mode, seq!["モジュール"@ + name + "を読み込みます"@]))
    } else if contains(code, "if"@) {
        (ExecView { control_mode: ControlMode::If, ..e }, None, none)
    } else if contains(code, "while"@) {
        (ExecView { control_mode: ControlMode::While, ..e }, None, none)
    } else {
        (e, None, logs(e.execution_mode, seq!["エラー! コマンドが不正です: "@ + code]))
    }
}

/// One line of a block mode: the executor after it, and the bodies to
/// check, in order, when the block ends.
pub open spec fn check_collect(e: ExecView, c: Seq<char>) -> (ExecView, Seq<Seq<Seq<char>>>) {
    let done = Seq::<Seq<Seq<char>>>::empty();
    match e.control_mode {
        ControlMode::For => if ends_for(c) {
            if e.nest_for > 0 {
                (ExecView { nest_for: (e.nest_for - 1) as nat, stmt: e.stmt.push(c), ..e }, done)
            } else {
                (ExecView { control_mode: ControlMode::Normal, stmt: Seq::empty(), ..e }, seq![e.stmt])
            }
        } else if contains(c, "for"@) {
            (ExecView { nest_for: e.nest_for + 1, stmt: e.stmt.push(c), ..e }, done)
        } else {
            (ExecView { stmt: e.stmt.push(c), ..e }, done)
        },
        ControlMode::If => if contains(c, "else"@) {
            (ExecView { control_mode: ControlMode::Else, ..e }, done)
        } else if ends_if(c) {
            if e.nest_if > 0 {
                (ExecView { nest_if: (e.nest_if - 1) as nat, stmt: e.stmt.push(c), ..e }, done)
            } else {
                (ExecView { control_mode: ControlMode::Normal, stmt: Seq::empty(), ..e }, seq![e.stmt])
            }
        } else if contains(c, "if"@) {
            (ExecView { nest_if: e.nest_if + 1, stmt: e.stmt.push(c), ..e }, done)
        } else {
            (ExecView { stmt: e.stmt.push(c), ..e }, done)
        },
        ControlMode::Else => if ends_if(c) {
            if e.nest_if > 0 {
                (ExecView { nest_if: (e.nest_if - 1) as nat, else_stmt: e.else_stmt.push(c), ..e }, done)
            } else {
                (ExecView { control_mode: ControlMode::Normal, stmt: Seq::empty(), else_stmt: Seq::empty(), ..e }, seq![e.else_stmt])
            }
        } else if contains(c, "if"@) {
            (ExecView { nest_if: e.nest_if + 1, else_stmt: e.else_stmt.push(c), ..e }, done)
        } else {
            (ExecView { else_stmt: e.else_stmt.push(c), ..e }, done)
        },
        ControlMode::While => if ends_while(c) {
            if e.nest_while > 0 {
                (ExecView { nest_while: (e.nest_while - 1) as nat, stmt: e.stmt.push(c), ..e }, done)
            } else {
                (ExecView { control_mode: ControlMode::Normal, ..e }, seq![e.stmt])
            }
        } else if contains(c, "while"@) {
            (ExecView { nest_while: e.nest_while + 1, stmt: e.stmt.push(c), ..e }, done)
        } else {
            (ExecView { stmt: e.stmt.push(c), ..e }, done)
        },
        ControlMode::Function => if ends_func(c) {
            if e.nest_func > 0 {
                (ExecView { nest_func: (e.nest_func - 1) as nat, stmt: e.stmt.push(c), ..e }, done)
            } else {
                (ExecView { control_mode: ControlMode::Normal, stmt: Seq::empty(), ..e }, seq![e.stmt])
            }
        } else if contains(c, "func"@) {
            (ExecView { nest_func: e.nest_func + 1, stmt: e.stmt.push(c), ..e }, done)
        } else {
            (ExecView { stmt: e.stmt.push(c), ..e }, done)
        },
        ControlMode::Try => if contains(c, "catch"@) {
            if e.nest_try > 0 {
                (ExecView { nest_try: (e.nest_try - 1) as nat, stmt: e.stmt.push(c), ..e }, done)
            } else {
                (ExecView { control_mode: ControlMode::Catch, ..e }, done)
            }
        } else if contains(c, "try"@) {
            (ExecView { nest_try: e.nest_try + 1, stmt: e.stmt.push(c), ..e }, done)
        } else {
            (ExecView { stmt: e.stmt.push(c), ..e }, done)
        },
        ControlMode::Catch => if ends_try(c) {
            if e.nest_try > 0 {
                (ExecView { nest_try: (e.nest_try - 1) as nat, stmt: e.stmt.push(c), ..e }, done)
            } else {
                (ExecView { control_mode: ControlMode::Normal, stmt: Seq::empty(), ..e }, seq![e.stmt, e.else_stmt])
            }
        } else if contains(c, "try"@) {
            (ExecView { nest_try: e.nest_try + 1, else_stmt: e.else_stmt.push(c), ..e }, done)
        } else {
            (ExecView { else_stmt: e.else_stmt.push(c), ..e }, done)
        },
        ControlMode::Normal => (e, done),
    }
}

/// What the end of a check prints for a block left open.
pub open spec fn end_message(c: ControlMode) -> Seq<Seq<PieceView>> {
    match c {
        ControlMode::Function => seq![text_line("エラー! 関数の終わりが見つかりません"@)],
        ControlMode::If | ControlMode::Else => seq![text_line("エラー! if文の終わりが見つかりません"@)],
        ControlMode::Try | ControlMode::Catch => seq![text_line("エラー! try文の終わりが見つかりません"@)],
        ControlMode::For => seq![text_line("エラー! for文の終わりが見つかりません"@)],
        ControlMode::While => seq![text_line("エラー! while文の終わりが見つかりません"@)],
        ControlMode::Normal => Seq::empty(),
    }
}

/// The frames that check bodies, in order, for an executor in `mode`:
/// the first to check is last, on top.
pub open spec fn child_frames(bodies: Seq<Seq<Seq<char>>>, mode: ExecutionMode) -> Seq<FrameView> {
    Seq::new(bodies.len(), |k: int| FrameView { state: fresh(mode), lines: bodies[bodies.len() - 1 - k], next: 0, import: false })
}

/// The check can take a step: the executor on top can count one more
/// nesting level.
pub open spec fn check_ready(fs: Seq<FrameView>) -> bool {
    fs.len() > 0 ==> counters_ok(fs.last().state)
}

/// One step of the check: the top frame ends, or reads a line.
pub open spec fn check_step(fs: Seq<FrameView>) -> (Seq<FrameView>, CheckAsked, Seq<Seq<PieceView>>) {
    if fs.len() == 0 {
        (fs, CheckAsked::Done, Seq::empty())
    } else {
        let top = fs.last();
        let rest = fs.drop_last();
        if top.next >= top.lines.len() {
            let below = if top.import && rest.len() > 0 {
                rest.update(rest.len() - 1, FrameView { state: top.state, ..rest.last() })
            } else {
                rest
            };
            (below, CheckAsked::Continue, end_message(top.state.control_mode))
        } else {
            let code = check_code(top.lines[top.next as int], top.state.control_mode is Function);
            let moved = FrameView { next: top.next + 1, ..top };
            if code.len() == 0 {
                (rest.push(moved), CheckAsked::Continue, Seq::empty())
            } else if top.state.control_mode is Normal {
                let s = check_statement(top.state, code);
                (
                    rest.push(FrameView { state: s.0, ..moved }),
                    match s.1 {
                        Some(n) => CheckAsked::Load(n),
                        None => CheckAsked::Continue,
                    },
                    s.2,
                )
            } else {
                let c = check_collect(top.state, code);
                (rest.push(FrameView { state: c.0, ..moved }) + child_frames(c.1, top.state.execution_mode), CheckAsked::Continue, Seq::empty())
            }
        }
    }
}

/// The module's text, or why it could not be read: it is checked, with
/// the executor of the frame that imported it (nothing, when it could not
/// be read, after the reason is shown).
pub open spec fn check_loaded(fs: Seq<FrameView>, module: Result<Seq<char>, Seq<char>>) -> (Seq<FrameView>, Seq<Seq<PieceView>>) {
    let text = match module {
        Ok(m) => m,
        Err(_) => Seq::empty(),
    };
    let shown = match module {
        Ok(_) => Seq::empty(),
        Err(e) => seq![text_line("エラー! "@ + e)],
    };
    if fs.len() == 0 {
        (fs, shown)
    } else {
        (fs.push(FrameView { state: fs.last().state, lines: split(text, '\n'), next: 0, import: true }), shown)
    }
}

impl Executor {
    /// One line of `Normal` mode in the check (see `check_statement`).
    fn check_statement_move(&mut self, code: &str, out: &mut Vec<Vec<Piece>>) -> (r: Option<String>)
        ensures
            final(self)@ == check_statement(old(self)@, code@).0,
            r is None ==> check_statement(old(self)@, code@).1 is None,
            r matches Some(n) ==> check_statement(old(self)@, code@).1 == Some(n@),
            lines_view(final(out)@) == lines_view(old(out)@) + check_statement(old(self)@, code@).2,
    {
        let ghost none = Seq::<Seq<PieceView>>::empty();
        let parens = contains_text(code, "(") && contains_text(code, ")");
        if contains_text(code, "var") {
            let rest = remove_first_text(code, "var");
            if !contains_text(rest.as_str(), "=") {
                out.push(text_piece_line(text("エラー! 変数名と式の間にイコールをいれてください")));
                assert(lines_view(out@) =~= lines_view(old(out)@) + seq![text_line("エラー! 変数名と式の間にイコールをいれてください"@)]);
            } else {
                assert(lines_view(out@) =~= lines_view(old(out)@) + none);
            }
            None
        } else if contains_text(code, "func") {
            if !parens {
                out.push(text_piece_line(text("エラー! 関数にはカッコをつけてください")));
                assert(lines_view(out@) =~= lines_view(old(out)@) + seq![text_line(paren_error())]);
            } else {
                assert(lines_view(out@) =~= lines_view(old(out)@) + none);
            }
            self.control_mode = ControlMode::Function;
            None
        } else if contains_text(code, "call") {
            if !parens {
                out.push(text_piece_line(text("エラー! 関数にはカッコをつけてください")));
                assert(lines_view(out@) =~= lines_view(old(out)@) + seq![text_line(paren_error())]);
            } else {
                assert(lines_view(out@) =~= lines_view(old(out)@) + none);
            }
            None
        } else if contains_text(code, "for") {
            self.control_mode = ControlMode::For;
            assert(lines_view(out@) =~= lines_view(old(out)@) + none);
            None
        } else if contains_text(code, "import") {
            let name = remove_first_text(code, "import");
            log_print(&self.execution_mode, message("モジュール", name.as_str(), "を読み込みます"), out);
            Some(name)
        } else if contains_text(code, "if") {
            self.control_mode = ControlMode::If;
            assert(lines_view(out@) =~= lines_view(old(out)@) + none);
            None
        } else if contains_text(code, "while") {
            self.control_mode = ControlMode::While;
            assert(lines_view(out@) =~= lines_view(old(out)@) + none);
            None
        } else {
            log_print(&self.execution_mode, message("エラー! コマンドが不正です: ", code, ""), out);
            proof { reveal_strlit(""); }
            assert(("エラー! コマンドが不正です: "@ + code@ + ""@) =~= "エラー! コマンドが不正です: "@ + code@);
            None
        }
    }

    /// Pushes a line onto the body.
    fn check_push(&mut self, c: &str)
        ensures
            final(self)@ == (ExecView { stmt: old(self)@.stmt.push(c@), ..old(self)@ }),
    {
        self.stmt.push(String::from_str(c));
        assert(self@.stmt =~= old(self)@.stmt.push(c@));
        assert(self@ =~= (ExecView { stmt: old(self)@.stmt.push(c@), ..old(self)@ }));
    }

    /// Pushes a line onto the `else` or `catch` body.
    fn check_push_else(&mut self, c: &str)
        ensures
            final(self)@ == (ExecView { else_stmt: old(self)@.else_stmt.push(c@), ..old(self)@ }),
    {
        self.else_stmt.push(String::from_str(c));
        assert(self@.else_stmt =~= old(self)@.else_stmt.push(c@));
        assert(self@ =~= (ExecView { else_stmt: old(self)@.else_stmt.push(c@), ..old(self)@ }));
    }

    /// One line of a block mode in the check (see `check_collect`): the
    /// bodies to check, in order.
    fn check_collect_move(&mut self, c: &str) -> (r: Vec<Vec<String>>)
        requires
            !(old(self).control_mode is Normal),
            counters_ok(old(self)@),
        ensures
            final(self)@ == check_collect(old(self)@, c@).0,
            r@.len() == check_collect(old(self)@, c@).1.len(),
            forall|k: int| 0 <= k < r@.len() ==> texts_of(#[trigger] r@[k]@) == check_collect(old(self)@, c@).1[k],
    {
        let mut bodies: Vec<Vec<String>> = Vec::new();
        match self.control_mode {
            ControlMode::For => {
                if contains_text(c, "end for") || contains_text(c, "endfor") {
                    if self.nest_for > 0 {
                        self.nest_for = self.nest_for - 1;
                        self.check_push(c);
                    } else {
                        self.control_mode = ControlMode::Normal;
                        bodies.push(copy_texts(&self.stmt));
                        self.stmt = Vec::new();
                        assert(self@.stmt =~= Seq::<Seq<char>>::empty());
                    }
                } else if contains_text(c, "for") {
                    self.nest_for = self.nest_for + 1;
                    self.check_push(c);
                } else {
                    self.check_push(c);
                }
            },
            ControlMode::If => {
                if contains_text(c, "else") {
                    self.control_mode = ControlMode::Else;
                } else if contains_text(c, "end if") || contains_text(c, "endif") {
                    if self.nest_if > 0 {
                        self.nest_if = self.nest_if - 1;
                        self.check_push(c);
                    } else {
                        self.control_mode = ControlMode::Normal;
                        bodies.push(copy_texts(&self.stmt));
                        self.stmt = Vec::new();
                        assert(self@.stmt =~= Seq::<Seq<char>>::empty());
                    }
                } else if contains_text(c, "if") {
                    self.nest_if = self.nest_if + 1;
                    self.check_push(c);
                } else {
                    self.check_push(c);
                }
            },
            ControlMode::Else => {
                if contains_text(c, "end if") || contains_text(c, "endif") {
                    if self.nest_if > 0 {
                        self.nest_if = self.nest_if - 1;
                        self.check_push_else(c);
                    } else {
                        self.control_mode = ControlMode::Normal;
                        bodies.push(copy_texts(&self.else_stmt));
                        self.else_stmt = Vec::new();
                        self.stmt = Vec::new();
                        assert(self@.stmt =~= Seq::<Seq<char>>::empty());
                        assert(self@.else_stmt =~= Seq::<Seq<char>>::empty());
                    }
                } else if contains_text(c, "if") {
                    self.nest_if = self.nest_if + 1;
                    self.check_push_else(c);
                } else {
                    self.check_push_else(c);
                }
            },
            ControlMode::While => {
                if contains_text(c, "end while") || contains_text(c, "endwhile") {
                    if self.nest_while > 0 {
                        self.nest_while = self.nest_while - 1;
                        self.check_push(c);
                    } else {
                        self.control_mode = ControlMode::Normal;
                        bodies.push(copy_texts(&self.stmt));
                    }
                } else if contains_text(c, "while") {
                    self.nest_while = self.nest_while + 1;
                    self.check_push(c);
                } else {
                    self.check_push(c);
                }
            },
            ControlMode::Function => {
                if contains_text(c, "end func") || contains_text(c, "endfunc") {
                    if self.nest_func > 0 {
                        self.nest_func = self.nest_func - 1;
                        self.check_push(c);
                    } else {
                        self.control_mode = ControlMode::Normal;
                        bodies.push(copy_texts(&self.stmt));
                        self.stmt = Vec::new();
                        assert(self@.stmt =~= Seq::<Seq<char>>::empty());
                    }
                } else if contains_text(c, "func") {
                    self.nest_func = self.nest_func + 1;
                    self.check_push(c);
                } else {
                    self.check_push(c);
                }
            },
            ControlMode::Try => {
                if contains_text(c, "catch") {
                    if self.nest_try > 0 {
                        self.nest_try = self.nest_try - 1;
                        self.check_push(c);
                    } else {
                        self.control_mode = ControlMode::Catch;
                    }
                } else if contains_text(c, "try") {
                    self.nest_try = self.nest_try + 1;
                    self.check_push(c);
                } else {
                    self.check_push(c);
                }
            },
            ControlMode::Catch => {
                if contains_text(c, "end try") || contains_text(c, "endtry") {
                    if self.nest_try > 0 {
                        self.nest_try = self.nest_try - 1;
                        self.check_push(c);
                    } else {
                        bodies.push(copy_texts(&self.stmt));
                        bodies.push(copy_texts(&self.else_stmt));
                        self.stmt = Vec::new();
                        self.control_mode = ControlMode::Normal;
                        assert(self@.stmt =~= Seq::<Seq<char>>::empty());
                    }
                } else if contains_text(c, "try") {
                    self.nest_try = self.nest_try + 1;
                    self.check_push_else(c);
                } else {
                    self.check_push_else(c);
                }
            },
            ControlMode::Normal => {},
        }
        assert(self@ =~= check_collect(old(self)@, c@).0);
        bodies
    }
}

proof fn lemma_frames_push(fs: Seq<CheckFrame>, f: CheckFrame)
    ensures
        frames_view(fs.push(f)) == frames_view(fs).push(frame_view(f)),
{
    assert(frames_view(fs.push(f)) =~= frames_view(fs).push(frame_view(f)));
}

proof fn lemma_frames_drop_last(fs: Seq<CheckFrame>)
    requires
        fs.len() > 0,
    ensures
        frames_view(fs.drop_last()) == frames_view(fs).drop_last(),
        frames_view(fs).last() == frame_view(fs.last()),
{
    assert(frames_view(fs.drop_last()) =~= frames_view(fs).drop_last());
}

impl Checker {
    /// `check`: a check of the lines with the executor.
    pub fn new(exec: Executor, lines: Vec<String>) -> (r: Checker)
        ensures
            frames_view(r.frames@) == seq![FrameView { state: exec@, lines: texts_of(lines@), next: 0, import: false }],
    {
        let mut frames: Vec<CheckFrame> = Vec::new();
        frames.push(CheckFrame { executor: exec, lines, next: 0, import: false });
        assert(frames_view(frames@) =~= seq![FrameView { state: exec@, lines: texts_of(lines@), next: 0, import: false }]);
        Checker { frames }
    }

    /// Whether the check can take a step (see `check_ready`).
    pub fn is_ready(&self) -> (r: bool)
        ensures
            r == check_ready(frames_view(self.frames@)),
    {
        let n = self.frames.len();
        if n == 0 {
            return true;
        }
        proof { lemma_frames_drop_last(self.frames@); }
        let e = &self.frames[n - 1].executor;
        e.nest_if < usize::MAX && e.nest_try < usize::MAX && e.nest_for < usize::MAX
            && e.nest_while < usize::MAX && e.nest_func < usize::MAX
    }

    /// One step of the check (see `check_step`).
    pub fn step(&mut self, out: &mut Vec<Vec<Piece>>) -> (r: CheckRequest)
        requires
            check_ready(frames_view(old(self).frames@)),
        ensures
            frames_view(final(self).frames@) == check_step(frames_view(old(self).frames@)).0,
            r@ == check_step(frames_view(old(self).frames@)).1,
            lines_view(final(out)@) == lines_view(old(out)@) + check_step(frames_view(old(self).frames@)).2,
    {
        let ghost fs = frames_view(self.frames@);
        let ghost none = Seq::<Seq<PieceView>>::empty();
        if self.frames.len() == 0 {
            assert(lines_view(out@) =~= lines_view(old(out)@) + none);
            return CheckRequest::Done;
        }
        proof { lemma_frames_drop_last(self.frames@); }
        let mut top = self.frames.pop().unwrap();
        let ghost rest = frames_view(self.frames@);
        assert(rest == fs.drop_last());
        if top.next >= top.lines.len() {
            let msg = match top.executor.control_mode {
                ControlMode::Function => Some(text("エラー! 関数の終わりが見つかりません")),
                ControlMode::If | ControlMode::Else => Some(text("エラー! if文の終わりが見つかりません")),
                ControlMode::Try | ControlMode::Catch => Some(text("エラー! try文の終わりが見つかりません")),
                ControlMode::For => Some(text("エラー! for文の終わりが見つかりません")),
                ControlMode::While => Some(text("エラー! while文の終わりが見つかりません")),
                ControlMode::Normal => None,
            };
            match msg {
                Some(m) => {
                    out.push(text_piece_line(m));
                    assert(lines_view(out@) =~= lines_view(old(out)@) + end_message(top.executor.control_mode));
                },
                None => {
                    assert(lines_view(out@) =~= lines_view(old(out)@) + end_message(top.executor.control_mode));
                },
            }
            if top.import && self.frames.len() > 0 {
                proof { lemma_frames_drop_last(self.frames@); }
                let mut parent = self.frames.pop().unwrap();
                parent.executor = top.executor;
                proof { lemma_frames_push(self.frames@, parent); }
                self.frames.push(parent);
                assert(frames_view(self.frames@) =~= rest.update(rest.len() - 1, FrameView { state: top.executor@, ..rest.last() }));
            }
            return CheckRequest::Continue;
        }
        let l = top.lines[top.next].clone();
        assert(l@ == fs.last().lines[top.next as int]);
        top.next = top.next + 1;
        let function = match top.executor.control_mode {
            ControlMode::Function => true,
            _ => false,
        };
        let code = if function {
            l
        } else {
            let t = trim_text(l.as_str());
            let parts = split_text(t.as_str(), '#');
            proof { lemma_split_nonempty(t@, '#'); }
            parts[0].clone()
        };
        if code.as_str().unicode_len() == 0 {
            proof { lemma_frames_push(self.frames@, top); }
            self.frames.push(top);
            assert(lines_view(out@) =~= lines_view(old(out)@) + none);
            return CheckRequest::Continue;
        }
        match top.executor.control_mode {
            ControlMode::Normal => {
                let r = top.executor.check_statement_move(code.as_str(), out);
                proof { lemma_frames_push(self.frames@, top); }
                self.frames.push(top);
                match r {
                    Some(n) => CheckRequest::Load(n),
                    None => CheckRequest::Continue,
                }
            },
            _ => {
                let mode = top.executor.execution_mode.copy();
                let bodies = top.executor.check_collect_move(code.as_str());
                proof { lemma_frames_push(self.frames@, top); }
                self.frames.push(top);
                let ghost base = frames_view(self.frames@);
                let ghost kids = check_collect(fs.last().state, code@).1;
                let mut bodies = bodies;
                let ghost all = bodies@;
                let mut k: usize = bodies.len();
                assert(child_frames(kids, mode).take(0) =~= Seq::<FrameView>::empty());
                assert(base =~= base + Seq::<FrameView>::empty());
                assert(all.take(k as int) =~= all);
                while k > 0
                    invariant
                        k <= all.len(),
                        bodies@ == all.take(k as int),
                        all.len() == kids.len(),
                        forall|j: int| 0 <= j < all.len() ==> texts_of(#[trigger] all[j]@) == kids[j],
                        frames_view(self.frames@) == base + child_frames(kids, mode).take(kids.len() - k),
                    decreases k,
                {
                    let ghost before = bodies@;
                    let b = bodies.pop().unwrap();
                    assert(b == before.last());
                    assert(before.last() == all[k - 1]);
                    assert(bodies@ =~= all.take(k - 1));
                    let e = Executor::new(mode.copy());
                    assert(e@.stmt =~= Seq::<Seq<char>>::empty());
                    assert(e@.else_stmt =~= Seq::<Seq<char>>::empty());
                    assert(e@.data =~= Seq::<char>::empty());
                    assert(e@.expr =~= Seq::<char>::empty());
                    let f = CheckFrame { executor: e, lines: b, next: 0, import: false };
                    proof { lemma_frames_push(self.frames@, f); }
                    self.frames.push(f);
                    k = k - 1;
                    proof {
                        assert(e@ =~= fresh(mode));
                        assert(frame_view(f) == child_frames(kids, mode)[kids.len() - 1 - k]);
                        assert(child_frames(kids, mode).take(kids.len() - k) =~= child_frames(kids, mode).take(kids.len() - 1 - k).push(child_frames(kids, mode)[kids.len() - 1 - k]));
                    }
                }
                assert(child_frames(kids, mode).take(kids.len() as int) =~= child_frames(kids, mode));
                assert(lines_view(out@) =~= lines_view(old(out)@) + none);
                CheckRequest::Continue
            },
        }
    }

    /// The answer to `Load` (see `check_loaded`).
    pub fn loaded(&mut self, module: Result<String, String>, out: &mut Vec<Vec<Piece>>)
        ensures
            frames_view(final(self).frames@) == check_loaded(frames_view(old(self).frames@), match module {
                Ok(m) => Ok(m@),
                Err(e) => Err(e@),
            }).0,
            lines_view(final(out)@) == lines_view(old(out)@) + check_loaded(frames_view(old(self).frames@), match module {
                Ok(m) => Ok(m@),
                Err(e) => Err(e@),
            }).1,
    {
        let text_of = match module {
            Ok(m) => {
                assert(lines_view(out@) =~= lines_view(old(out)@) + Seq::<Seq<PieceView>>::empty());
                m
            },
            Err(e) => {
                let mut msg = text("エラー! ");
                msg.append(e.as_str());
                out.push(text_piece_line(msg));
                assert(lines_view(out@) =~= lines_view(old(out)@) + seq![text_line("エラー! "@ + e@)]);
                String::new()
            },
        };
        let n = self.frames.len();
        if n == 0 {
            return;
        }
        proof { lemma_frames_drop_last(self.frames@); }
        let e = self.frames[n - 1].executor.copy();
        let lines = split_text(text_of.as_str(), '\n');
        assert(texts_of(lines@) =~= split(text_of@, '\n'));
        let f = CheckFrame { executor: e, lines, next: 0, import: true };
        proof { lemma_frames_push(self.frames@, f); }
        self.frames.push(f);
    }
}

impl Executor {
    /// `check`: a syntax check of the lines with this executor (see
    /// `Checker::step`).
    pub fn check(self, code: Vec<String>) -> (r: Checker)
        ensures
            frames_view(r.frames@) == seq![FrameView { state: self@, lines: texts_of(code@), next: 0, import: false }],
    {
        Checker::new(self, code)
    }
}

} // verus!
