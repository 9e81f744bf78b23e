//! Running a block of lines on an executor, line by line; scripts and
//! debugging sessions, which run a whole file as a block; the interactive
//! prompt; and the debug menu shown after each statement when debugging.
use vstd::prelude::*;
use crate::text::{join, join_from, remove_all, remove_all_text, remove_first, remove_first_text, split, split_text, trim, trim_text, contains, contains_text, lemma_split_nonempty};
use crate::types::{
    lines_view, log_print, logs, text, text_line, text_piece_line, texts_of, vars_view, funcs_view,
    ControlMode, ExecutionMode, Piece, PieceView, ReturnValue, Returned, Type, Val,
};
use crate::memory::{
    Memory, first_index, func_names, function_key, latest_index, lemma_first_index_from, lemma_latest_index, name_key, set_var_logs,
    set_var_spec, var_names,
};
use crate::executor::{ExecView, Executor};
use crate::display::{decimal, decimal_text};
use crate::machine::{given, message};

verus! {

/// The code of a line: in `Normal` mode the part before the first `#` of
/// the trimmed line, else the whole line.
pub open spec fn code_part(l: Seq<char>, normal: bool) -> Seq<char> {
    if normal {
        split(trim(l), '#')[0]
    } else {
        l
    }
}

/// The comment of a line: what follows the first `#` of the trimmed line.
pub open spec fn comment_part(l: Seq<char>) -> Seq<char> {
    join(split(trim(l), '#').skip(1), "#"@)
}

/// What a line's comment prints: in `Normal` mode and a commented mode,
/// a comment that is not empty is shown.
pub open spec fn comment_logs(l: Seq<char>, normal: bool, mode: ExecutionMode) -> Seq<Seq<PieceView>> {
    if normal && !(mode is Script) && comment_part(l).len() > 0 {
        seq![text_line("※ コメント「"@ + comment_part(l) + "」"@)]
    } else {
        Seq::empty()
    }
}

/// A line with no code is passed over.
pub open spec fn blank(t: Seq<char>) -> bool {
    split(trim(t), '#')[0].len() == 0
}

/// The line that shows which statement runs.
pub open spec fn number_line(number: nat, t: Seq<char>) -> Seq<PieceView> {
    text_line(decimal(number) + "行目の〔 "@ + t + " 〕を実行します"@)
}

/// A block in progress: its lines, the next one, and how many statements
/// have been shown.
pub struct BlockRun {
    pub lines: Vec<String>,
    pub next: usize,
    pub number: usize,
}

/// What the next line of a block is.
pub enum LineStep {
    /// The block has no more lines.
    End,
    /// The line has no code.
    Skip,
    /// The statement to run.
    Run(String),
}

/// A block run is well formed: no more statements shown than lines read.
pub open spec fn run_ok(b: BlockRun) -> bool {
    b.number <= b.next <= b.lines@.len()
}

/// The statement of a line of `Normal` mode is shown in a commented mode.
pub open spec fn shows(e: ExecView) -> bool {
    e.control_mode is Normal && !(e.execution_mode is Script)
}

impl Executor {
    /// `execute_block`: a run of these lines, from the first, line by line
    /// (see `next_line` and `after_statement`).
    pub fn execute_block(lines: Vec<String>) -> (r: BlockRun)
        ensures
            r.lines == lines,
            r.next == 0,
            r.number == 0,
    {
        BlockRun { lines, next: 0, number: 0 }
    }
}

impl BlockRun {
    /// Reads the next line: shows its comment, and in `Normal` mode of a
    /// commented mode its number and code.
    pub fn next_line(&mut self, exec: &Executor, out: &mut Vec<Vec<Piece>>) -> (r: LineStep)
        requires
            run_ok(*old(self)),
        ensures
            run_ok(*final(self)),
            final(self).lines == old(self).lines,
            old(self).next == old(self).lines@.len() ==> r is End && *final(self) == *old(self) && final(out)@ == old(out)@,
            old(self).next < old(self).lines@.len() ==> {
                let l = old(self).lines@[old(self).next as int]@;
                let normal = exec.control_mode is Normal;
                let t = code_part(l, normal);
                &&& final(self).next == old(self).next + 1
                &&& blank(t) ==> r is Skip && final(self).number == old(self).number
                    && lines_view(final(out)@) == lines_view(old(out)@) + comment_logs(l, normal, exec.execution_mode)
                &&& !blank(t) ==> (r matches LineStep::Run(s) && s@ == t)
                    && final(self).number == old(self).number + (if shows(exec@) { 1int } else { 0 })
                    && lines_view(final(out)@) == lines_view(old(out)@) + comment_logs(l, normal, exec.execution_mode)
                        + (if shows(exec@) { seq![number_line(final(self).number as nat, t)] } else { Seq::empty() })
            },
    {
        if self.next >= self.lines.len() {
            return LineStep::End;
        }
        let l = self.lines[self.next].clone();
        self.next = self.next + 1;
        let normal = match exec.control_mode {
            ControlMode::Normal => true,
            _ => false,
        };
        let script = exec.execution_mode.is_script();
        let t = if normal {
            let trimmed = trim_text(l.as_str());
            let params = split_text(trimmed.as_str(), '#');
            proof { lemma_split_nonempty(trimmed@, '#'); }
            let comment = join_from(&params, 1, "#");
            assert(params@.skip(1).map_values(|p: String| p@) =~= split(trim(l@), '#').skip(1));
            if !script && comment.as_str().unicode_len() > 0 {
                out.push(text_piece_line(message("※ コメント「", comment.as_str(), "」")));
            }
            params[0].clone()
        } else {
            l
        };
        let ghost after_comment = lines_view(out@);
        assert(after_comment =~= lines_view(old(out)@) + comment_logs(old(self).lines@[old(self).next as int]@, normal, exec.execution_mode));
        let trimmed = trim_text(t.as_str());
        let parts = split_text(trimmed.as_str(), '#');
        proof { lemma_split_nonempty(trimmed@, '#'); }
        if parts[0].as_str().unicode_len() == 0 {
            return LineStep::Skip;
        }
        if normal && !script {
            self.number = self.number + 1;
            let mut m = decimal_text(self.number);
            m.append("行目の〔 ");
            m.append(t.as_str());
            m.append(" 〕を実行します");
            out.push(text_piece_line(m));
            assert(lines_view(out@) =~= after_comment + seq![number_line(self.number as nat, t@)]);
        } else {
            assert(lines_view(out@) =~= after_comment + Seq::<Seq<PieceView>>::empty());
        }
        LineStep::Run(t)
    }
}

/// After a statement of a block: whether the debug menu is shown, and the
/// block's result if the statement ends the block (anything but nothing).
pub fn after_statement(exec: &Executor, status: ReturnValue) -> (r: (bool, Option<ReturnValue>))
    ensures
        r.0 == shows(exec@),
        status is Nothing ==> r.1 is None,
        !(status is Nothing) ==> r.1 == Some(status),
{
    let menu = match exec.control_mode {
        ControlMode::Normal => !exec.execution_mode.is_script(),
        _ => false,
    };
    match status {
        ReturnValue::Nothing => (menu, None),
        _ => (menu, Some(status)),
    }
}

impl Executor {
    /// `script`: the executor runs silently, and the file's lines are the
    /// block.
    pub fn script(&mut self, code: &str) -> (r: BlockRun)
        ensures
            final(self)@ == (ExecView { execution_mode: ExecutionMode::Script, ..old(self)@ }),
            texts_of(r.lines@) == split(code@, '\n'),
            r.next == 0 && r.number == 0,
    {
        self.execution_mode = ExecutionMode::Script;
        let lines = split_text(code, '\n');
        assert(texts_of(lines@) =~= split(code@, '\n'));
        Self::execute_block(lines)
    }

    /// `debugger`: the executor runs with commentary, and the file's lines
    /// are the block.
    pub fn debugger(&mut self, code: &str) -> (r: BlockRun)
        ensures
            final(self)@ == (ExecView { execution_mode: ExecutionMode::Debug, ..old(self)@ }),
            texts_of(r.lines@) == split(code@, '\n'),
            r.next == 0 && r.number == 0,
    {
        self.execution_mode = ExecutionMode::Debug;
        let lines = split_text(code, '\n');
        assert(texts_of(lines@) =~= split(code@, '\n'));
        Self::execute_block(lines)
    }
}

/// The prompt of the interactive mode for each block mode.
pub open spec fn prompt(c: ControlMode) -> Seq<char> {
    match c {
        ControlMode::If => "If分岐> "@,
        ControlMode::Else => "Else分岐> "@,
        ControlMode::Try => "Try文> "@,
        ControlMode::Catch => "Catch文> "@,
        ControlMode::For => "Forループ> "@,
        ControlMode::While => "Whileループ> "@,
        ControlMode::Normal => "プログラム> "@,
        ControlMode::Function => "関数定義> "@,
    }
}

impl Executor {
    /// The start of a round of the interactive mode: the executor is put in
    /// `Interactive` mode; the prompt to read a line with.
    pub fn interactive(&mut self) -> (r: String)
        ensures
            final(self)@ == (ExecView { execution_mode: ExecutionMode::Interactive, ..old(self)@ }),
            r@ == prompt(old(self).control_mode),
    {
        self.execution_mode = ExecutionMode::Interactive;
        match self.control_mode {
            ControlMode::If => text("If分岐> "),
            ControlMode::Else => text("Else分岐> "),
            ControlMode::Try => text("Try文> "),
            ControlMode::Catch => text("Catch文> "),
            ControlMode::For => text("Forループ> "),
            ControlMode::While => text("Whileループ> "),
            ControlMode::Normal => text("プログラム> "),
            ControlMode::Function => text("関数定義> "),
        }
    }

    /// A line read in the interactive mode: its comment is shown and its
    /// code given back, unless there is none.
    pub fn interactive_line(&self, code: &str, out: &mut Vec<Vec<Piece>>) -> (r: Option<String>)
        ensures
            ({
                let normal = self.control_mode is Normal;
                let t = code_part(code@, normal);
                &&& lines_view(final(out)@) == lines_view(old(out)@) + comment_logs(code@, normal, self.execution_mode)
                &&& trim(t).len() == 0 ==> r is None
                &&& trim(t).len() > 0 ==> (r matches Some(s) && s@ == t)
            }),
    {
        let normal = match self.control_mode {
            ControlMode::Normal => true,
            _ => false,
        };
        let t = if normal {
            let trimmed = trim_text(code);
            let params = split_text(trimmed.as_str(), '#');
            proof { lemma_split_nonempty(trimmed@, '#'); }
            let comment = join_from(&params, 1, "#");
            assert(params@.skip(1).map_values(|p: String| p@) =~= split(trim(code@), '#').skip(1));
            if !self.execution_mode.is_script() && comment.as_str().unicode_len() > 0 {
                out.push(text_piece_line(message("※ コメント「", comment.as_str(), "」")));
            }
            params[0].clone()
        } else {
            String::from_str(code)
        };
        assert(lines_view(out@) =~= lines_view(old(out)@) + comment_logs(code@, normal, self.execution_mode));
        if trim_text(t.as_str()).as_str().unicode_len() == 0 {
            None
        } else {
            Some(t)
        }
    }
}

/// Where the debug menu waits.
pub enum MenuPhase {
    /// For a command.
    Ask,
    /// `var name = e`: for the value.
    Var(String),
    /// `ref name = other`: for the address's value.
    Ref(String),
    /// `mem`: for the memory to be shown.
    Show,
    /// `exit`: for the key that ends the session.
    Quit,
    /// The menu is over.
    Over,
}

/// The content of a menu phase.
pub enum MenuPhaseView {
    Ask,
    Var(Seq<char>),
    Ref(Seq<char>),
    Show,
    Quit,
    Over,
}

impl View for MenuPhase {
    type V = MenuPhaseView;

    open spec fn view(&self) -> MenuPhaseView {
        match self {
            MenuPhase::Ask => MenuPhaseView::Ask,
            MenuPhase::Var(n) => MenuPhaseView::Var(n@),
            MenuPhase::Ref(n) => MenuPhaseView::Ref(n@),
            MenuPhase::Show => MenuPhaseView::Show,
            MenuPhase::Quit => MenuPhaseView::Quit,
            MenuPhase::Over => MenuPhaseView::Over,
        }
    }
}

/// What the debug menu asks of the host.
pub enum MenuRequest {
    /// Read a line after this prompt.
    Input(String),
    /// Evaluate the expression.
    Evaluate(String),
    /// Show the memory.
    ShowMemory,
    /// End the process.
    Exit,
    /// Leave the menu; the block goes on.
    Continue,
}

/// The content of a menu request.
pub enum MenuAsked {
    Input(Seq<char>),
    Evaluate(Seq<char>),
    ShowMemory,
    Exit,
    Continue,
}

impl View for MenuRequest {
    type V = MenuAsked;

    open spec fn view(&self) -> MenuAsked {
        match self {
            MenuRequest::Input(p) => MenuAsked::Input(p@),
            MenuRequest::Evaluate(x) => MenuAsked::Evaluate(x@),
            MenuRequest::ShowMemory => MenuAsked::ShowMemory,
            MenuRequest::Exit => MenuAsked::Exit,
            MenuRequest::Continue => MenuAsked::Continue,
        }
    }
}

/// What the host answers the debug menu.
pub enum MenuEvent {
    /// The line read.
    Entered(String),
    /// The expression's result.
    Evaluated(ReturnValue),
    /// The memory was shown.
    Shown,
}

/// The content of a menu answer.
pub enum MenuTold {
    Entered(Seq<char>),
    Evaluated(Returned),
    Shown,
}

impl View for MenuEvent {
    type V = MenuTold;

    open spec fn view(&self) -> MenuTold {
        match self {
            MenuEvent::Entered(s) => MenuTold::Entered(s@),
            MenuEvent::Evaluated(r) => MenuTold::Evaluated(r@),
            MenuEvent::Shown => MenuTold::Shown,
        }
    }
}

/// One move of the debug menu.
pub struct MenuTransition {
    pub phase: MenuPhaseView,
    pub request: MenuAsked,
    pub vars: Seq<(Seq<char>, Val)>,
    pub funcs: Seq<crate::types::FunctionView>,
    pub logs: Seq<Seq<PieceView>>,
}

/// The menu's prompt.
pub open spec fn menu_prompt() -> Seq<char> {
    "デバッグメニュー>>> "@
}

/// A menu move that leaves the memory as it is.
pub open spec fn menu_keep(mem: Memory, phase: MenuPhaseView, request: MenuAsked, lg: Seq<Seq<PieceView>>) -> MenuTransition {
    MenuTransition { phase, request, vars: vars_view(mem.memory@), funcs: funcs_view(mem.name_space@), logs: lg }
}

/// Asking for the next command.
pub open spec fn ask_again(mem: Memory, lg: Seq<Seq<PieceView>>) -> MenuTransition {
    menu_keep(mem, MenuPhaseView::Ask, MenuAsked::Input(menu_prompt()), lg)
}

/// The address message of `ref`.
pub open spec fn address_message(name: Seq<char>, i: nat) -> Seq<char> {
    "変数"@ + name + "のアドレスは"@ + decimal(i) + "です"@
}

/// A command of the debug menu.
pub open spec fn menu_command(menu: Seq<char>, mem: Memory, mode: ExecutionMode) -> MenuTransition {
    let none = Seq::<Seq<PieceView>>::empty();
    if contains(menu, "var"@) {
        let params = split(remove_first(menu, "var"@), '=');
        menu_keep(mem, MenuPhaseView::Var(remove_all(trim(params[0]), ' ')), MenuAsked::Evaluate(join(params.skip(1), "="@)), none)
    } else if contains(menu, "del"@) {
        let name = remove_first(menu, "del"@);
        if contains(name, "("@) {
            match latest_index(func_names(mem.name_space@), function_key(name)) {
                Some(i) => MenuTransition {
                    phase: MenuPhaseView::Ask,
                    request: MenuAsked::Input(menu_prompt()),
                    vars: vars_view(mem.memory@),
                    funcs: funcs_view(mem.name_space@).remove(i),
                    logs: logs(mode, seq!["関数"@ + name + "を削除しました"@]),
                },
                None => ask_again(mem, none),
            }
        } else {
            match first_index(var_names(mem.memory@), name_key(name)) {
                Some(i) => MenuTransition {
                    phase: MenuPhaseView::Ask,
                    request: MenuAsked::Input(menu_prompt()),
                    vars: vars_view(mem.memory@).remove(i),
                    funcs: funcs_view(mem.name_space@),
                    logs: logs(mode, seq!["変数"@ + name + "を削除しました"@]),
                },
                None => ask_again(mem, none),
            }
        }
    } else if contains(menu, "ref"@) {
        let head = logs(mode, seq!["変数の参照を取得します"@]);
        let lines = remove_first(menu, "ref"@);
        if contains(lines, "="@) {
            let params = split(lines, '=');
            match first_index(var_names(mem.memory@), name_key(join(params.skip(1), "="@))) {
                Some(i) => menu_keep(mem, MenuPhaseView::Ref(params[0]), MenuAsked::Evaluate(decimal(i as nat)), head + logs(mode, seq![address_message(params[0], i as nat)])),
                None => ask_again(mem, head),
            }
        } else {
            match first_index(var_names(mem.memory@), name_key(lines)) {
                Some(i) => ask_again(mem, head + logs(mode, seq![address_message(lines, i as nat)])),
                None => ask_again(mem, head),
            }
        }
    } else if contains(menu, "mem"@) {
        menu_keep(mem, MenuPhaseView::Show, MenuAsked::ShowMemory, none)
    } else if contains(menu, "exit"@) {
        menu_keep(mem, MenuPhaseView::Quit, MenuAsked::Input("デバッグを中断します"@), none)
    } else {
        menu_keep(mem, MenuPhaseView::Over, MenuAsked::Continue, seq![text_line("継続します"@)])
    }
}

/// The move an answer makes in the debug menu. An answer of the wrong
/// kind ends the menu.
pub open spec fn menu_spec(p: MenuPhaseView, ev: MenuTold, mem: Memory, mode: ExecutionMode) -> MenuTransition {
    let over = menu_keep(mem, MenuPhaseView::Over, MenuAsked::Continue, Seq::empty());
    match ev {
        MenuTold::Entered(menu) => match p {
            MenuPhaseView::Ask => menu_command(menu, mem, mode),
            MenuPhaseView::Quit => menu_keep(mem, MenuPhaseView::Over, MenuAsked::Exit, Seq::empty()),
            _ => over,
        },
        MenuTold::Evaluated(r) => match p {
            MenuPhaseView::Var(name) | MenuPhaseView::Ref(name) => MenuTransition {
                phase: MenuPhaseView::Ask,
                request: MenuAsked::Input(menu_prompt()),
                vars: set_var_spec(vars_view(mem.memory@), var_names(mem.memory@), name, given(r)),
                funcs: funcs_view(mem.name_space@),
                logs: logs(mode, set_var_logs(var_names(mem.memory@), name)),
            },
            _ => over,
        },
        MenuTold::Shown => match p {
            MenuPhaseView::Show => ask_again(mem, Seq::empty()),
            _ => over,
        },
    }
}

/// The move, against a menu transition.
pub open spec fn menu_follows(t: MenuTransition, phase: MenuPhase, request: MenuRequest, mem: Memory, before: Seq<Vec<Piece>>, after: Seq<Vec<Piece>>) -> bool {
    &&& phase@ == t.phase
    &&& request@ == t.request
    &&& vars_view(mem.memory@) == t.vars
    &&& funcs_view(mem.name_space@) == t.funcs
    &&& lines_view(after) == lines_view(before) + t.logs
}

/// The debug menu's first move: it asks for a command.
pub fn menu_start() -> (r: (MenuPhase, MenuRequest))
    ensures
        r.0@ == MenuPhaseView::Ask,
        r.1@ == MenuAsked::Input(menu_prompt()),
{
    (MenuPhase::Ask, MenuRequest::Input(text("デバッグメニュー>>> ")))
}

impl Executor {
    /// A command of the debug menu (see `menu_command`).
    fn menu_command_move(&self, menu: &str, mem: &mut Memory, out: &mut Vec<Vec<Piece>>) -> (r: (MenuPhase, MenuRequest))
        ensures
            menu_follows(menu_command(menu@, *old(mem), self.execution_mode), r.0, r.1, *final(mem), old(out)@, final(out)@),
    {
        let mode = &self.execution_mode;
        let ghost none = Seq::<Seq<PieceView>>::empty();
        let ask = MenuRequest::Input(text("デバッグメニュー>>> "));
        if contains_text(menu, "var") {
            let lim = remove_first_text(menu, "var");
            let params = split_text(lim.as_str(), '=');
            proof { lemma_split_nonempty(lim@, '='); }
            let t = trim_text(params[0].as_str());
            let name = remove_all_text(t.as_str(), ' ');
            let x = join_from(&params, 1, "=");
            assert(params@.skip(1).map_values(|p: String| p@) =~= split(lim@, '=').skip(1));
            assert(lines_view(out@) =~= lines_view(old(out)@) + none);
            (MenuPhase::Var(name), MenuRequest::Evaluate(x))
        } else if contains_text(menu, "del") {
            let name = remove_first_text(menu, "del");
            if contains_text(name.as_str(), "(") {
                match mem.reference_function(name.as_str()) {
                    Some(i) => {
                        proof {
                            lemma_latest_index(func_names(mem.name_space@), function_key(name@));
                        }
                        let ghost before = funcs_view(mem.name_space@);
                        mem.name_space.remove(i);
                        assert(funcs_view(mem.name_space@) =~= before.remove(i as int));
                        log_print(mode, message("関数", name.as_str(), "を削除しました"), out);
                    },
                    None => {
                        assert(lines_view(out@) =~= lines_view(old(out)@) + none);
                    },
                }
            } else {
                match mem.reference_variable(name.as_str()) {
                    Some(i) => {
                        let ghost before = vars_view(mem.memory@);
                        mem.memory.remove(i);
                        assert(vars_view(mem.memory@) =~= before.remove(i as int));
                        log_print(mode, message("変数", name.as_str(), "を削除しました"), out);
                    },
                    None => {
                        assert(lines_view(out@) =~= lines_view(old(out)@) + none);
                    },
                }
            }
            (MenuPhase::Ask, ask)
        } else if contains_text(menu, "ref") {
            log_print(mode, text("変数の参照を取得します"), out);
            let ghost head = lines_view(out@);
            let lines = remove_first_text(menu, "ref");
            if contains_text(lines.as_str(), "=") {
                let params = split_text(lines.as_str(), '=');
                proof { lemma_split_nonempty(lines@, '='); }
                let other = join_from(&params, 1, "=");
                assert(params@.skip(1).map_values(|p: String| p@) =~= split(lines@, '=').skip(1));
                match mem.reference_variable(other.as_str()) {
                    Some(i) => {
                        let n = decimal_text(i);
                        let mut m = message("変数", params[0].as_str(), "のアドレスは");
                        m.append(n.as_str());
                        m.append("です");
                        log_print(mode, m, out);
                        assert(lines_view(out@) =~= lines_view(old(out)@) + (logs(*mode, seq!["変数の参照を取得します"@]) + logs(*mode, seq![address_message(params@[0]@, i as nat)])));
                        (MenuPhase::Ref(params[0].clone()), MenuRequest::Evaluate(n))
                    },
                    None => {
                        assert(lines_view(out@) =~= head + none);
                        (MenuPhase::Ask, ask)
                    },
                }
            } else {
                match mem.reference_variable(lines.as_str()) {
                    Some(i) => {
                        let n = decimal_text(i);
                        let mut m = message("変数", lines.as_str(), "のアドレスは");
                        m.append(n.as_str());
                        m.append("です");
                        log_print(mode, m, out);
                        assert(lines_view(out@) =~= lines_view(old(out)@) + (logs(*mode, seq!["変数の参照を取得します"@]) + logs(*mode, seq![address_message(lines@, i as nat)])));
                    },
                    None => {
                        assert(lines_view(out@) =~= head + none);
                    },
                }
                (MenuPhase::Ask, ask)
            }
        } else if contains_text(menu, "mem") {
            assert(lines_view(out@) =~= lines_view(old(out)@) + none);
            (MenuPhase::Show, MenuRequest::ShowMemory)
        } else if contains_text(menu, "exit") {
            assert(lines_view(out@) =~= lines_view(old(out)@) + none);
            (MenuPhase::Quit, MenuRequest::Input(text("デバッグを中断します")))
        } else {
            out.push(text_piece_line(text("継続します")));
            assert(lines_view(out@) =~= lines_view(old(out)@) + seq![text_line("継続します"@)]);
            (MenuPhase::Over, MenuRequest::Continue)
        }
    }

    /// The move an answer makes in the debug menu (see `menu_spec`).
    pub fn menu_step(&self, phase: MenuPhase, event: MenuEvent, mem: &mut Memory, out: &mut Vec<Vec<Piece>>) -> (r: (MenuPhase, MenuRequest))
        ensures
            menu_follows(menu_spec(phase@, event@, *old(mem), self.execution_mode), r.0, r.1, *final(mem), old(out)@, final(out)@),
    {
        let ghost none = Seq::<Seq<PieceView>>::empty();
        match event {
            MenuEvent::Entered(menu) => match phase {
                MenuPhase::Ask => self.menu_command_move(menu.as_str(), mem, out),
                MenuPhase::Quit => {
                    assert(lines_view(out@) =~= lines_view(old(out)@) + none);
                    (MenuPhase::Over, MenuRequest::Exit)
                },
                _ => {
                    assert(lines_view(out@) =~= lines_view(old(out)@) + none);
                    (MenuPhase::Over, MenuRequest::Continue)
                },
            },
            MenuEvent::Evaluated(r) => {
                let value = match r {
                    ReturnValue::Value(v) => v,
                    _ => Type::Number(0),
                };
                proof {
                    if r is Value {
                        crate::types::lemma_val_kind(r->Value_0);
                    }
                }
                match phase {
                    MenuPhase::Var(name) | MenuPhase::Ref(name) => {
                        mem.set_variable(name.as_str(), value, &self.execution_mode, out);
                        (MenuPhase::Ask, MenuRequest::Input(text("デバッグメニュー>>> ")))
                    },
                    _ => {
                        assert(lines_view(out@) =~= lines_view(old(out)@) + none);
                        (MenuPhase::Over, MenuRequest::Continue)
                    },
                }
            },
            MenuEvent::Shown => {
                assert(lines_view(out@) =~= lines_view(old(out)@) + none);
                match phase {
                    MenuPhase::Show => (MenuPhase::Ask, MenuRequest::Input(text("デバッグメニュー>>> "))),
                    _ => (MenuPhase::Over, MenuRequest::Continue),
                }
            },
        }
    }
}

} // verus!
