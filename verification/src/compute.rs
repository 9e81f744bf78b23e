//! Expressions: splitting into tokens, and the stack machine that
//! evaluates them in reverse Polish order.
//!
//! Arithmetic on numbers and the reading of number literals are binary64
//! operations that the host carries out; the machine asks for them and
//! is given their results.
use vstd::prelude::*;
use crate::text::{
    chars_of, contains, contains_text, occurs_at, remove_all, remove_all_text, remove_first,
    remove_first_text, string_of_range, text_less, text_lt, trim, trim_text,
};
use crate::types::{
    lemma_list_view, lemma_val_kind, lines_view, log_print, logs, text, text_line, vals_of, ExecutionMode,
    FunctionView, Piece, PieceView, ReturnValue, Returned, Type, Val, funcs_view,
};
use crate::memory::{first_index, name_key, var_names, Memory};
use crate::display::{pointers_ok, type_string, value_pieces};
use crate::float::{clamp_usize, num_eq, num_lt, number_eq, number_lt, round_u64};
use crate::stdlib::{access_spec, std_args_len, std_func_args_len, StdCall, StdNeed};

verus! {

/// The state of the tokenizer after some characters.
pub struct Tokenizer {
    pub elements: Seq<Seq<char>>,
    pub buffer: Seq<char>,
    pub quoted: bool,
    pub brackets: int,
    pub parens: int,
}

/// The character separates tokens: a space (ASCII or ideographic) in
/// expressions, a comma in argument lists.
pub open spec fn is_separator(c: char, arguments: bool) -> bool {
    if arguments {
        c == ','
    } else {
        c == ' ' || c == '\u{3000}'
    }
}

/// One character of tokenizing. Quotes (either kind) toggle quoting and
/// are kept as `"`; outside quotes, brackets nest, and a separator at
/// depth 0 ends the current token.
pub open spec fn tok_step(t: Tokenizer, c: char, arguments: bool) -> Tokenizer {
    if c == '"' || c == '\'' {
        Tokenizer { quoted: !t.quoted, buffer: t.buffer.push('"'), ..t }
    } else if c == '(' && !t.quoted {
        Tokenizer { brackets: t.brackets + 1, buffer: t.buffer.push('('), ..t }
    } else if c == ')' && !t.quoted {
        Tokenizer { brackets: t.brackets - 1, buffer: t.buffer.push(')'), ..t }
    } else if c == '[' && !t.quoted {
        Tokenizer { parens: t.parens + 1, buffer: t.buffer.push('['), ..t }
    } else if c == ']' && !t.quoted {
        Tokenizer { parens: t.parens - 1, buffer: t.buffer.push(']'), ..t }
    } else if is_separator(c, arguments) && !t.quoted && t.brackets == 0 && t.parens == 0 {
        if t.buffer.len() > 0 {
            Tokenizer { elements: t.elements.push(t.buffer), buffer: Seq::empty(), ..t }
        } else {
            t
        }
    } else {
        Tokenizer { buffer: t.buffer.push(c), ..t }
    }
}

/// The tokenizer after all of `s`.
pub open spec fn tok_run(s: Seq<char>, arguments: bool) -> Tokenizer
    decreases s.len(),
{
    if s.len() == 0 {
        Tokenizer {
            elements: Seq::empty(),
            buffer: Seq::empty(),
            quoted: false,
            brackets: 0,
            parens: 0,
        }
    } else {
        tok_step(tok_run(s.drop_last(), arguments), s.last(), arguments)
    }
}

/// The tokens of `s`.
pub open spec fn tokens(s: Seq<char>, arguments: bool) -> Seq<Seq<char>> {
    let t = tok_run(s, arguments);
    if t.buffer.len() > 0 {
        t.elements.push(t.buffer)
    } else {
        t.elements
    }
}

proof fn lemma_tok_bounds(s: Seq<char>, arguments: bool)
    ensures
        -s.len() <= tok_run(s, arguments).brackets <= s.len(),
        -s.len() <= tok_run(s, arguments).parens <= s.len(),
    decreases s.len(),
{
    if s.len() > 0 {
        lemma_tok_bounds(s.drop_last(), arguments);
    }
}

/// Splits text into tokens (`tokenize_arguments` when `arguments`, the
/// expression tokenizer otherwise).
pub fn tokenize(expr: &str, arguments: bool) -> (r: Vec<String>)
    ensures
        r@.len() == tokens(expr@, arguments).len(),
        forall|k: int| 0 <= k < r@.len() ==> #[trigger] r@[k]@ == tokens(expr@, arguments)[k],
{
    let v = chars_of(expr);
    let mut elements: Vec<String> = Vec::new();
    let mut buffer = String::new();
    let mut quoted = false;
    let mut brackets: i128 = 0;
    let mut parens: i128 = 0;
    let mut i: usize = 0;
    while i < v.len()
        invariant
            i <= v.len(),
            v@ == expr@,
            ({
                let t = tok_run(v@.take(i as int), arguments);
                &&& elements@.len() == t.elements.len()
                &&& forall|k: int| 0 <= k < elements@.len() ==> #[trigger] elements@[k]@ == t.elements[k]
                &&& buffer@ == t.buffer
                &&& quoted == t.quoted
                &&& brackets == t.brackets
                &&& parens == t.parens
            }),
        decreases v.len() - i,
    {
        proof {
            lemma_tok_bounds(v@.take(i as int), arguments);
        }
        assert(v@.take(i + 1).drop_last() =~= v@.take(i as int));
        assert(v@.take(i + 1).last() == v@[i as int]);
        let c = v[i];
        if c == '"' || c == '\'' {
            quoted = !quoted;
            buffer.push('"');
        } else if c == '(' && !quoted {
            brackets = brackets + 1;
            buffer.push('(');
        } else if c == ')' && !quoted {
            brackets = brackets - 1;
            buffer.push(')');
        } else if c == '[' && !quoted {
            parens = parens + 1;
            buffer.push('[');
        } else if c == ']' && !quoted {
            parens = parens - 1;
            buffer.push(']');
        } else if (if arguments {
            c == ','
        } else {
            c == ' ' || c == '\u{3000}'
        }) && !quoted && brackets == 0 && parens == 0 {
            if buffer.as_str().unicode_len() > 0 {
                elements.push(buffer);
                buffer = String::new();
            }
        } else {
            buffer.push(c);
        }
        i += 1;
    }
    assert(v@.take(v.len() as int) =~= v@);
    if buffer.as_str().unicode_len() > 0 {
        elements.push(buffer);
    }
    elements
}

/// `tokenize_arguments`: the comma-separated arguments of a parameter list.
pub fn tokenize_arguments(expr: &str) -> (r: Vec<String>)
    ensures
        r@.len() == tokens(expr@, true).len(),
        forall|k: int| 0 <= k < r@.len() ==> #[trigger] r@[k]@ == tokens(expr@, true)[k],
{
    tokenize(expr, true)
}

/// A token that is neither an operator nor a name: `true`, `false`, or a
/// text with its quotes removed.
pub open spec fn literal(item: Seq<char>) -> Val {
    if item == "true"@ {
        Val::Bool(true)
    } else if item == "false"@ {
        Val::Bool(false)
    } else {
        Val::Text(remove_all(remove_all(item, '\''), '"'))
    }
}

/// The value of a literal token.
pub fn literal_value(item: &str) -> (r: Type)
    ensures
        r@ == literal(item@),
{
    let s = String::from_str(item);
    if s == text("true") {
        Type::Bool(true)
    } else if s == text("false") {
        Type::Bool(false)
    } else {
        let a = remove_all_text(item, '\'');
        Type::String(remove_all_text(a.as_str(), '"'))
    }
}

/// The binary64 operations that the host carries out.
pub enum ArithOp {
    Add,
    Sub,
    Mul,
    Div,
    Rem,
    Pow,
}

/// What the machine asks for after a token.
pub enum Step {
    /// Go on with the next token.
    Continue,
    /// The evaluation ends with this result.
    Finish(ReturnValue),
    /// Call the standard function with these arguments, then `resume`.
    CallStd(String, Vec<Type>),
    /// Call the user function at this position with these arguments, then `resume`.
    CallUser(usize, Vec<Type>),
    /// Push the number `op(x, y)`, computed in binary64, with `push_number`.
    Arith(ArithOp, u64, u64),
    /// Look up the index expression in the sequence value, then `resume`.
    Index(Type, String),
}

/// The content of a step.
pub enum StepView {
    Continue,
    Finish(Returned),
    CallStd(Seq<char>, Seq<Val>),
    CallUser(usize, Seq<Val>),
    Arith(ArithOp, u64, u64),
    Index(Val, Seq<char>),
}

impl View for Step {
    type V = StepView;

    open spec fn view(&self) -> StepView {
        match self {
            Step::Continue => StepView::Continue,
            Step::Finish(r) => StepView::Finish(r@),
            Step::CallStd(n, a) => StepView::CallStd(n@, vals_of(a@)),
            Step::CallUser(p, a) => StepView::CallUser(*p, vals_of(a@)),
            Step::Arith(op, x, y) => StepView::Arith(*op, *x, *y),
            Step::Index(s, e) => StepView::Index(s@, e@),
        }
    }
}

/// The `~` operator on the address `b`: the value stored at the rounded
/// address, as `access` gives it, pushed onto `base`; or the end of the
/// evaluation with `access`'s error.
pub open spec fn tilde_step(base: Seq<Val>, b: u64, mem: Memory) -> (Seq<Val>, StepView) {
    match access_spec(Val::Number(b), mem, ExecutionMode::Script).0 {
        StdNeed::Done(Returned::Value(v)) => (base.push(v), StepView::Continue),
        StdNeed::Done(r) => (base, StepView::Finish(r)),
        _ => (base, StepView::Finish(Returned::Nothing)),
    }
}

/// The address that a `~` token reads, when it is one: the number on top of
/// the stack (below another number), or 0 for a lone value that is not a
/// number.
pub open spec fn tilde_address(st: Seq<Val>, item: Seq<char>, parsed: Option<u64>, mem: Memory) -> Option<u64> {
    if item == "~"@ && !names_function(mem, item) && parsed is None && var_of(mem, item) is None {
        if st.len() >= 2 {
            match (st.last(), st.drop_last().last()) {
                (Val::Number(y), Val::Number(_)) => Some(y),
                _ => None,
            }
        } else if st.len() == 1 {
            match st.last() {
                Val::Number(y) => Some(y),
                _ => Some(0),
            }
        } else {
            None
        }
    } else {
        None
    }
}

/// The error of mismatched operand types.
pub open spec fn mismatch_error() -> Seq<char> {
    "エラー!型が一致しません"@
}

/// The index expression of a token `name[index]`: the token without its
/// last character and its first `[`.
pub open spec fn index_expr(item: Seq<char>) -> Seq<char> {
    remove_first(item.drop_last(), "["@)
}

/// The token holds both `[` and `]`.
pub open spec fn is_index(item: Seq<char>) -> bool {
    contains(item, "["@) && contains(item, "]"@)
}

/// The top `count` values below the top of the stack, top first: the
/// arguments of a call.
pub open spec fn call_args(st: Seq<Val>, count: nat) -> Seq<Val> {
    st.subrange(st.len() - 1 - count, st.len() - 1).reverse()
}

/// A binary operator token applied to `x` (below) and `y` (top): the values
/// pushed, and the step.
pub open spec fn binary_spec(x: Val, y: Val, item: Seq<char>) -> (Seq<Val>, StepView) {
    let lit = seq![x, y, literal(item)];
    match (y, x) {
        (Val::Text(ys), Val::Text(xs)) => if item == "+"@ {
            (seq![Val::Text(xs + ys)], StepView::Continue)
        } else if item == "="@ {
            (seq![Val::Bool(xs == ys)], StepView::Continue)
        } else if item == ">"@ {
            (seq![Val::Bool(text_lt(ys, xs))], StepView::Continue)
        } else if item == "<"@ {
            (seq![Val::Bool(text_lt(xs, ys))], StepView::Continue)
        } else {
            (lit, StepView::Continue)
        },
        (Val::Bool(yb), Val::Bool(xb)) => if item == "&"@ {
            (seq![Val::Bool(xb && yb)], StepView::Continue)
        } else if item == "="@ {
            (seq![Val::Bool(xb == yb)], StepView::Continue)
        } else if item == "|"@ {
            (seq![Val::Bool(xb || yb)], StepView::Continue)
        } else if item == "!"@ {
            (seq![Val::Bool(xb), Val::Bool(!yb)], StepView::Continue)
        } else {
            (lit, StepView::Continue)
        },
        (Val::Number(yn), Val::Number(xn)) => if item == "+"@ {
            (Seq::empty(), StepView::Arith(ArithOp::Add, xn, yn))
        } else if item == "-"@ {
            (Seq::empty(), StepView::Arith(ArithOp::Sub, xn, yn))
        } else if item == "*"@ {
            (Seq::empty(), StepView::Arith(ArithOp::Mul, xn, yn))
        } else if item == "/"@ {
            (Seq::empty(), StepView::Arith(ArithOp::Div, xn, yn))
        } else if item == "%"@ {
            (Seq::empty(), StepView::Arith(ArithOp::Rem, xn, yn))
        } else if item == "^"@ {
            (Seq::empty(), StepView::Arith(ArithOp::Pow, xn, yn))
        } else if item == "="@ {
            (seq![Val::Bool(num_eq(xn, yn))], StepView::Continue)
        } else if item == ">"@ {
            (seq![Val::Bool(num_lt(yn, xn))], StepView::Continue)
        } else if item == "<"@ {
            (seq![Val::Bool(num_lt(xn, yn))], StepView::Continue)
        } else {
            (lit, StepView::Continue)
        },
        (_, Val::List(xl)) => if item == "+"@ {
            (seq![Val::List(xl.push(y))], StepView::Continue)
        } else {
            (lit, StepView::Continue)
        },
        _ => (Seq::empty(), StepView::Finish(Returned::Error(mismatch_error()))),
    }
}

/// What a binary operator token prints.
pub open spec fn binary_logs(x: Val, y: Val, item: Seq<char>, mode: ExecutionMode) -> Seq<
    Seq<PieceView>,
> {
    match (y, x) {
        (Val::Text(_), Val::Text(_)) => Seq::empty(),
        (Val::Bool(_), Val::Bool(_)) => Seq::empty(),
        (Val::Number(_), Val::Number(_)) => Seq::empty(),
        (_, Val::List(_)) => Seq::empty(),
        _ => logs(mode, seq![mismatch_error()]),
    }
}

/// A unary operator token applied to `y` (the only value): the values
/// pushed, and the step.
pub open spec fn unary_spec(y: Val, item: Seq<char>) -> (Seq<Val>, StepView) {
    if item == "!"@ {
        (seq![Val::Bool(!(y matches Val::Bool(b) && b))], StepView::Continue)
    } else {
        (seq![y, literal(item)], StepView::Continue)
    }
}

/// What a unary operator token prints.
pub open spec fn unary_logs(y: Val, item: Seq<char>, mode: ExecutionMode) -> Seq<Seq<PieceView>> {
    if item == "!"@ {
        if y is Bool {
            Seq::empty()
        } else {
            seq![text_line("型が一致しません"@)]
        }
    } else {
        Seq::empty()
    }
}

/// The variable that a token names, if any.
pub open spec fn var_of(mem: Memory, item: Seq<char>) -> Option<int> {
    first_index(var_names(mem.memory@), name_key(item))
}

/// The token names a variable that holds a function.
pub open spec fn names_function(mem: Memory, item: Seq<char>) -> bool {
    var_of(mem, item) matches Some(i) && mem.memory@[i].value@ is Function
}

/// One token of evaluation: the stack after it, and the step. `parsed` is
/// the token read as a number literal, if it is one.
pub open spec fn eval_step(st: Seq<Val>, item: Seq<char>, parsed: Option<u64>, mem: Memory) -> (
    Seq<Val>,
    StepView,
) {
    let funcs = funcs_view(mem.name_space@);
    if item == "()"@ {
        if st.len() == 0 {
            (st, StepView::Finish(Returned::Error("エラー! スタックが空です"@)))
        } else {
            let rest = st.drop_last();
            match st.last() {
                Val::Text(name) => {
                    let n = std_args_len(name);
                    (rest.subrange(0, rest.len() - n), StepView::CallStd(name, call_args(st, n)))
                },
                Val::Function(p) => {
                    let n = funcs[p as int].args.len();
                    (rest.subrange(0, rest.len() - n), StepView::CallUser(p, call_args(st, n)))
                },
                _ => (
                    rest,
                    StepView::Finish(Returned::Error("エラー! 関数オブジェクトのみ呼び出し可能です"@)),
                ),
            }
        }
    } else if names_function(mem, item) {
        (st.push(mem.memory@[var_of(mem, item).unwrap()].value@), StepView::Continue)
    } else if parsed is Some {
        (st.push(Val::Number(parsed.unwrap())), StepView::Continue)
    } else if var_of(mem, item) is Some {
        (st.push(mem.memory@[var_of(mem, item).unwrap()].value@), StepView::Continue)
    } else if st.len() >= 2 {
        let y = st.last();
        let x = st.drop_last().last();
        let base = st.drop_last().drop_last();
        if is_index(item) {
            (base.push(x), StepView::Index(y, index_expr(item)))
        } else if item == "~"@ && x is Number && y is Number {
            tilde_step(base.push(x), y->Number_0, mem)
        } else {
            let (pushed, step) = binary_spec(x, y, item);
            (base + pushed, step)
        }
    } else if st.len() == 1 {
        let y = st.last();
        if is_index(item) {
            (Seq::empty(), StepView::Index(y, index_expr(item)))
        } else if item == "~"@ {
            tilde_step(Seq::empty(), if y is Number { y->Number_0 } else { 0 }, mem)
        } else {
            let (pushed, step) = unary_spec(y, item);
            (pushed, step)
        }
    } else {
        (seq![literal(item)], StepView::Continue)
    }
}

/// What one token of evaluation prints.
pub open spec fn eval_step_logs(st: Seq<Val>, item: Seq<char>, parsed: Option<u64>, mem: Memory, mode: ExecutionMode) -> Seq<Seq<PieceView>> {
    if item == "()"@ {
        Seq::empty()
    } else {
        let lookup = if var_of(mem, item) is None {
            logs(mode, seq!["変数"@ + name_key(item) + "が見つかりません"@])
        } else {
            Seq::empty()
        };
        lookup + if names_function(mem, item) || parsed is Some {
            Seq::empty()
        } else if var_of(mem, item) is Some {
            logs(mode, seq!["変数"@ + item + "を読み込みます"@])
        } else if tilde_address(st, item, parsed, mem) is Some {
            (if st.len() == 1 && !(st.last() is Number) { seq![text_line("型が一致しません"@)] } else { Seq::empty() })
                + access_spec(Val::Number(tilde_address(st, item, parsed, mem)->0), mem, mode).1
        } else if st.len() >= 2 && !is_index(item) {
            binary_logs(st.drop_last().last(), st.last(), item, mode)
        } else if st.len() == 1 && !is_index(item) {
            unary_logs(st.last(), item, mode)
        } else {
            Seq::empty()
        }
    }
}

/// The token stops the interpreter: a call with too few
/// values on the stack or through a dangling function pointer, an index
/// token whose last character takes more than one byte, or a `~` whose
/// rounded address is the largest `usize`.
pub open spec fn step_panics(st: Seq<Val>, item: Seq<char>, parsed: Option<u64>, mem: Memory) -> bool {
    if tilde_address(st, item, parsed, mem) is Some {
        clamp_usize(round_u64(tilde_address(st, item, parsed, mem)->0)) == usize::MAX
    } else if item == "()"@ {
        st.len() > 0 && match st.last() {
            Val::Text(name) => st.len() - 1 < std_args_len(name),
            Val::Function(p) => p >= mem.name_space@.len() || st.len() - 1
                < mem.name_space@[p as int].args@.len(),
            _ => false,
        }
    } else {
        !names_function(mem, item) && parsed is None && var_of(mem, item) is None && st.len() >= 1
            && is_index(item) && item.last() as u32 >= 0x80
    }
}

proof fn lemma_tilde_not_index()
    ensures
        !contains("~"@, "["@),
{
    reveal_strlit("~");
    reveal_strlit("[");
    assert forall|i: int| !occurs_at("~"@, "["@, i) by {
        if occurs_at("~"@, "["@, i) {
            assert("~"@.subrange(i, i + 1)[0] == "["@[0]);
        }
    }
}

/// An evaluation ends only in a value or an error, never in a control
/// value: a token that ends it ends it with an error (on the tokens where
/// the interpreter does not stop), `resume` ends it only with the error of
/// a call, and `finish` gives the value on top of the stack, 0 for an
/// empty expression.
pub proof fn law_evaluation_ends_in_value_or_error(st: Seq<Val>, item: Seq<char>, parsed: Option<u64>, mem: Memory)
    requires
        !step_panics(st, item, parsed, mem),
    ensures
        eval_step(st, item, parsed, mem).1 matches StepView::Finish(r) ==> r is Error,
        result_of(Seq::<Val>::empty()) == Val::Number(0),
{
    reveal_strlit("~");
    reveal_strlit("()");
    reveal_strlit("[");
    lemma_tilde_not_index();
}

/// A token other than `()` never asks for a call. Every step reads the
/// memory and the functions without changing them, so an evaluation whose
/// tokens hold no `()` leaves both as they were; only the calls that the
/// host carries out for `()` change them.
pub proof fn law_call_free_steps(st: Seq<Val>, item: Seq<char>, parsed: Option<u64>, mem: Memory)
    requires
        item != "()"@,
    ensures
        !(eval_step(st, item, parsed, mem).1 is CallStd),
        !(eval_step(st, item, parsed, mem).1 is CallUser),
{
}

/// The answers left after one is taken (none are taken from none).
pub open spec fn after_answer(answers: Seq<Returned>) -> Seq<Returned> {
    if answers.len() > 0 {
        answers.drop_first()
    } else {
        answers
    }
}

/// The next answer of the host (nothing when none are left).
pub open spec fn next_answer(answers: Seq<Returned>) -> Returned {
    if answers.len() > 0 {
        answers[0]
    } else {
        Returned::Nothing
    }
}

/// A whole evaluation of the tokens `items` from the stack `st`, as the
/// host drives it: token `k` is read as the number `parsed[k]`, if it is
/// one, and evaluated against the memory `mems[k]` as it stands then; a
/// step that asks the host for work (arithmetic, a call, an index lookup)
/// takes the next of `answers` as `resume` does (an error ends the
/// evaluation, a value is pushed, anything else pushes 0); after the last
/// token, `finish` gives the value on top of the stack.
pub open spec fn run_evaluation(st: Seq<Val>, items: Seq<Seq<char>>, parsed: Seq<Option<u64>>, mems: Seq<Memory>, answers: Seq<Returned>) -> Returned
    decreases items.len(),
{
    if items.len() == 0 {
        Returned::Value(result_of(st))
    } else {
        let (next, step) = eval_step(st, items[0], parsed[0], mems[0]);
        match step {
            StepView::Finish(r) => r,
            StepView::Continue => run_evaluation(next, items.drop_first(), parsed.drop_first(), mems.drop_first(), answers),
            _ => match next_answer(answers) {
                Returned::Error(e) => Returned::Error(e),
                Returned::Value(v) => run_evaluation(next.push(v), items.drop_first(), parsed.drop_first(), mems.drop_first(), after_answer(answers)),
                _ => run_evaluation(next.push(Val::Number(0)), items.drop_first(), parsed.drop_first(), mems.drop_first(), after_answer(answers)),
            },
        }
    }
}

/// Whether some step that the evaluation reaches stops the interpreter.
pub open spec fn run_panics(st: Seq<Val>, items: Seq<Seq<char>>, parsed: Seq<Option<u64>>, mems: Seq<Memory>, answers: Seq<Returned>) -> bool
    decreases items.len(),
{
    if items.len() == 0 {
        false
    } else if step_panics(st, items[0], parsed[0], mems[0]) {
        true
    } else {
        let (next, step) = eval_step(st, items[0], parsed[0], mems[0]);
        match step {
            StepView::Finish(_) => false,
            StepView::Continue => run_panics(next, items.drop_first(), parsed.drop_first(), mems.drop_first(), answers),
            _ => match next_answer(answers) {
                Returned::Error(_) => false,
                Returned::Value(v) => run_panics(next.push(v), items.drop_first(), parsed.drop_first(), mems.drop_first(), after_answer(answers)),
                _ => run_panics(next.push(Val::Number(0)), items.drop_first(), parsed.drop_first(), mems.drop_first(), after_answer(answers)),
            },
        }
    }
}

/// Whether some step that the evaluation reaches asks for a call.
pub open spec fn run_calls(st: Seq<Val>, items: Seq<Seq<char>>, parsed: Seq<Option<u64>>, mems: Seq<Memory>, answers: Seq<Returned>) -> bool
    decreases items.len(),
{
    if items.len() == 0 {
        false
    } else {
        let (next, step) = eval_step(st, items[0], parsed[0], mems[0]);
        match step {
            StepView::Finish(_) => false,
            StepView::Continue => run_calls(next, items.drop_first(), parsed.drop_first(), mems.drop_first(), answers),
            _ => step is CallStd || step is CallUser || match next_answer(answers) {
                Returned::Error(_) => false,
                Returned::Value(v) => run_calls(next.push(v), items.drop_first(), parsed.drop_first(), mems.drop_first(), after_answer(answers)),
                _ => run_calls(next.push(Val::Number(0)), items.drop_first(), parsed.drop_first(), mems.drop_first(), after_answer(answers)),
            },
        }
    }
}

/// A whole evaluation, whatever the host answers, ends in a value or an
/// error, never in a control value, unless the interpreter stops on the
/// way; one with no tokens gives the value on top of the stack, 0 for an
/// empty stack.
pub proof fn law_whole_evaluation_ends_in_value_or_error(st: Seq<Val>, items: Seq<Seq<char>>, parsed: Seq<Option<u64>>, mems: Seq<Memory>, answers: Seq<Returned>)
    requires
        !run_panics(st, items, parsed, mems, answers),
    ensures
        run_evaluation(st, items, parsed, mems, answers) is Value || run_evaluation(st, items, parsed, mems, answers) is Error,
        run_evaluation(Seq::empty(), Seq::empty(), parsed, mems, answers) == Returned::Value(Val::Number(0)),
    decreases items.len(),
{
    if items.len() > 0 {
        law_evaluation_ends_in_value_or_error(st, items[0], parsed[0], mems[0]);
        let (next, step) = eval_step(st, items[0], parsed[0], mems[0]);
        match step {
            StepView::Finish(_) => {},
            StepView::Continue => {
                law_whole_evaluation_ends_in_value_or_error(next, items.drop_first(), parsed.drop_first(), mems.drop_first(), answers);
            },
            _ => match next_answer(answers) {
                Returned::Error(_) => {},
                Returned::Value(v) => {
                    law_whole_evaluation_ends_in_value_or_error(next.push(v), items.drop_first(), parsed.drop_first(), mems.drop_first(), after_answer(answers));
                },
                _ => {
                    law_whole_evaluation_ends_in_value_or_error(next.push(Val::Number(0)), items.drop_first(), parsed.drop_first(), mems.drop_first(), after_answer(answers));
                },
            },
        }
    }
}

/// A whole evaluation whose tokens hold no `()` asks for no call, whatever
/// the host answers. Its steps read the memory and the functions without
/// changing them and only a call changes them, so every token is evaluated
/// against the memory it started with, which it leaves as it was.
pub proof fn law_call_free_evaluation(st: Seq<Val>, items: Seq<Seq<char>>, parsed: Seq<Option<u64>>, mems: Seq<Memory>, answers: Seq<Returned>)
    requires
        forall|k: int| 0 <= k < items.len() ==> #[trigger] items[k] != "()"@,
    ensures
        !run_calls(st, items, parsed, mems, answers),
    decreases items.len(),
{
    if items.len() > 0 {
        law_call_free_steps(st, items[0], parsed[0], mems[0]);
        let rest = items.drop_first();
        assert forall|k: int| 0 <= k < rest.len() implies #[trigger] rest[k] != "()"@ by {
            assert(rest[k] == items[k + 1]);
        }
        let (next, step) = eval_step(st, items[0], parsed[0], mems[0]);
        match step {
            StepView::Finish(_) => {},
            StepView::Continue => {
                law_call_free_evaluation(next, rest, parsed.drop_first(), mems.drop_first(), answers);
            },
            _ => match next_answer(answers) {
                Returned::Error(_) => {},
                Returned::Value(v) => {
                    law_call_free_evaluation(next.push(v), rest, parsed.drop_first(), mems.drop_first(), after_answer(answers));
                },
                _ => {
                    law_call_free_evaluation(next.push(Val::Number(0)), rest, parsed.drop_first(), mems.drop_first(), after_answer(answers));
                },
            },
        }
    }
}

/// The concatenation of texts, in order.
pub open spec fn concat(parts: Seq<Seq<char>>) -> Seq<char>
    decreases parts.len(),
{
    if parts.len() == 0 {
        Seq::empty()
    } else {
        concat(parts.drop_last()) + parts.last()
    }
}

/// `s` with every quote (either kind) written `"` and every separator that
/// stands outside quotes and outside brackets dropped.
pub open spec fn kept_chars(s: Seq<char>, arguments: bool) -> Seq<char>
    decreases s.len(),
{
    if s.len() == 0 {
        Seq::empty()
    } else {
        let t = tok_run(s.drop_last(), arguments);
        let c = s.last();
        let rest = kept_chars(s.drop_last(), arguments);
        if c == '"' || c == '\'' {
            rest.push('"')
        } else if is_separator(c, arguments) && !t.quoted && t.brackets == 0 && t.parens == 0 {
            rest
        } else {
            rest.push(c)
        }
    }
}

proof fn lemma_tok_run_kept(s: Seq<char>, arguments: bool)
    ensures
        concat(tok_run(s, arguments).elements) + tok_run(s, arguments).buffer == kept_chars(s, arguments),
        forall|k: int| 0 <= k < tok_run(s, arguments).elements.len() ==> #[trigger] tok_run(s, arguments).elements[k].len() > 0,
    decreases s.len(),
{
    if s.len() == 0 {
        assert(concat(Seq::<Seq<char>>::empty()) + Seq::<char>::empty() =~= Seq::<char>::empty());
    } else {
        let p = s.drop_last();
        lemma_tok_run_kept(p, arguments);
        let t = tok_run(p, arguments);
        let c = s.last();
        let u = tok_step(t, c, arguments);
        assert(tok_run(s, arguments) == u);
        if u.elements == t.elements {
            assert(concat(t.elements) + u.buffer =~= kept_chars(s, arguments));
        } else {
            assert(u.elements == t.elements.push(t.buffer));
            assert(u.elements.drop_last() =~= t.elements);
            assert(concat(u.elements) == concat(t.elements) + t.buffer);
            assert(concat(u.elements) + u.buffer =~= kept_chars(s, arguments));
        }
    }
}

/// Tokenizing loses nothing but separators: no token is empty, and the
/// tokens put together give the text back with each quote written `"` and
/// each separator outside quotes and brackets (a top-level comma, for
/// `tokenize_arguments`) removed.
pub proof fn law_tokens_cover_input(s: Seq<char>, arguments: bool)
    ensures
        forall|k: int| 0 <= k < tokens(s, arguments).len() ==> #[trigger] tokens(s, arguments)[k].len() > 0,
        concat(tokens(s, arguments)) == kept_chars(s, arguments),
{
    lemma_tok_run_kept(s, arguments);
    let t = tok_run(s, arguments);
    if t.buffer.len() > 0 {
        assert(t.elements.push(t.buffer).drop_last() =~= t.elements);
    } else {
        assert(concat(t.elements) + t.buffer =~= concat(t.elements));
    }
}

proof fn lemma_one_char_not_index(s: Seq<char>)
    requires
        s.len() == 1,
        s[0] != '[',
    ensures
        !contains(s, "["@),
{
    reveal_strlit("[");
    assert forall|i: int| !occurs_at(s, "["@, i) by {
        if occurs_at(s, "["@, i) {
            assert(s.subrange(i, i + 1)[0] == "["@[0]);
        }
    }
}

/// With two numbers on top of the stack, `x` below `y`, an operator token
/// (one that names no variable) takes the lower operand first: the
/// arithmetic tokens `+ - * / % ^` ask the host for `x op y` (so `10 2 /`
/// asks for 10 / 2) and leave the rest of the stack, and the comparisons
/// push whether `x = y`, `x < y` and `x > y`.
pub proof fn law_operands_in_stack_order(base: Seq<Val>, x: u64, y: u64, item: Seq<char>, mem: Memory)
    requires
        var_of(mem, item) is None,
    ensures
        ({
            let st = base.push(Val::Number(x)).push(Val::Number(y));
            let r = eval_step(st, item, None, mem);
            &&& item == "+"@ ==> r.0 == base && r.1 == StepView::Arith(ArithOp::Add, x, y)
            &&& item == "-"@ ==> r.0 == base && r.1 == StepView::Arith(ArithOp::Sub, x, y)
            &&& item == "*"@ ==> r.0 == base && r.1 == StepView::Arith(ArithOp::Mul, x, y)
            &&& item == "/"@ ==> r.0 == base && r.1 == StepView::Arith(ArithOp::Div, x, y)
            &&& item == "%"@ ==> r.0 == base && r.1 == StepView::Arith(ArithOp::Rem, x, y)
            &&& item == "^"@ ==> r.0 == base && r.1 == StepView::Arith(ArithOp::Pow, x, y)
            &&& item == "="@ ==> r.0 == base.push(Val::Bool(num_eq(x, y))) && r.1 == StepView::Continue
            &&& item == "<"@ ==> r.0 == base.push(Val::Bool(num_lt(x, y))) && r.1 == StepView::Continue
            &&& item == ">"@ ==> r.0 == base.push(Val::Bool(num_lt(y, x))) && r.1 == StepView::Continue
        }),
{
    reveal_strlit("+");
    reveal_strlit("-");
    reveal_strlit("*");
    reveal_strlit("/");
    reveal_strlit("%");
    reveal_strlit("^");
    reveal_strlit("=");
    reveal_strlit("<");
    reveal_strlit(">");
    reveal_strlit("~");
    reveal_strlit("()");
    let st = base.push(Val::Number(x)).push(Val::Number(y));
    assert(st.drop_last().drop_last() =~= base);
    assert(st.last() == Val::Number(y));
    assert(st.drop_last().last() == Val::Number(x));
    if item.len() == 1 && item[0] != '[' {
        lemma_one_char_not_index(item);
    }
    assert(base + Seq::<Val>::empty() =~= base);
    assert(base + seq![Val::Bool(num_eq(x, y))] =~= base.push(Val::Bool(num_eq(x, y))));
    assert(base + seq![Val::Bool(num_lt(x, y))] =~= base.push(Val::Bool(num_lt(x, y))));
    assert(base + seq![Val::Bool(num_lt(y, x))] =~= base.push(Val::Bool(num_lt(y, x))));
}

/// `+` joins two texts in stack order, the lower one first (`'a' 'b' +`
/// gives `ab`), and appends the top value to a list below it.
pub proof fn law_plus_keeps_stack_order(base: Seq<Val>, a: Seq<char>, c: Seq<char>, l: Seq<Val>, y: Val, mem: Memory)
    requires
        var_of(mem, "+"@) is None,
    ensures
        eval_step(base.push(Val::Text(a)).push(Val::Text(c)), "+"@, None, mem) == (base.push(Val::Text(a + c)), StepView::Continue),
        eval_step(base.push(Val::List(l)).push(y), "+"@, None, mem) == (base.push(Val::List(l.push(y))), StepView::Continue),
{
    reveal_strlit("+");
    reveal_strlit("~");
    reveal_strlit("()");
    lemma_one_char_not_index("+"@);
    let st = base.push(Val::Text(a)).push(Val::Text(c));
    assert(st.drop_last().drop_last() =~= base);
    assert(base + seq![Val::Text(a + c)] =~= base.push(Val::Text(a + c)));
    let st2 = base.push(Val::List(l)).push(y);
    assert(st2.drop_last().drop_last() =~= base);
    assert(base + seq![Val::List(l.push(y))] =~= base.push(Val::List(l.push(y))));
}

/// An evaluation in progress: the tokens, the next one, and the stack.
pub struct Evaluation {
    pub tokens: Vec<String>,
    pub next: usize,
    pub stack: Vec<Type>,
}

/// The contents of the stack, bottom first.
pub open spec fn stack_view(e: Evaluation) -> Seq<Val> {
    vals_of(e.stack@)
}

/// The token's text with surrounding white space removed, and whether it
/// is a token to evaluate (not empty once trimmed).
pub open spec fn item_of(tok: Seq<char>) -> Seq<char> {
    trim(tok)
}

proof fn lemma_vals_push(s: Seq<Type>, t: Type)
    ensures
        vals_of(s.push(t)) == vals_of(s).push(t@),
{
    assert(vals_of(s.push(t)) =~= vals_of(s).push(t@));
}

proof fn lemma_vals_drop_last(s: Seq<Type>)
    requires
        s.len() > 0,
    ensures
        vals_of(s.drop_last()) == vals_of(s).drop_last(),
        vals_of(s).last() == s.last()@,
{
    assert(vals_of(s.drop_last()) =~= vals_of(s).drop_last());
}

impl Evaluation {
    /// Starts evaluating an expression: splits it into tokens.
    pub fn compute(expr: &str, mode: &ExecutionMode, out: &mut Vec<Vec<Piece>>) -> (r: Evaluation)
        ensures
            r.tokens@.len() == tokens(expr@, false).len(),
            forall|k: int| 0 <= k < r.tokens@.len() ==> #[trigger] r.tokens@[k]@ == tokens(expr@, false)[k],
            r.next == 0,
            r.stack@.len() == 0,
            lines_view(final(out)@) == lines_view(old(out)@) + logs(*mode, seq!["+-- 式を計算します"@]),
    {
        let tokens = tokenize(expr, false);
        log_print(mode, text("+-- 式を計算します"), out);
        Evaluation { tokens, next: 0, stack: Vec::new() }
    }

    /// Every function value on the stack points into the name space.
    pub fn stack_pointers_valid(&self, mem: &Memory) -> (r: bool)
        ensures
            r == forall|k: int| 0 <= k < self.stack@.len() ==> pointers_ok(#[trigger] self.stack@[k]@, mem.name_space@.len()),
    {
        let mut i: usize = 0;
        while i < self.stack.len()
            invariant
                i <= self.stack@.len(),
                forall|k: int| 0 <= k < i ==> pointers_ok(#[trigger] self.stack@[k]@, mem.name_space@.len()),
            decreases self.stack.len() - i,
        {
            if !crate::display::pointers_valid(&self.stack[i], mem) {
                return false;
            }
            i += 1;
        }
        true
    }

    /// Whether a token to evaluate remains (one that is not empty once
    /// trimmed): before it, the commented modes show the stack.
    pub fn pending_item(&self) -> (r: bool)
        ensures
            r == exists|k: int| self.next <= k < self.tokens@.len() && #[trigger] item_of(self.tokens@[k]@).len() > 0,
    {
        let mut i = self.next;
        while i < self.tokens.len()
            invariant
                self.next <= i <= self.tokens@.len() || (i == self.next && self.next > self.tokens@.len()),
                forall|k: int| self.next <= k < i ==> #[trigger] item_of(self.tokens@[k]@).len() == 0,
            decreases self.tokens.len() - i,
        {
            let t = trim_text(self.tokens[i].as_str());
            if t.as_str().unicode_len() > 0 {
                assert(item_of(self.tokens@[i as int]@).len() > 0);
                return true;
            }
            i += 1;
        }
        false
    }

    /// Whether the result can be written: the functions it names exist.
    pub fn result_pointers_valid(&self, mem: &Memory) -> (r: bool)
        ensures
            r == pointers_ok(result_of(stack_view(*self)), mem.name_space@.len()),
    {
        let n = self.stack.len();
        if n == 0 {
            return true;
        }
        proof { lemma_vals_drop_last(self.stack@); }
        crate::display::pointers_valid(&self.stack[n - 1], mem)
    }

    /// The next token to evaluate, trimmed; empty tokens are passed over.
    /// In the commented modes, prints the stack and the token.
    pub fn next_item(&mut self, mem: &Memory, mode: &ExecutionMode, out: &mut Vec<Vec<Piece>>) -> (r: Option<String>)
        requires
            old(self).next <= old(self).tokens@.len(),
            !(*mode is Script) && (exists|k: int| old(self).next <= k < old(self).tokens@.len() && #[trigger] item_of(old(self).tokens@[k]@).len() > 0)
                ==> forall|k: int| 0 <= k < old(self).stack@.len() ==> pointers_ok(#[trigger] old(self).stack@[k]@, mem.name_space@.len()),
        ensures
            final(self).tokens == old(self).tokens,
            final(self).stack == old(self).stack,
            old(self).next <= final(self).next <= old(self).tokens@.len(),
            forall|k: int| old(self).next <= k < final(self).next - (if r is Some { 1int } else { 0 }) ==> item_of(#[trigger] old(self).tokens@[k]@).len() == 0,
            match r {
                Some(item) => final(self).next >= 1 && item@ == item_of(old(self).tokens@[final(self).next - 1]@) && item@.len() > 0
                    && lines_view(final(out)@) == lines_view(old(out)@) + (if *mode is Script { Seq::empty() } else { seq![stack_line(vals_of(old(self).stack@), item@, funcs_view(mem.name_space@))] }),
                None => final(self).next == old(self).tokens@.len() && lines_view(final(out)@) == lines_view(old(out)@),
            },
    {
        while self.next < self.tokens.len()
            invariant
                self.tokens == old(self).tokens,
                self.stack == old(self).stack,
                old(self).next <= self.next <= self.tokens@.len(),
                forall|k: int| old(self).next <= k < self.next ==> item_of(#[trigger] old(self).tokens@[k]@).len() == 0,
                out == old(out),
                !(*mode is Script) && (exists|k: int| old(self).next <= k < old(self).tokens@.len() && #[trigger] item_of(old(self).tokens@[k]@).len() > 0)
                    ==> forall|k: int| 0 <= k < old(self).stack@.len() ==> pointers_ok(#[trigger] old(self).stack@[k]@, mem.name_space@.len()),
            decreases self.tokens.len() - self.next,
        {
            let item = trim_text(self.tokens[self.next].as_str());
            self.next = self.next + 1;
            if item.as_str().unicode_len() > 0 {
                assert(item_of(old(self).tokens@[self.next - 1]@).len() > 0);
                if !mode.is_script() {
                    let line = self.stack_display(&item, mem);
                    out.push(line);
                    assert(lines_view(out@) =~= lines_view(old(out)@) + seq![stack_line(vals_of(old(self).stack@), item@, funcs_view(mem.name_space@))]);
                } else {
                    assert(lines_view(out@) =~= lines_view(old(out)@) + Seq::<Seq<PieceView>>::empty());
                }
                return Some(item);
            }
        }
        None
    }

    /// The line showing the stack and the token.
    fn stack_display(&self, item: &String, mem: &Memory) -> (r: Vec<Piece>)
        requires
            forall|k: int| 0 <= k < self.stack@.len() ==> pointers_ok(#[trigger] self.stack@[k]@, mem.name_space@.len()),
        ensures
            crate::types::line_view(r) == stack_line(vals_of(self.stack@), item@, funcs_view(mem.name_space@)),
    {
        let ghost funcs = funcs_view(mem.name_space@);
        let ghost st = vals_of(self.stack@);
        let ghost parts = Seq::new(st.len(), |k: int| value_pieces(st[k], funcs, false));
        let mut r: Vec<Piece> = Vec::new();
        r.push(Piece::Text(text("| Stack〔")));
        let ghost start = crate::types::line_view(r);
        let mut i: usize = 0;
        assert(parts.take(0) =~= Seq::<Seq<PieceView>>::empty());
        while i < self.stack.len()
            invariant
                i <= self.stack@.len(),
                st == vals_of(self.stack@),
                st.len() == self.stack@.len(),
                funcs == funcs_view(mem.name_space@),
                parts == Seq::new(st.len(), |k: int| value_pieces(st[k], funcs, false)),
                forall|k: int| 0 <= k < self.stack@.len() ==> pointers_ok(#[trigger] self.stack@[k]@, mem.name_space@.len()),
                crate::types::line_view(r) == start + crate::display::join_pieces(parts.take(i as int), ", "@),
            decreases self.stack.len() - i,
        {
            let ghost before = crate::types::line_view(r);
            if i > 0 {
                r.push(Piece::Text(text(", ")));
                assert(crate::types::line_view(r) =~= before + seq![PieceView::Text(", "@)]);
            }
            assert(st[i as int] == self.stack@[i as int]@);
            type_string(&self.stack[i], mem, false, &mut r);
            proof {
                let t = parts.take(i + 1);
                assert(t.last() == parts[i as int]);
                assert(t.drop_last() =~= parts.take(i as int));
                if i > 0 {
                    assert(crate::display::join_pieces(t, ", "@) == crate::display::join_pieces(t.drop_last(), ", "@) + seq![PieceView::Text(", "@)] + t.last());
                } else {
                    assert(crate::display::join_pieces(t, ", "@) == t[0]);
                }
                assert(crate::types::line_view(r) =~= start + crate::display::join_pieces(parts.take(i + 1), ", "@));
            }
            i += 1;
        }
        assert(parts.take(st.len() as int) =~= parts);
        let ghost body = crate::types::line_view(r);
        let mut tail = text(" 〕←  ");
        tail.append(item.as_str());
        r.push(Piece::Text(tail));
        assert(crate::types::line_view(r) =~= body + seq![PieceView::Text(" 〕←  "@ + item@)]);
        r
    }

    /// Whether the token stops the interpreter (see `step_panics`).
    pub fn would_panic(&self, item: &str, parsed: Option<u64>, mem: &Memory) -> (r: bool)
        ensures
            r == step_panics(stack_view(*self), item@, parsed, *mem),
    {
        if let Some(b) = self.tilde_operand(item, parsed, mem) {
            return crate::float::number_round_to_usize(b) == usize::MAX;
        }
        proof { reveal_strlit("~"); reveal_strlit("()"); }
        let n = self.stack.len();
        proof {
            lemma_list_view(Type::List(self.stack));
        }
        if String::from_str(item) == text("()") {
            if n == 0 {
                return false;
            }
            assert(stack_view(*self).last() == self.stack@[n - 1]@);
            match &self.stack[n - 1] {
                Type::String(name) => n - 1 < std_func_args_len(name),
                Type::Function(p) => *p >= mem.name_space.len() || n - 1 < mem.name_space[*p].args.len(),
                _ => false,
            }
        } else {
            let key = crate::memory::name_key_of(item);
            let found = mem.reference_variable(item);
            let is_fn = match found {
                Some(i) => {
                    proof {
                        crate::types::lemma_val_kind(mem.memory@[i as int].value);
                    }
                    match &mem.memory[i].value {
                        Type::Function(_) => true,
                        _ => false,
                    }
                },
                None => false,
            };
            if is_fn || parsed.is_some() || found.is_some() || n == 0 {
                return false;
            }
            let chars = chars_of(item);
            if !(contains_text(item, "[") && contains_text(item, "]")) {
                return false;
            }
            proof {
                reveal_strlit("[");
            }
            chars[chars.len() - 1] as u32 >= 0x80
        }
    }

    /// Evaluates one token (see `eval_step`).
    pub fn step(&mut self, item: &str, parsed: Option<u64>, mem: &Memory, mode: &ExecutionMode, out: &mut Vec<Vec<Piece>>) -> (r: Step)
        requires
            item@.len() > 0,
            !step_panics(stack_view(*old(self)), item@, parsed, *mem),
        ensures
            final(self).tokens == old(self).tokens,
            final(self).next == old(self).next,
            (stack_view(*final(self)), r@) == eval_step(stack_view(*old(self)), item@, parsed, *mem),
            lines_view(final(out)@) == lines_view(old(out)@) + eval_step_logs(stack_view(*old(self)), item@, parsed, *mem, *mode),
    {
        let ghost st = stack_view(*self);
        proof { reveal_strlit("~"); reveal_strlit("()"); reveal_strlit("["); lemma_tilde_not_index(); }
        if String::from_str(item) == text("()") {
            return self.call_step(mem);
        }
        let ghost funcs = funcs_view(mem.name_space@);
        let looked = mem.get_variable(item, mode, out);
        let ghost after_lookup = lines_view(out@);
        if let Some(var) = looked {
            if let Type::Function(p) = var.value {
                proof { lemma_vals_push(self.stack@, Type::Function(p)); }
                self.stack.push(Type::Function(p));
                return Step::Continue;
            }
        }
        if let Some(b) = parsed {
            proof { lemma_vals_push(self.stack@, Type::Number(b)); }
            self.stack.push(Type::Number(b));
            assert(lines_view(out@) =~= after_lookup + Seq::<Seq<PieceView>>::empty());
            return Step::Continue;
        }
        if mem.reference_variable(item).is_some() {
            let v = mem.get_variable_value(item, mode, out);
            proof { lemma_vals_push(self.stack@, v); }
            self.stack.push(v);
            return Step::Continue;
        }
        let n = self.stack.len();
        if n >= 2 {
            proof {
                lemma_vals_drop_last(self.stack@);
                lemma_vals_drop_last(self.stack@.drop_last());
            }
            let y = self.stack.pop().unwrap();
            let x = self.stack.pop().unwrap();
            if contains_text(item, "[") && contains_text(item, "]") {
                let e = Self::index_text(item);
                proof { lemma_vals_push(self.stack@, x); }
                self.stack.push(x);
                assert(lines_view(out@) =~= after_lookup + Seq::<Seq<PieceView>>::empty());
                return Step::Index(y, e);
            }
            proof { lemma_val_kind(x); lemma_val_kind(y); reveal_strlit("~"); reveal_strlit("["); }
            if String::from_str(item) == text("~") {
                if let (Type::Number(_), Type::Number(yb)) = (&x, &y) {
                    let b = *yb;
                    proof { lemma_vals_push(self.stack@, x); }
                    self.stack.push(x);
                    let r = self.tilde(b, mem, mode, out);
                    return r;
                }
            }
            return self.binary_step(x, y, item, mode, out);
        } else if n == 1 {
            proof {
                lemma_vals_drop_last(self.stack@);
            }
            let y = self.stack.pop().unwrap();
            if contains_text(item, "[") && contains_text(item, "]") {
                let e = Self::index_text(item);
                assert(lines_view(out@) =~= after_lookup + Seq::<Seq<PieceView>>::empty());
                return Step::Index(y, e);
            }
            proof { lemma_val_kind(y); reveal_strlit("~"); reveal_strlit("["); }
            if String::from_str(item) == text("~") {
                let ghost yv = y@;
                let b = match y {
                    Type::Number(b) => b,
                    _ => {
                        out.push(crate::types::text_piece_line(text("型が一致しません")));
                        0
                    },
                };
                let ghost kind = if yv is Number { Seq::<Seq<PieceView>>::empty() } else { seq![text_line("型が一致しません"@)] };
                assert(lines_view(out@) =~= after_lookup + kind);
                let r = self.tilde(b, mem, mode, out);
                assert(tilde_address(st, item@, parsed, *mem) == Some(b));
                assert(lines_view(out@) =~= after_lookup + (kind + access_spec(Val::Number(b), *mem, *mode).1));
                assert(lines_view(out@) =~= lines_view(old(out)@) + eval_step_logs(st, item@, parsed, *mem, *mode));
                return r;
            }
            return self.unary_step(y, item, mode, out);
        } else {
            let v = literal_value(item);
            proof { lemma_vals_push(self.stack@, v); }
            self.stack.push(v);
            assert(lines_view(out@) =~= after_lookup + Seq::<Seq<PieceView>>::empty());
            return Step::Continue;
        }
    }

    /// The `~` operator on the address `b` (see `tilde_step`).
    fn tilde(&mut self, b: u64, mem: &Memory, mode: &ExecutionMode, out: &mut Vec<Vec<Piece>>) -> (r: Step)
        requires
            clamp_usize(round_u64(b)) != usize::MAX,
        ensures
            final(self).tokens == old(self).tokens,
            final(self).next == old(self).next,
            (stack_view(*final(self)), r@) == tilde_step(stack_view(*old(self)), b, *mem),
            lines_view(final(out)@) == lines_view(old(out)@) + access_spec(Val::Number(b), *mem, *mode).1,
    {
        match crate::stdlib::access(&Type::Number(b), mem, mode, out) {
            StdCall::Done(ReturnValue::Value(v)) => {
                self.push_value(v);
                Step::Continue
            },
            StdCall::Done(r) => Step::Finish(r),
            _ => Step::Finish(ReturnValue::Nothing),
        }
    }

    /// The address a `~` token reads, if it is one (see `tilde_address`).
    fn tilde_operand(&self, item: &str, parsed: Option<u64>, mem: &Memory) -> (r: Option<u64>)
        ensures
            r == tilde_address(stack_view(*self), item@, parsed, *mem),
    {
        proof {
            lemma_list_view(Type::List(self.stack));
            reveal_strlit("~");
        }
        if String::from_str(item) != text("~") || parsed.is_some() {
            return None;
        }
        match mem.reference_variable(item) {
            Some(i) => {
                proof { crate::types::lemma_val_kind(mem.memory@[i as int].value); }
                return None;
            },
            None => {},
        }
        let n = self.stack.len();
        if n >= 2 {
            assert(stack_view(*self).last() == self.stack@[n - 1]@);
            assert(stack_view(*self).drop_last().last() == self.stack@[n - 2]@);
            proof { lemma_val_kind(self.stack@[n - 1]); lemma_val_kind(self.stack@[n - 2]); }
            match (&self.stack[n - 1], &self.stack[n - 2]) {
                (Type::Number(y), Type::Number(_)) => Some(*y),
                _ => None,
            }
        } else if n == 1 {
            assert(stack_view(*self).last() == self.stack@[0]@);
            proof { lemma_val_kind(self.stack@[0]); }
            match &self.stack[0] {
                Type::Number(y) => Some(*y),
                _ => Some(0),
            }
        } else {
            None
        }
    }

    /// The index expression of an index token.
    fn index_text(item: &str) -> (r: String)
        requires
            item@.len() > 0,
        ensures
            r@ == index_expr(item@),
    {
        let v = chars_of(item);
        let cut = string_of_range(&v, 0, v.len() - 1);
        assert(v@.subrange(0, v.len() - 1) =~= item@.drop_last());
        remove_first_text(cut.as_str(), "[")
    }

    /// Pops `count` values, top first.
    fn pop_args(&mut self, count: usize) -> (r: Vec<Type>)
        requires
            old(self).stack@.len() >= count,
        ensures
            final(self).tokens == old(self).tokens,
            final(self).next == old(self).next,
            stack_view(*final(self)) == stack_view(*old(self)).subrange(0, stack_view(*old(self)).len() - count),
            vals_of(r@) == stack_view(*old(self)).subrange(stack_view(*old(self)).len() - count, stack_view(*old(self)).len() as int).reverse(),
    {
        let ghost st = stack_view(*self);
        let ghost n = self.stack@.len();
        let mut args: Vec<Type> = Vec::new();
        let mut i: usize = 0;
        while i < count
            invariant
                i <= count <= n,
                n == old(self).stack@.len(),
                self.tokens == old(self).tokens,
                self.next == old(self).next,
                st == vals_of(old(self).stack@),
                self.stack@ == old(self).stack@.subrange(0, n - i),
                args@.len() == i,
                forall|k: int| 0 <= k < i ==> (#[trigger] args@[k])@ == st[n - 1 - k],
            decreases count - i,
        {
            proof {
                lemma_list_view(Type::List(old(self).stack));
            }
            assert(st[n - 1 - i] == old(self).stack@[n - 1 - i]@);
            let v = self.stack.pop().unwrap();
            args.push(v);
            i += 1;
            assert(self.stack@ =~= old(self).stack@.subrange(0, n - i));
        }
        assert(stack_view(*self) =~= st.subrange(0, n - count));
        assert(vals_of(args@) =~= st.subrange(n - count, n as int).reverse());
        args
    }

    /// The `()` token: calls the function on the top of the stack.
    fn call_step(&mut self, mem: &Memory) -> (r: Step)
        requires
            !step_panics(stack_view(*old(self)), "()"@, None, *mem),
        ensures
            final(self).tokens == old(self).tokens,
            final(self).next == old(self).next,
            (stack_view(*final(self)), r@) == eval_step(stack_view(*old(self)), "()"@, None, *mem),
    {
        let ghost st = stack_view(*self);
        proof { reveal_strlit("~"); reveal_strlit("()"); }
        let n = self.stack.len();
        if n == 0 {
            return Step::Finish(ReturnValue::Error(text("エラー! スタックが空です")));
        }
        proof {
            lemma_vals_drop_last(self.stack@);
        }
        let func = self.stack.pop().unwrap();
        let ghost rest = st.drop_last();
        assert(stack_view(*self) == rest);
        match func {
            Type::String(name) => {
                let count = std_func_args_len(&name);
                let args = self.pop_args(count);
                assert(rest.subrange(rest.len() - count, rest.len() as int) =~= st.subrange(st.len() - 1 - count, st.len() - 1));
                Step::CallStd(name, args)
            },
            Type::Function(p) => {
                let count = mem.name_space[p].args.len();
                assert(count == funcs_view(mem.name_space@)[p as int].args.len());
                let args = self.pop_args(count);
                assert(rest.subrange(rest.len() - count, rest.len() as int) =~= st.subrange(st.len() - 1 - count, st.len() - 1));
                Step::CallUser(p, args)
            },
            _ => Step::Finish(ReturnValue::Error(text("エラー! 関数オブジェクトのみ呼び出し可能です"))),
        }
    }

    /// Pushes a value.
    fn push_value(&mut self, v: Type)
        ensures
            final(self).tokens == old(self).tokens,
            final(self).next == old(self).next,
            stack_view(*final(self)) == stack_view(*old(self)).push(v@),
    {
        proof {
            lemma_vals_push(self.stack@, v);
        }
        self.stack.push(v);
    }

    /// Pushes the result of a binary64 operation that `step` asked for.
    pub fn push_number(&mut self, bits: u64)
        ensures
            final(self).tokens == old(self).tokens,
            final(self).next == old(self).next,
            stack_view(*final(self)) == stack_view(*old(self)).push(Val::Number(bits)),
    {
        self.push_value(Type::Number(bits));
    }

    /// A binary operator token on `x` and `y`, already popped.
    fn binary_step(&mut self, x: Type, y: Type, item: &str, mode: &ExecutionMode, out: &mut Vec<Vec<Piece>>) -> (r: Step)
        ensures
            final(self).tokens == old(self).tokens,
            final(self).next == old(self).next,
            stack_view(*final(self)) == stack_view(*old(self)) + binary_spec(x@, y@, item@).0,
            r@ == binary_spec(x@, y@, item@).1,
            lines_view(final(out)@) == lines_view(old(out)@) + binary_logs(x@, y@, item@, *mode),
    {
        let ghost st = stack_view(*self);
        let ghost xv = x@;
        let ghost yv = y@;
        proof {
            reveal_strlit("+");
            reveal_strlit("-");
            reveal_strlit("*");
            reveal_strlit("/");
            reveal_strlit("%");
            reveal_strlit("^");
            reveal_strlit("=");
            reveal_strlit(">");
            reveal_strlit("<");
            reveal_strlit("~");
        }
        let it = String::from_str(item);
        match (y, x) {
            (Type::String(ys), Type::String(xs)) => {
                if it == text("+") {
                    let mut s = xs;
                    s.append(ys.as_str());
                    self.push_value(Type::String(s));
                } else if it == text("=") {
                    self.push_value(Type::Bool(xs == ys));
                } else if it == text(">") {
                    self.push_value(Type::Bool(text_less(ys.as_str(), xs.as_str())));
                } else if it == text("<") {
                    self.push_value(Type::Bool(text_less(xs.as_str(), ys.as_str())));
                } else {
                    self.push_value(Type::String(xs));
                    self.push_value(Type::String(ys));
                    self.push_value(literal_value(item));
                }
                assert(stack_view(*self) =~= st + binary_spec(xv, yv, item@).0);
                assert(lines_view(out@) =~= lines_view(old(out)@) + binary_logs(xv, yv, item@, *mode));
                Step::Continue
            },
            (Type::Bool(yb), Type::Bool(xb)) => {
                if it == text("&") {
                    self.push_value(Type::Bool(xb && yb));
                } else if it == text("=") {
                    self.push_value(Type::Bool(xb == yb));
                } else if it == text("|") {
                    self.push_value(Type::Bool(xb || yb));
                } else if it == text("!") {
                    self.push_value(Type::Bool(xb));
                    self.push_value(Type::Bool(!yb));
                } else {
                    self.push_value(Type::Bool(xb));
                    self.push_value(Type::Bool(yb));
                    self.push_value(literal_value(item));
                }
                assert(stack_view(*self) =~= st + binary_spec(xv, yv, item@).0);
                assert(lines_view(out@) =~= lines_view(old(out)@) + binary_logs(xv, yv, item@, *mode));
                Step::Continue
            },
            (Type::Number(yn), Type::Number(xn)) => {
                let r = if it == text("+") {
                    Step::Arith(ArithOp::Add, xn, yn)
                } else if it == text("-") {
                    Step::Arith(ArithOp::Sub, xn, yn)
                } else if it == text("*") {
                    Step::Arith(ArithOp::Mul, xn, yn)
                } else if it == text("/") {
                    Step::Arith(ArithOp::Div, xn, yn)
                } else if it == text("%") {
                    Step::Arith(ArithOp::Rem, xn, yn)
                } else if it == text("^") {
                    Step::Arith(ArithOp::Pow, xn, yn)
                } else if it == text("=") {
                    self.push_value(Type::Bool(number_eq(xn, yn)));
                    Step::Continue
                } else if it == text(">") {
                    self.push_value(Type::Bool(number_lt(yn, xn)));
                    Step::Continue
                } else if it == text("<") {
                    self.push_value(Type::Bool(number_lt(xn, yn)));
                    Step::Continue
                } else {
                    self.push_value(Type::Number(xn));
                    self.push_value(Type::Number(yn));
                    self.push_value(literal_value(item));
                    Step::Continue
                };
                assert(stack_view(*self) =~= st + binary_spec(xv, yv, item@).0);
                assert(lines_view(out@) =~= lines_view(old(out)@) + binary_logs(xv, yv, item@, *mode));
                r
            },
            (y, Type::List(xl)) => {
                let ghost ylv = y@;
                if it == text("+") {
                    let mut l = xl;
                    proof {
                        lemma_list_view(Type::List(l));
                        lemma_vals_push(l@, y);
                    }
                    l.push(y);
                    proof {
                        lemma_list_view(Type::List(l));
                    }
                    self.push_value(Type::List(l));
                } else {
                    self.push_value(Type::List(xl));
                    self.push_value(y);
                    self.push_value(literal_value(item));
                }
                assert(stack_view(*self) =~= st + binary_spec(xv, yv, item@).0);
                assert(lines_view(out@) =~= lines_view(old(out)@) + binary_logs(xv, yv, item@, *mode));
                Step::Continue
            },
            _ => {
                log_print(mode, text("エラー!型が一致しません"), out);
                assert(stack_view(*self) =~= st + binary_spec(xv, yv, item@).0);
                Step::Finish(ReturnValue::Error(text("エラー!型が一致しません")))
            },
        }
    }

    /// A unary operator token on `y`, already popped.
    fn unary_step(&mut self, y: Type, item: &str, mode: &ExecutionMode, out: &mut Vec<Vec<Piece>>) -> (r: Step)
        ensures
            final(self).tokens == old(self).tokens,
            final(self).next == old(self).next,
            stack_view(*final(self)) == stack_view(*old(self)) + unary_spec(y@, item@).0,
            r@ == unary_spec(y@, item@).1,
            lines_view(final(out)@) == lines_view(old(out)@) + unary_logs(y@, item@, *mode),
    {
        let ghost st = stack_view(*self);
        let ghost yv = y@;
        let it = String::from_str(item);
        if it == text("!") {
            let b = match y {
                Type::Bool(b) => b,
                _ => {
                    out.push(crate::types::text_piece_line(text("型が一致しません")));
                    false
                },
            };
            self.push_value(Type::Bool(!b));
            assert(stack_view(*self) =~= st + unary_spec(yv, item@).0);
            assert(lines_view(out@) =~= lines_view(old(out)@) + unary_logs(yv, item@, *mode));
            Step::Continue
        } else {
            self.push_value(y);
            self.push_value(literal_value(item));
            assert(stack_view(*self) =~= st + unary_spec(yv, item@).0);
            assert(lines_view(out@) =~= lines_view(old(out)@) + unary_logs(yv, item@, *mode));
            Step::Continue
        }
    }

    /// Goes on after a call or an index lookup: pushes the value it gave
    /// (0 when it gave none), or ends the evaluation with its error.
    pub fn resume(&mut self, rv: ReturnValue) -> (r: Option<ReturnValue>)
        ensures
            final(self).tokens == old(self).tokens,
            final(self).next == old(self).next,
            match rv@ {
                Returned::Value(v) => r is None && stack_view(*final(self)) == stack_view(*old(self)).push(v),
                Returned::Error(e) => r matches Some(x) && x@ == Returned::Error(e) && stack_view(*final(self)) == stack_view(*old(self)),
                _ => r is None && stack_view(*final(self)) == stack_view(*old(self)).push(Val::Number(0)),
            },
    {
        match rv {
            ReturnValue::Value(v) => {
                self.push_value(v);
                None
            },
            ReturnValue::Error(e) => Some(ReturnValue::Error(e)),
            _ => {
                self.push_value(Type::Number(0));
                None
            },
        }
    }

    /// Ends the evaluation: the value on top of the stack (0 when it is
    /// empty); prints it in the commented modes.
    pub fn finish(&mut self, mem: &Memory, mode: &ExecutionMode, out: &mut Vec<Vec<Piece>>) -> (r: ReturnValue)
        requires
            !(*mode is Script) ==> pointers_ok(result_of(stack_view(*old(self))), mem.name_space@.len()),
        ensures
            r@ == Returned::Value(result_of(stack_view(*old(self)))),
            lines_view(final(out)@) == lines_view(old(out)@) + (if *mode is Script { Seq::empty() } else {
                seq![seq![PieceView::Text("結果 = "@)] + value_pieces(result_of(stack_view(*old(self))), funcs_view(mem.name_space@), false)]
            }),
    {
        let n = self.stack.len();
        let result = if n > 0 {
            proof { lemma_vals_drop_last(self.stack@); }
            self.stack.pop().unwrap()
        } else {
            Type::Number(0)
        };
        if !mode.is_script() {
            let mut line: Vec<Piece> = Vec::new();
            line.push(Piece::Text(text("結果 = ")));
            assert(crate::types::line_view(line) =~= seq![PieceView::Text("結果 = "@)]);
            type_string(&result, mem, false, &mut line);
            out.push(line);
            assert(lines_view(out@) =~= lines_view(old(out)@) + seq![seq![PieceView::Text("結果 = "@)] + value_pieces(result_of(stack_view(*old(self))), funcs_view(mem.name_space@), false)]);
        } else {
            assert(lines_view(out@) =~= lines_view(old(out)@) + Seq::<Seq<PieceView>>::empty());
        }
        ReturnValue::Value(result)
    }
}

/// The result of an evaluation: the value on top of the stack, or 0.
pub open spec fn result_of(st: Seq<Val>) -> Val {
    if st.len() > 0 {
        st.last()
    } else {
        Val::Number(0)
    }
}

/// The line that the commented modes print before each token: the stack,
/// bottom first, and the token.
pub open spec fn stack_line(st: Seq<Val>, item: Seq<char>, funcs: Seq<FunctionView>) -> Seq<PieceView> {
    seq![PieceView::Text("| Stack〔"@)] + crate::display::join_pieces(
        Seq::new(st.len(), |k: int| value_pieces(st[k], funcs, false)),
        ", "@,
    ) + seq![PieceView::Text(" 〕←  "@ + item)]
}

} // verus!
