//! The standard library of the language: which functions there are, how
//! many arguments each takes, and what the ones that only compute give.
use vstd::prelude::*;
use crate::text::remove_all;
use crate::types::{
    lemma_list_view, lemma_val_kind, line_view, lines_view, log_print, logs, text, vals_of,
    funcs_view, ExecutionMode, FunctionView, Piece, PieceView, ReturnValue, Returned, Type, Val,
};
use crate::memory::{first_index, name_key, var_names, Memory};
use crate::display::{decimal, decimal_text, pointers_ok, value_pieces, join_pieces, type_string, pointers_valid};
use crate::sequence::{log_line, log_pieces, number_line, number_line_of};
use crate::float::{
    clamp_usize, count_bits, num_eq, number_from_usize, number_is_nonzero, number_round_to_usize,
    number_to_u64, one_bits, round_u64, trunc_u64, zero_bits,
};
use crate::machine::message;

verus! {

/// The number of arguments that the standard function `name` takes.
pub open spec fn std_args_len(name: Seq<char>) -> nat {
    if name == "input"@ || name == "print"@ || name == "time.sleep"@ || name == "ref"@ || name
        == "access"@ || name == "type"@ || name == "string"@ || name == "number"@ || name
        == "bool"@ {
        1
    } else {
        0
    }
}

/// `std_func_args_len`: the number of arguments of a standard function
/// (0 for a name that is none).
pub fn std_func_args_len(name: &String) -> (r: usize)
    ensures
        r == std_args_len(name@),
{
    if *name == String::from_str("input") || *name == String::from_str("print") || *name
        == String::from_str("time.sleep") || *name == String::from_str("ref") || *name
        == String::from_str("access") || *name == String::from_str("type") || *name
        == String::from_str("string") || *name == String::from_str("number") || *name
        == String::from_str("bool") {
        1
    } else {
        0
    }
}

/// The name of a value's type, as `type` gives it.
pub open spec fn kind_name(v: Val) -> Seq<char> {
    match v {
        Val::Number(_) => "number"@,
        Val::Text(_) => "string"@,
        Val::Bool(_) => "bool"@,
        Val::List(_) => "list"@,
        Val::Function(_) => "function"@,
    }
}

/// What a call of a standard function needs from the host, or gives.
pub enum StdCall {
    /// The call is done and gives this.
    Done(ReturnValue),
    /// The call cannot go on: the interpreter stops here.
    Fail,
    /// Read a line after this prompt; the call gives the line, trimmed.
    Input(String),
    /// The call gives the seconds since the Unix epoch.
    TimeNow,
    /// Sleep this many seconds; the call gives nothing.
    Sleep(u64),
    /// The call gives these pieces, rendered, as a text.
    Text(Vec<Piece>),
    /// Read the text as a number; when it is none, the call fails if the
    /// flag is set and gives 0 if not (see `finish_parse`).
    Parse(String, bool),
}

/// The content of a standard call's need.
pub enum StdNeed {
    Done(Returned),
    Fail,
    Input(Seq<char>),
    TimeNow,
    Sleep(nat),
    Text(Seq<PieceView>),
    Parse(Seq<char>, bool),
}

impl View for StdCall {
    type V = StdNeed;

    open spec fn view(&self) -> StdNeed {
        match self {
            StdCall::Done(r) => StdNeed::Done(r@),
            StdCall::Fail => StdNeed::Fail,
            StdCall::Input(p) => StdNeed::Input(p@),
            StdCall::TimeNow => StdNeed::TimeNow,
            StdCall::Sleep(n) => StdNeed::Sleep(*n as nat),
            StdCall::Text(p) => StdNeed::Text(line_view(*p)),
            StdCall::Parse(t, strict) => StdNeed::Parse(t@, *strict),
        }
    }
}

/// The line `標準ライブラリの<name>関数を呼び出します`.
pub open spec fn call_log(name: Seq<char>) -> Seq<char> {
    "標準ライブラリの"@ + name + "関数を呼び出します"@
}

/// The pieces with the quotes taken out of their texts.
pub open spec fn unquote(p: Seq<PieceView>) -> Seq<PieceView> {
    p.map_values(|x: PieceView| match x {
        PieceView::Text(t) => PieceView::Text(remove_all(remove_all(t, '\''), '"')),
        PieceView::Number(b) => PieceView::Number(b),
    })
}

/// What `print` writes for a value.
pub open spec fn print_line(v: Val, funcs: Seq<FunctionView>, mode: ExecutionMode) -> Seq<PieceView> {
    let body = unquote(value_pieces(v, funcs, mode is Script));
    if mode is Script {
        body
    } else {
        seq![PieceView::Text("[出力]: "@)] + body
    }
}

/// The pieces that `string` writes for an element of a list.
pub open spec fn element_pieces(v: Val, funcs: Seq<FunctionView>) -> Seq<PieceView> {
    match v {
        Val::Number(b) => seq![PieceView::Number(b)],
        Val::Text(s) => seq![PieceView::Text("'"@ + s + "'"@)],
        Val::List(_) => seq![PieceView::Text(Seq::empty())],
        Val::Bool(b) => seq![PieceView::Text(if b { "true"@ } else { "false"@ })],
        Val::Function(i) => seq![PieceView::Text(funcs[i as int].name)],
    }
}

/// The function elements of a list point into a name space of `n`.
pub open spec fn elements_ok(l: Seq<Val>, n: nat) -> bool {
    forall|k: int| 0 <= k < l.len() ==> (#[trigger] l[k] matches Val::Function(i) ==> i < n)
}

/// The text of `true` or `false`.
pub open spec fn bool_text(b: bool) -> Seq<char> {
    if b { "true"@ } else { "false"@ }
}

/// What `string` gives.
pub open spec fn to_text(v: Val, funcs: Seq<FunctionView>) -> StdNeed {
    match v {
        Val::Number(b) => StdNeed::Text(seq![PieceView::Number(b)]),
        Val::List(l) => if elements_ok(l, funcs.len()) {
            StdNeed::Text(join_pieces(Seq::new(l.len(), |k: int| element_pieces(l[k], funcs)), ", "@))
        } else {
            StdNeed::Fail
        },
        Val::Text(s) => StdNeed::Done(Returned::Value(Val::Text(s))),
        Val::Bool(b) => StdNeed::Done(Returned::Value(Val::Text(bool_text(b)))),
        Val::Function(i) => if i < funcs.len() {
            StdNeed::Done(Returned::Value(Val::Text(funcs[i as int].name)))
        } else {
            StdNeed::Fail
        },
    }
}

/// What `number` gives.
pub open spec fn to_number(v: Val, funcs: Seq<FunctionView>) -> StdNeed {
    match v {
        Val::Number(b) => StdNeed::Done(Returned::Value(Val::Number(b))),
        Val::List(l) => if l.len() == 0 {
            StdNeed::Fail
        } else {
            match l[0] {
                Val::Number(b) => StdNeed::Done(Returned::Value(Val::Number(b))),
                Val::Text(t) => StdNeed::Parse(t, false),
                _ => StdNeed::Done(Returned::Value(Val::Number(zero_bits()))),
            }
        },
        Val::Text(s) => StdNeed::Parse(s, true),
        Val::Bool(b) => StdNeed::Done(Returned::Value(Val::Number(if b { one_bits() } else { zero_bits() }))),
        Val::Function(i) => if i < funcs.len() {
            StdNeed::Done(Returned::Value(Val::Number(count_bits(funcs[i as int].code.len()))))
        } else {
            StdNeed::Fail
        },
    }
}

/// What `bool` gives.
pub open spec fn to_bool(v: Val, funcs: Seq<FunctionView>) -> StdNeed {
    match v {
        Val::Number(b) => StdNeed::Done(Returned::Value(Val::Bool(!num_eq(b, zero_bits())))),
        Val::List(l) => StdNeed::Done(Returned::Value(Val::Bool(l.len() != 0))),
        Val::Text(s) => StdNeed::Done(Returned::Value(Val::Bool(s.len() != 0))),
        Val::Bool(b) => StdNeed::Done(Returned::Value(Val::Bool(b))),
        Val::Function(i) => if i < funcs.len() {
            StdNeed::Done(Returned::Value(Val::Bool(funcs[i as int].code.len() != 0)))
        } else {
            StdNeed::Fail
        },
    }
}

/// The error of `access` with an address that is not a number.
pub open spec fn address_kind_error() -> Seq<char> {
    "エラー! メモリアドレスは数値型です"@
}

/// The error of `access` with an address past the memory.
pub open spec fn address_range_error() -> Seq<char> {
    "エラー! アドレスが有効範囲外です"@
}

/// What `access` gives and prints: the value at the rounded address.
pub open spec fn access_spec(v: Val, mem: Memory, mode: ExecutionMode) -> (StdNeed, Seq<Seq<PieceView>>) {
    match v {
        Val::Number(b) => {
            let head = log_line(mode, number_line("メモリアドレス"@, b, "の指す値を求めます"@));
            let k = clamp_usize(round_u64(b));
            if k == usize::MAX {
                (StdNeed::Fail, head)
            } else if k + 1 > mem.memory@.len() {
                (StdNeed::Done(Returned::Error(address_range_error())), head + logs(mode, seq![address_range_error()]))
            } else {
                (StdNeed::Done(Returned::Value(mem.memory@[k as int].value@)), head)
            }
        },
        _ => (StdNeed::Done(Returned::Error(address_kind_error())), logs(mode, seq![address_kind_error()])),
    }
}

/// What `ref` gives and prints: the address of the variable the text names.
pub open spec fn refer_spec(v: Val, mem: Memory, mode: ExecutionMode) -> (StdNeed, Seq<Seq<PieceView>>) {
    let name = match v {
        Val::Text(s) => s,
        _ => Seq::empty(),
    };
    let head = logs(mode, seq!["変数の参照を取得します"@]);
    match first_index(var_names(mem.memory@), name_key(name)) {
        Some(i) => (
            StdNeed::Done(Returned::Value(Val::Number(count_bits(i as nat)))),
            head + logs(mode, seq!["変数"@ + name + "のアドレスは"@ + decimal(i as nat) + "です"@]),
        ),
        None => (StdNeed::Done(Returned::Error("エラー! 変数が見つかりませんでした"@)), head),
    }
}

/// What `input` needs and prints: a line read after the prompt that the
/// argument gives (after `[入力]> ` in the commented modes).
pub open spec fn input_spec(v: Val, mode: ExecutionMode) -> (StdNeed, Seq<Seq<PieceView>>) {
    match v {
        Val::Text(s) => if mode is Script {
            (StdNeed::Input(s), Seq::empty())
        } else {
            (StdNeed::Input("[入力]> "@), logs(mode, seq!["標準入力を受け取ります"@, "プロンプト:「"@ + s + "」"@]))
        },
        _ => (StdNeed::Done(Returned::Error("エラー! 入力プロンプトは文字列型です"@)), logs(mode, seq!["エラー! 入力プロンプトは文字列型です"@])),
    }
}

/// What `print` gives and prints.
pub open spec fn print_spec(v: Val, mem: Memory, mode: ExecutionMode) -> (StdNeed, Seq<Seq<PieceView>>) {
    let funcs = funcs_view(mem.name_space@);
    if pointers_ok(v, funcs.len()) {
        (StdNeed::Done(Returned::Nothing), logs(mode, seq!["標準出力に表示します"@]) + seq![print_line(v, funcs, mode)])
    } else {
        (StdNeed::Fail, Seq::empty())
    }
}

/// What `time.sleep` needs and prints.
pub open spec fn sleep_spec(v: Val, mode: ExecutionMode) -> (StdNeed, Seq<Seq<PieceView>>) {
    match v {
        Val::Number(b) => (StdNeed::Sleep(trunc_u64(b)), log_line(mode, number_line(Seq::empty(), b, "秒間スリープします"@))),
        _ => (StdNeed::Done(Returned::Error("エラー! 秒数は数値型です"@)), logs(mode, seq!["エラー! 秒数は数値型です"@])),
    }
}

/// What a call of the standard function `name` needs or gives, and what it
/// prints before that (`args[0]` is the argument of the one-argument
/// functions).
pub open spec fn std_spec(name: Seq<char>, args: Seq<Val>, mem: Memory, mode: ExecutionMode) -> (StdNeed, Seq<Seq<PieceView>>) {
    let funcs = funcs_view(mem.name_space@);
    let head = logs(mode, seq![call_log(name)]);
    if name == "input"@ {
        (input_spec(args[0], mode).0, head + input_spec(args[0], mode).1)
    } else if name == "print"@ {
        (print_spec(args[0], mem, mode).0, head + print_spec(args[0], mem, mode).1)
    } else if name == "time.now"@ {
        (StdNeed::TimeNow, head + logs(mode, seq!["今の時刻をUNIXエポックで取得します"@]))
    } else if name == "time.sleep"@ {
        (sleep_spec(args[0], mode).0, head + sleep_spec(args[0], mode).1)
    } else if name == "ref"@ {
        (refer_spec(args[0], mem, mode).0, head + refer_spec(args[0], mem, mode).1)
    } else if name == "access"@ {
        (access_spec(args[0], mem, mode).0, head + access_spec(args[0], mem, mode).1)
    } else if name == "type"@ {
        (StdNeed::Done(Returned::Value(Val::Text(kind_name(args[0])))), head + logs(mode, seq!["データ型を判定します"@]))
    } else if name == "string"@ {
        (to_text(args[0], funcs), head + logs(mode, seq!["文字列型に変換します"@]))
    } else if name == "number"@ {
        (to_number(args[0], funcs), head + logs(mode, seq!["数値型に変換します"@]))
    } else if name == "bool"@ {
        (to_bool(args[0], funcs), head + logs(mode, seq!["論理型に変換します"@]))
    } else if name == "list"@ {
        (StdNeed::Done(Returned::Value(Val::List(Seq::empty()))), head)
    } else {
        (StdNeed::Done(Returned::Nothing), Seq::empty())
    }
}

/// The pieces with the quotes taken out of their texts (see `unquote`).
fn unquote_pieces(p: &Vec<Piece>) -> (r: Vec<Piece>)
    ensures
        line_view(r) == unquote(line_view(*p)),
{
    let mut r: Vec<Piece> = Vec::new();
    let mut i: usize = 0;
    while i < p.len()
        invariant
            i <= p@.len(),
            line_view(r) == unquote(line_view(*p)).take(i as int),
        decreases p.len() - i,
    {
        let x = match &p[i] {
            Piece::Text(t) => {
                let a = crate::text::remove_all_text(t.as_str(), '\'');
                Piece::Text(crate::text::remove_all_text(a.as_str(), '"'))
            },
            Piece::Number(b) => Piece::Number(*b),
        };
        assert(line_view(*p)[i as int] == p@[i as int]@);
        assert(x@ == unquote(line_view(*p))[i as int]);
        let ghost before = line_view(r);
        r.push(x);
        assert(line_view(r) =~= before.push(x@));
        i += 1;
        assert(line_view(r) =~= unquote(line_view(*p)).take(i as int));
    }
    assert(unquote(line_view(*p)).take(p@.len() as int) =~= unquote(line_view(*p)));
    r
}

/// The pieces that `string` writes for an element of a list.
pub fn push_element_pieces(v: &Type, mem: &Memory, out: &mut Vec<Piece>)
    requires
        v@ matches Val::Function(i) ==> i < mem.name_space@.len(),
    ensures
        line_view(*final(out)) == line_view(*old(out)) + element_pieces(v@, funcs_view(mem.name_space@)),
{
    proof { lemma_val_kind(*v); }
    let p = match v {
        Type::Number(b) => Piece::Number(*b),
        Type::String(s) => Piece::Text(message("'", s.as_str(), "'")),
        Type::List(_) => Piece::Text(String::new()),
        Type::Bool(b) => Piece::Text(if *b { text("true") } else { text("false") }),
        Type::Function(i) => Piece::Text(mem.name_space[*i].name.clone()),
    };
    out.push(p);
    assert(line_view(*out) =~= line_view(*old(out)) + element_pieces(v@, funcs_view(mem.name_space@)));
}

/// `string` of a list: its elements written one after another.
fn list_text(l: &Vec<Type>, mem: &Memory) -> (r: StdCall)
    ensures
        r@ == to_text(Val::List(vals_of(l@)), funcs_view(mem.name_space@)),
{
    proof { lemma_list_view(Type::List(*l)); }
    let ghost lv = vals_of(l@);
    let ghost funcs = funcs_view(mem.name_space@);
    let ghost parts = Seq::new(lv.len(), |k: int| element_pieces(lv[k], funcs));
    let mut k: usize = 0;
    while k < l.len()
        invariant
            k <= l@.len(),
            lv == vals_of(l@),
            lv.len() == l@.len(),
            forall|j: int| 0 <= j < l@.len() ==> #[trigger] lv[j] == l@[j]@,
            forall|j: int| 0 <= j < k ==> (#[trigger] lv[j] matches Val::Function(i) ==> i < mem.name_space@.len()),
            funcs == funcs_view(mem.name_space@),
        decreases l.len() - k,
    {
        proof { lemma_val_kind(l@[k as int]); }
        if let Type::Function(i) = &l[k] {
            if *i >= mem.name_space.len() {
                assert(funcs.len() == mem.name_space@.len());
                assert(l@[k as int]@ == Val::Function(*i));
                assert(lv[k as int] == Val::Function(*i));
                assert(!(lv[k as int] matches Val::Function(j) ==> j < funcs.len()));
                assert(!elements_ok(lv, funcs.len()));
                return StdCall::Fail;
            }
        }
        k += 1;
    }
    assert(funcs.len() == mem.name_space@.len());
    assert(elements_ok(lv, funcs.len()));
    let mut r: Vec<Piece> = Vec::new();
    let mut i: usize = 0;
    assert(parts.take(0) =~= Seq::<Seq<PieceView>>::empty());
    while i < l.len()
        invariant
            i <= l@.len(),
            lv == vals_of(l@),
            lv.len() == l@.len(),
            forall|j: int| 0 <= j < l@.len() ==> #[trigger] lv[j] == l@[j]@,
            elements_ok(lv, funcs.len()),
            funcs == funcs_view(mem.name_space@),
            parts == Seq::new(lv.len(), |k: int| element_pieces(lv[k], funcs)),
            line_view(r) == join_pieces(parts.take(i as int), ", "@),
        decreases l.len() - i,
    {
        let ghost before = line_view(r);
        if i > 0 {
            r.push(Piece::Text(text(", ")));
            assert(line_view(r) =~= before + seq![PieceView::Text(", "@)]);
        }
        assert(lv[i as int] == l@[i as int]@);
        push_element_pieces(&l[i], mem, &mut r);
        proof {
            let t = parts.take(i + 1);
            assert(t.last() == parts[i as int]);
            assert(t.drop_last() =~= parts.take(i as int));
            if i > 0 {
                assert(join_pieces(t, ", "@) == join_pieces(t.drop_last(), ", "@) + seq![PieceView::Text(", "@)] + t.last());
            } else {
                assert(join_pieces(t, ", "@) == t[0]);
            }
            assert(line_view(r) =~= join_pieces(parts.take(i + 1), ", "@));
        }
        i += 1;
    }
    assert(parts.take(lv.len() as int) =~= parts);
    StdCall::Text(r)
}

/// `string`, `number` and `bool` of a value.
fn convert(kind: u8, v: &Type, mem: &Memory) -> (r: StdCall)
    requires
        kind < 3,
    ensures
        kind == 0 ==> r@ == to_text(v@, funcs_view(mem.name_space@)),
        kind == 1 ==> r@ == to_number(v@, funcs_view(mem.name_space@)),
        kind == 2 ==> r@ == to_bool(v@, funcs_view(mem.name_space@)),
{
    proof { lemma_val_kind(*v); lemma_list_view(*v); }
    let n = mem.name_space.len();
    if kind == 0 {
        match v {
            Type::Number(b) => {
                let p = vec![Piece::Number(*b)];
                assert(line_view(p) =~= seq![PieceView::Number(*b)]);
                StdCall::Text(p)
            },
            Type::List(l) => list_text(l, mem),
            Type::String(s) => StdCall::Done(ReturnValue::Value(Type::String(s.clone()))),
            Type::Bool(b) => StdCall::Done(ReturnValue::Value(Type::String(if *b { text("true") } else { text("false") }))),
            Type::Function(i) => if *i < n {
                StdCall::Done(ReturnValue::Value(Type::String(mem.name_space[*i].name.clone())))
            } else {
                StdCall::Fail
            },
        }
    } else if kind == 1 {
        match v {
            Type::Number(b) => StdCall::Done(ReturnValue::Value(Type::Number(*b))),
            Type::List(l) => if l.len() == 0 {
                StdCall::Fail
            } else {
                proof { lemma_val_kind(l@[0]); }
                match &l[0] {
                    Type::Number(b) => StdCall::Done(ReturnValue::Value(Type::Number(*b))),
                    Type::String(t) => StdCall::Parse(t.clone(), false),
                    _ => StdCall::Done(ReturnValue::Value(Type::Number(0))),
                }
            },
            Type::String(s) => StdCall::Parse(s.clone(), true),
            Type::Bool(b) => StdCall::Done(ReturnValue::Value(Type::Number(if *b { 0x3FF0000000000000 } else { 0 }))),
            Type::Function(i) => if *i < n {
                StdCall::Done(ReturnValue::Value(Type::Number(number_from_usize(mem.name_space[*i].code.len()))))
            } else {
                StdCall::Fail
            },
        }
    } else {
        match v {
            Type::Number(b) => StdCall::Done(ReturnValue::Value(Type::Bool(number_is_nonzero(*b)))),
            Type::List(l) => StdCall::Done(ReturnValue::Value(Type::Bool(l.len() != 0))),
            Type::String(s) => StdCall::Done(ReturnValue::Value(Type::Bool(crate::text::chars_of(s.as_str()).len() != 0))),
            Type::Bool(b) => StdCall::Done(ReturnValue::Value(Type::Bool(*b))),
            Type::Function(i) => if *i < n {
                StdCall::Done(ReturnValue::Value(Type::Bool(mem.name_space[*i].code.len() != 0)))
            } else {
                StdCall::Fail
            },
        }
    }
}

/// `access`: the value at an address (see `access_spec`).
pub fn access(v: &Type, mem: &Memory, mode: &ExecutionMode, out: &mut Vec<Vec<Piece>>) -> (r: StdCall)
    ensures
        r@ == access_spec(v@, *mem, *mode).0,
        lines_view(final(out)@) == lines_view(old(out)@) + access_spec(v@, *mem, *mode).1,
{
    proof { lemma_val_kind(*v); }
    match v {
        Type::Number(b) => {
            log_pieces(mode, number_line_of(text("メモリアドレス"), *b, text("の指す値を求めます")), out);
            let k = number_round_to_usize(*b);
            if k == usize::MAX {
                return StdCall::Fail;
            }
            if k + 1 > mem.memory.len() {
                let ghost mid = lines_view(out@);
                log_print(mode, text("エラー! アドレスが有効範囲外です"), out);
                StdCall::Done(ReturnValue::Error(text("エラー! アドレスが有効範囲外です")))
            } else {
                StdCall::Done(ReturnValue::Value(mem.memory[k].value.copy()))
            }
        },
        _ => {
            log_print(mode, text("エラー! メモリアドレスは数値型です"), out);
            StdCall::Done(ReturnValue::Error(text("エラー! メモリアドレスは数値型です")))
        },
    }
}

/// `refer` (the function `ref`): the address of a variable (see `refer_spec`).
pub fn refer(v: &Type, mem: &Memory, mode: &ExecutionMode, out: &mut Vec<Vec<Piece>>) -> (r: StdCall)
    ensures
        r@ == refer_spec(v@, *mem, *mode).0,
        lines_view(final(out)@) == lines_view(old(out)@) + refer_spec(v@, *mem, *mode).1,
{
    proof { lemma_val_kind(*v); }
    log_print(mode, text("変数の参照を取得します"), out);
    let name = match v {
        Type::String(s) => s.clone(),
        _ => String::new(),
    };
    match mem.reference_variable(name.as_str()) {
        Some(i) => {
            let n = decimal_text(i);
            let mut m = message("変数", name.as_str(), "のアドレスは");
            m.append(n.as_str());
            m.append("です");
            let ghost mid = lines_view(out@);
            log_print(mode, m, out);
            assert(lines_view(out@) =~= lines_view(old(out)@) + refer_spec(v@, *mem, *mode).1);
            StdCall::Done(ReturnValue::Value(Type::Number(number_from_usize(i))))
        },
        None => {
            StdCall::Done(ReturnValue::Error(text("エラー! 変数が見つかりませんでした")))
        },
    }
}

/// Writes the value (see `print_line`).
fn print_value(v: &Type, mem: &Memory, mode: &ExecutionMode, out: &mut Vec<Vec<Piece>>)
    requires
        pointers_ok(v@, mem.name_space@.len()),
    ensures
        lines_view(final(out)@) == lines_view(old(out)@) + logs(*mode, seq!["標準出力に表示します"@]) + seq![print_line(v@, funcs_view(mem.name_space@), *mode)],
{
    let mut body: Vec<Piece> = Vec::new();
    type_string(v, mem, mode.is_script(), &mut body);
    assert(line_view(body) =~= value_pieces(v@, funcs_view(mem.name_space@), *mode is Script));
    let shown = unquote_pieces(&body);
    log_print(mode, text("標準出力に表示します"), out);
    let ghost mid = lines_view(out@);
    let mut line: Vec<Piece> = Vec::new();
    if !mode.is_script() {
        line.push(Piece::Text(text("[出力]: ")));
    }
    let mut i: usize = 0;
    let ghost start = line_view(line);
    while i < shown.len()
        invariant
            i <= shown@.len(),
            line_view(line) == start + line_view(shown).take(i as int),
        decreases shown.len() - i,
    {
        let p = match &shown[i] {
            Piece::Text(t) => Piece::Text(t.clone()),
            Piece::Number(b) => Piece::Number(*b),
        };
        assert(p@ == line_view(shown)[i as int]);
        let ghost before = line_view(line);
        line.push(p);
        assert(line_view(line) =~= before.push(p@));
        i += 1;
        assert(line_view(line) =~= start + line_view(shown).take(i as int));
    }
    assert(line_view(shown).take(shown@.len() as int) =~= line_view(shown));
    assert(line_view(line) =~= print_line(v@, funcs_view(mem.name_space@), *mode));
    out.push(line);
    assert(lines_view(out@) =~= mid + seq![print_line(v@, funcs_view(mem.name_space@), *mode)]);
}

/// `print`: writes the value, unless a function it names is missing
/// (see `print_spec`).
pub fn print(v: &Type, mem: &Memory, mode: &ExecutionMode, out: &mut Vec<Vec<Piece>>) -> (r: StdCall)
    ensures
        r@ == print_spec(v@, *mem, *mode).0,
        lines_view(final(out)@) == lines_view(old(out)@) + print_spec(v@, *mem, *mode).1,
{
    if !pointers_valid(v, mem) {
        assert(lines_view(out@) =~= lines_view(old(out)@) + Seq::<Seq<PieceView>>::empty());
        return StdCall::Fail;
    }
    print_value(v, mem, mode, out);
    assert(lines_view(out@) =~= lines_view(old(out)@) + (logs(*mode, seq!["標準出力に表示します"@]) + seq![print_line(v@, funcs_view(mem.name_space@), *mode)]));
    StdCall::Done(ReturnValue::Nothing)
}

/// `input`: asks for a line after the prompt (see `input_spec`).
pub fn input(v: &Type, mode: &ExecutionMode, out: &mut Vec<Vec<Piece>>) -> (r: StdCall)
    ensures
        r@ == input_spec(v@, *mode).0,
        lines_view(final(out)@) == lines_view(old(out)@) + input_spec(v@, *mode).1,
{
    proof { lemma_val_kind(*v); }
    match v {
        Type::String(s) => {
            if mode.is_script() {
                assert(lines_view(out@) =~= lines_view(old(out)@) + Seq::<Seq<PieceView>>::empty());
                StdCall::Input(s.clone())
            } else {
                log_print(mode, text("標準入力を受け取ります"), out);
                log_print(mode, message("プロンプト:「", s.as_str(), "」"), out);
                assert(lines_view(out@) =~= lines_view(old(out)@) + logs(*mode, seq!["標準入力を受け取ります"@, "プロンプト:「"@ + s@ + "」"@]));
                StdCall::Input(text("[入力]> "))
            }
        },
        _ => {
            log_print(mode, text("エラー! 入力プロンプトは文字列型です"), out);
            StdCall::Done(ReturnValue::Error(text("エラー! 入力プロンプトは文字列型です")))
        },
    }
}

/// `time_now`: asks for the time.
pub fn time_now(mode: &ExecutionMode, out: &mut Vec<Vec<Piece>>) -> (r: StdCall)
    ensures
        r@ == StdNeed::TimeNow,
        lines_view(final(out)@) == lines_view(old(out)@) + logs(*mode, seq!["今の時刻をUNIXエポックで取得します"@]),
{
    log_print(mode, text("今の時刻をUNIXエポックで取得します"), out);
    StdCall::TimeNow
}

/// `time_sleep`: asks for a sleep of the whole seconds of the argument
/// (see `sleep_spec`).
pub fn time_sleep(v: &Type, mode: &ExecutionMode, out: &mut Vec<Vec<Piece>>) -> (r: StdCall)
    ensures
        r@ == sleep_spec(v@, *mode).0,
        lines_view(final(out)@) == lines_view(old(out)@) + sleep_spec(v@, *mode).1,
{
    proof { lemma_val_kind(*v); }
    match v {
        Type::Number(b) => {
            log_pieces(mode, number_line_of(String::new(), *b, text("秒間スリープします")), out);
            StdCall::Sleep(number_to_u64(*b))
        },
        _ => {
            log_print(mode, text("エラー! 秒数は数値型です"), out);
            StdCall::Done(ReturnValue::Error(text("エラー! 秒数は数値型です")))
        },
    }
}

/// `types` (the function `type`): the name of the value's type.
pub fn types(v: &Type, mode: &ExecutionMode, out: &mut Vec<Vec<Piece>>) -> (r: StdCall)
    ensures
        r@ == StdNeed::Done(Returned::Value(Val::Text(kind_name(v@)))),
        lines_view(final(out)@) == lines_view(old(out)@) + logs(*mode, seq!["データ型を判定します"@]),
{
    proof { lemma_val_kind(*v); }
    log_print(mode, text("データ型を判定します"), out);
    let k = match v {
        Type::Number(_) => text("number"),
        Type::String(_) => text("string"),
        Type::Bool(_) => text("bool"),
        Type::List(_) => text("list"),
        Type::Function(_) => text("function"),
    };
    StdCall::Done(ReturnValue::Value(Type::String(k)))
}

/// `string`: the value as a text (see `to_text`).
pub fn string(v: &Type, mem: &Memory, mode: &ExecutionMode, out: &mut Vec<Vec<Piece>>) -> (r: StdCall)
    ensures
        r@ == to_text(v@, funcs_view(mem.name_space@)),
        lines_view(final(out)@) == lines_view(old(out)@) + logs(*mode, seq!["文字列型に変換します"@]),
{
    log_print(mode, text("文字列型に変換します"), out);
    convert(0, v, mem)
}

/// `number`: the value as a number (see `to_number`).
pub fn number(v: &Type, mem: &Memory, mode: &ExecutionMode, out: &mut Vec<Vec<Piece>>) -> (r: StdCall)
    ensures
        r@ == to_number(v@, funcs_view(mem.name_space@)),
        lines_view(final(out)@) == lines_view(old(out)@) + logs(*mode, seq!["数値型に変換します"@]),
{
    log_print(mode, text("数値型に変換します"), out);
    convert(1, v, mem)
}

/// `bool`: the value as a truth value (see `to_bool`).
pub fn bool(v: &Type, mem: &Memory, mode: &ExecutionMode, out: &mut Vec<Vec<Piece>>) -> (r: StdCall)
    ensures
        r@ == to_bool(v@, funcs_view(mem.name_space@)),
        lines_view(final(out)@) == lines_view(old(out)@) + logs(*mode, seq!["論理型に変換します"@]),
{
    log_print(mode, text("論理型に変換します"), out);
    convert(2, v, mem)
}

/// `list`: an empty list.
pub fn list() -> (r: StdCall)
    ensures
        r@ == StdNeed::Done(Returned::Value(Val::List(Seq::empty()))),
{
    let r = StdCall::Done(ReturnValue::Value(Type::List(Vec::new())));
    assert(vals_of(Seq::<Type>::empty()) =~= Seq::<Val>::empty());
    r
}

/// `call_stdlib`: calls the standard function `name` with its arguments
/// (the first popped first): gives what the call gives, or what it needs
/// from the host (see `std_spec`).
pub fn call_stdlib(name: &String, args: &Vec<Type>, mem: &Memory, mode: &ExecutionMode, out: &mut Vec<Vec<Piece>>) -> (r: StdCall)
    requires
        args@.len() >= std_args_len(name@),
    ensures
        r@ == std_spec(name@, vals_of(args@), *mem, *mode).0,
        lines_view(final(out)@) == lines_view(old(out)@) + std_spec(name@, vals_of(args@), *mem, *mode).1,
{
    proof {
        lemma_list_view(Type::List(*args));
        reveal_strlit("input");
        reveal_strlit("print");
        reveal_strlit("time.now");
        reveal_strlit("time.sleep");
        reveal_strlit("ref");
        reveal_strlit("access");
        reveal_strlit("type");
        reveal_strlit("string");
        reveal_strlit("number");
        reveal_strlit("bool");
        reveal_strlit("list");
    }
    let ghost a = vals_of(args@);
    let is = |t: &str| -> (b: bool)
        ensures
            b == (name@ == t@),
        { *name == String::from_str(t) };
    if !(is("input") || is("print") || is("time.now") || is("time.sleep") || is("ref") || is("access")
        || is("type") || is("string") || is("number") || is("bool") || is("list")) {
        assert(lines_view(out@) =~= lines_view(old(out)@) + Seq::<Seq<PieceView>>::empty());
        return StdCall::Done(ReturnValue::Nothing);
    }
    log_print(mode, message("標準ライブラリの", name.as_str(), "関数を呼び出します"), out);
    if is("input") {
        input(&args[0], mode, out)
    } else if is("print") {
        print(&args[0], mem, mode, out)
    } else if is("time.now") {
        time_now(mode, out)
    } else if is("time.sleep") {
        time_sleep(&args[0], mode, out)
    } else if is("ref") {
        refer(&args[0], mem, mode, out)
    } else if is("access") {
        access(&args[0], mem, mode, out)
    } else if is("type") {
        types(&args[0], mode, out)
    } else if is("string") {
        string(&args[0], mem, mode, out)
    } else if is("number") {
        number(&args[0], mem, mode, out)
    } else if is("bool") {
        bool(&args[0], mem, mode, out)
    } else {
        list()
    }
}

/// What a call that needed a number read from a text gives: the number,
/// or, when the text is none, an error (strict) or 0.
pub fn finish_parse(strict: bool, parsed: Option<u64>, mode: &ExecutionMode, out: &mut Vec<Vec<Piece>>) -> (r: ReturnValue)
    ensures
        parsed matches Some(b) ==> r@ == Returned::Value(Val::Number(b)) && final(out)@ == old(out)@,
        parsed is None && strict ==> r@ == Returned::Error("エラー! 変換できませんでした"@)
            && lines_view(final(out)@) == lines_view(old(out)@) + logs(*mode, seq!["エラー! 変換できませんでした"@]),
        parsed is None && !strict ==> r@ == Returned::Value(Val::Number(zero_bits())) && final(out)@ == old(out)@,
{
    match parsed {
        Some(b) => ReturnValue::Value(Type::Number(b)),
        None => if strict {
            log_print(mode, text("エラー! 変換できませんでした"), out);
            ReturnValue::Error(text("エラー! 変換できませんでした"))
        } else {
            ReturnValue::Value(Type::Number(0))
        },
    }
}

} // verus!
