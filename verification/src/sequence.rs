//! Indexing into lists and texts: reading an element (`x[i]` in an
//! expression), setting one (`var x[i] = v`) and deleting one (`del x[i]`).
//!
//! The index is an expression that the host evaluates; these functions are
//! given its result, and, for messages, the host's rendering of the number
//! it gave.
use vstd::prelude::*;
use crate::text::{contains, contains_text, remove_all, remove_all_text, split, split_text, trim, trim_text, utf8_len, utf8_length, lemma_split_nonempty};
use crate::types::{
    lemma_list_view, lemma_val_kind, lines_view, line_view, log_print, logs, text, text_line, vals_of, vars_view,
    var_view, ExecutionMode, Piece, PieceView, ReturnValue, Returned, Type, Val, Variable,
};
use crate::memory::{first_index, lemma_first_index_from, name_key, var_names, Memory};
use crate::float::{clamp_usize, count_bits, number_from_usize, number_to_usize, trunc_u64};

verus! {

/// The value that an index expression gave, errors aside: what it returned,
/// or 0 when it returned no value.
pub open spec fn index_value(r: Returned) -> Val {
    match r {
        Returned::Value(v) => v,
        _ => Val::Number(0),
    }
}

/// The position that a number index selects: `i as usize`.
pub open spec fn slot(b: u64) -> nat {
    clamp_usize(trunc_u64(b))
}

/// The error for an index out of range, with the index as the host renders it.
pub open spec fn range_error(index_text: Seq<char>) -> Seq<char> {
    "エラー! "@ + index_text + "はインデックス範囲外です"@
}

/// The error for an index that is not a number.
pub open spec fn kind_error() -> Seq<char> {
    "エラー! インデックスは数値型です"@
}

/// `log_print` of a line of pieces.
pub open spec fn log_line(mode: ExecutionMode, line: Seq<PieceView>) -> Seq<Seq<PieceView>> {
    if mode is Script {
        Seq::empty()
    } else {
        seq![line]
    }
}

/// The line `<before><number><after>`.
pub open spec fn number_line(before: Seq<char>, b: u64, after: Seq<char>) -> Seq<PieceView> {
    seq![PieceView::Text(before), PieceView::Number(b), PieceView::Text(after)]
}

/// Reading must evaluate the index expression a second time: the sequence
/// is a list or a text and the first result was no error and no number.
pub open spec fn needs_second(item: Val, first: Returned) -> bool {
    (item is List || item is Text) && !(first is Error) && !(index_value(first) is Number)
}

/// What `get_sequence_value` gives.
pub open spec fn get_seq(item: Val, first: Returned, index_text: Seq<char>, second: Returned) -> Returned {
    match item {
        Val::List(l) => match first {
            Returned::Error(e) => Returned::Error(e),
            _ => match index_value(first) {
                Val::Number(b) => if slot(b) < l.len() {
                    Returned::Value(l[slot(b) as int])
                } else {
                    Returned::Error(range_error(index_text))
                },
                _ => match second {
                    Returned::Error(e) => Returned::Error(e),
                    _ => if index_value(second) matches Val::Text(is) && contains(is, "len"@) {
                        Returned::Value(Val::Number(count_bits(l.len())))
                    } else {
                        Returned::Error(kind_error())
                    },
                },
            },
        },
        Val::Text(s) => match first {
            Returned::Error(e) => Returned::Error(e),
            _ => match index_value(first) {
                Val::Number(b) => if slot(b) < s.len() {
                    Returned::Value(Val::Text(seq![s[slot(b) as int]]))
                } else {
                    Returned::Error(range_error(index_text))
                },
                _ => match second {
                    Returned::Error(e) => Returned::Error(e),
                    _ => if index_value(second) matches Val::Text(is) && contains(is, "len"@) {
                        Returned::Value(Val::Number(count_bits(s.len())))
                    } else {
                        Returned::Error(kind_error())
                    },
                },
            },
        },
        _ => match first {
            Returned::Error(e) => Returned::Error(e),
            _ => Returned::Value(index_value(first)),
        },
    }
}

/// What `get_sequence_value` prints.
pub open spec fn get_seq_logs(item: Val, first: Returned, second: Returned, mode: ExecutionMode) -> Seq<Seq<PieceView>> {
    let what = if item is List { "リストの長さを求めます"@ } else { "文字列の長さを求めます"@ };
    match item {
        Val::List(_) | Val::Text(_) => match first {
            Returned::Error(_) => Seq::empty(),
            _ => match index_value(first) {
                Val::Number(b) => (match item {
                    Val::Text(s) => log_line(mode, number_line("'"@ + s + "'のインデックス"@, b, "の文字を求めます"@)),
                    _ => log_line(mode, number_line("インデックス"@, b, "の値を求めます"@)),
                }) + (if slot(b) < (match item { Val::List(l) => l.len(), Val::Text(s) => s.len(), _ => 0 }) {
                    Seq::empty()
                } else {
                    log_line(mode, number_line("エラー! "@, b, "はインデックス範囲外です"@))
                }),
                _ => match second {
                    Returned::Error(_) => Seq::empty(),
                    _ => match index_value(second) {
                        Val::Text(is) => logs(mode, seq![what]) + if contains(is, "len"@) {
                            Seq::empty()
                        } else {
                            logs(mode, seq![kind_error()])
                        },
                        _ => logs(mode, seq![kind_error()]),
                    },
                },
            },
        },
        _ => Seq::empty(),
    }
}

/// `log_print` of a line of pieces.
pub fn log_pieces(mode: &ExecutionMode, line: Vec<Piece>, out: &mut Vec<Vec<Piece>>)
    ensures
        lines_view(final(out)@) == lines_view(old(out)@) + log_line(*mode, line_view(line)),
{
    if !mode.is_script() {
        out.push(line);
    }
    assert(lines_view(out@) =~= lines_view(old(out)@) + log_line(*mode, line_view(line)));
}

/// The line `<before><number><after>`.
pub fn number_line_of(before: String, b: u64, after: String) -> (r: Vec<Piece>)
    ensures
        line_view(r) == number_line(before@, b, after@),
{
    let r = vec![Piece::Text(before), Piece::Number(b), Piece::Text(after)];
    assert(line_view(r) =~= number_line(before@, b, after@));
    r
}

/// The number that an index result stands for, if it is a number (0 when
/// the index gave no value): the host renders it for messages.
pub fn index_number(r: &ReturnValue) -> (n: Option<u64>)
    ensures
        match index_value(r@) {
            Val::Number(b) => !(r@ is Error) ==> n == Some(b),
            _ => n is None,
        },
        r@ is Error ==> n is None,
{
    match r {
        ReturnValue::Value(Type::Number(b)) => Some(*b),
        ReturnValue::Value(v) => {
            proof { lemma_val_kind(*v); }
            None
        },
        ReturnValue::Error(_) => None,
        _ => Some(0),
    }
}

/// Whether reading evaluates the index expression a second time.
pub fn needs_second_evaluation(item: &Type, first: &ReturnValue) -> (r: bool)
    ensures
        r == needs_second(item@, first@),
{
    proof {
        lemma_val_kind(*item);
    }
    let seq_kind = match item {
        Type::List(_) | Type::String(_) => true,
        _ => false,
    };
    if !seq_kind {
        return false;
    }
    match first {
        ReturnValue::Error(_) => false,
        ReturnValue::Value(v) => {
            proof { lemma_val_kind(*v); }
            match v {
                Type::Number(_) => false,
                _ => true,
            }
        },
        _ => false,
    }
}

/// The error result for an index out of range.
fn range_error_of(index_text: &String) -> (r: ReturnValue)
    ensures
        r@ == Returned::Error(range_error(index_text@)),
{
    let mut e = text("エラー! ");
    e.append(index_text.as_str());
    e.append("はインデックス範囲外です");
    ReturnValue::Error(e)
}

/// `get_sequence_value`: the element of a list or text at the index that
/// `first` gave, or its length for an index text holding `len` (from the
/// second evaluation `second`); for any other value, the index's value.
pub fn get_sequence_value(item: &Type, first: ReturnValue, index_text: &String, second: ReturnValue, mode: &ExecutionMode, out: &mut Vec<Vec<Piece>>) -> (r: ReturnValue)
    ensures
        r@ == get_seq(item@, first@, index_text@, second@),
        lines_view(final(out)@) == lines_view(old(out)@) + get_seq_logs(item@, first@, second@, *mode),
{
    proof {
        lemma_val_kind(*item);
        lemma_list_view(*item);
    }
    let ghost fv = first@;
    let ghost sv = second@;
    match item {
        Type::List(l) => {
            let v = match first {
                ReturnValue::Value(v) => v,
                ReturnValue::Error(e) => {
                    assert(lines_view(out@) =~= lines_view(old(out)@) + get_seq_logs(item@, fv, sv, *mode));
                    return ReturnValue::Error(e);
                },
                _ => Type::Number(0),
            };
            proof { lemma_val_kind(v); }
            if let Type::Number(b) = v {
                let j = number_to_usize(b);
                log_pieces(mode, number_line_of(text("インデックス"), b, text("の値を求めます")), out);
                if j < l.len() {
                    assert(lines_view(out@) =~= lines_view(old(out)@) + get_seq_logs(item@, fv, sv, *mode));
                    return ReturnValue::Value(l[j].copy());
                } else {
                    log_pieces(mode, number_line_of(text("エラー! "), b, text("はインデックス範囲外です")), out);
                    assert(lines_view(out@) =~= lines_view(old(out)@) + get_seq_logs(item@, fv, sv, *mode));
                    return range_error_of(index_text);
                }
            }
            let w = match second {
                ReturnValue::Value(w) => w,
                ReturnValue::Error(e) => {
                    assert(lines_view(out@) =~= lines_view(old(out)@) + get_seq_logs(item@, fv, sv, *mode));
                    return ReturnValue::Error(e);
                },
                _ => Type::Number(0),
            };
            proof { lemma_val_kind(w); }
            if let Type::String(is) = w {
                log_print(mode, text("リストの長さを求めます"), out);
                if contains_text(is.as_str(), "len") {
                    assert(lines_view(out@) =~= lines_view(old(out)@) + get_seq_logs(item@, fv, sv, *mode));
                    return ReturnValue::Value(Type::Number(number_from_usize(l.len())));
                }
            }
            log_print(mode, text("エラー! インデックスは数値型です"), out);
            assert(lines_view(out@) =~= lines_view(old(out)@) + get_seq_logs(item@, fv, sv, *mode));
            ReturnValue::Error(text("エラー! インデックスは数値型です"))
        },
        Type::String(s) => {
            let chars = crate::text::chars_of(s.as_str());
            let v = match first {
                ReturnValue::Value(v) => v,
                ReturnValue::Error(e) => {
                    assert(lines_view(out@) =~= lines_view(old(out)@) + get_seq_logs(item@, fv, sv, *mode));
                    return ReturnValue::Error(e);
                },
                _ => Type::Number(0),
            };
            proof { lemma_val_kind(v); }
            if let Type::Number(b) = v {
                let j = number_to_usize(b);
                let mut before = text("'");
                before.append(s.as_str());
                before.append("'のインデックス");
                log_pieces(mode, number_line_of(before, b, text("の文字を求めます")), out);
                if j < chars.len() {
                    let mut c = String::new();
                    c.push(chars[j]);
                    assert(c@ =~= seq![s@[j as int]]);
                    assert(lines_view(out@) =~= lines_view(old(out)@) + get_seq_logs(item@, fv, sv, *mode));
                    return ReturnValue::Value(Type::String(c));
                } else {
                    log_pieces(mode, number_line_of(text("エラー! "), b, text("はインデックス範囲外です")), out);
                    assert(lines_view(out@) =~= lines_view(old(out)@) + get_seq_logs(item@, fv, sv, *mode));
                    return range_error_of(index_text);
                }
            }
            let w = match second {
                ReturnValue::Value(w) => w,
                ReturnValue::Error(e) => {
                    assert(lines_view(out@) =~= lines_view(old(out)@) + get_seq_logs(item@, fv, sv, *mode));
                    return ReturnValue::Error(e);
                },
                _ => Type::Number(0),
            };
            proof { lemma_val_kind(w); }
            if let Type::String(is) = w {
                log_print(mode, text("文字列の長さを求めます"), out);
                if contains_text(is.as_str(), "len") {
                    assert(lines_view(out@) =~= lines_view(old(out)@) + get_seq_logs(item@, fv, sv, *mode));
                    return ReturnValue::Value(Type::Number(number_from_usize(chars.len())));
                }
            }
            log_print(mode, text("エラー! インデックスは数値型です"), out);
            assert(lines_view(out@) =~= lines_view(old(out)@) + get_seq_logs(item@, fv, sv, *mode));
            ReturnValue::Error(text("エラー! インデックスは数値型です"))
        },
        _ => {
            assert(lines_view(out@) =~= lines_view(old(out)@) + get_seq_logs(item@, fv, sv, *mode));
            match first {
                ReturnValue::Value(v) => ReturnValue::Value(v),
                ReturnValue::Error(e) => ReturnValue::Error(e),
                _ => ReturnValue::Value(Type::Number(0)),
            }
        },
    }
}

/// The pieces of a target `name[index]`: the trimmed text without `]`,
/// split at `[`.
pub open spec fn target_parts(item: Seq<char>) -> Seq<Seq<char>> {
    split(remove_all(trim(item), ']'), '[')
}

/// Whether a target has an index part (the statement reads the second
/// piece, and stops without one).
pub fn target_has_index(item: &str) -> (r: bool)
    ensures
        r == (target_parts(item@).len() >= 2),
{
    let t = trim_text(item);
    let u = remove_all_text(t.as_str(), ']');
    let parts = split_text(u.as_str(), '[');
    parts.len() >= 2
}

/// The variable name and the index expression of a target `name[index]`.
pub fn target_of(item: &str) -> (r: (String, String))
    requires
        target_parts(item@).len() >= 2,
    ensures
        r.0@ == trim(target_parts(item@)[0]),
        r.1@ == target_parts(item@)[1],
{
    let t = trim_text(item);
    let u = remove_all_text(t.as_str(), ']');
    let parts = split_text(u.as_str(), '[');
    let name = trim_text(parts[0].as_str());
    (name, parts[1].clone())
}

/// The value that an index result stands for, or the error it returned.
pub open spec fn index_or_error(r: Returned) -> Result<Val, Seq<char>> {
    match r {
        Returned::Error(e) => Err(e),
        _ => Ok(index_value(r)),
    }
}

/// The variable that a name finds.
pub open spec fn found(mem: Memory, name: Seq<char>) -> Option<int> {
    first_index(var_names(mem.memory@), name_key(name))
}

/// The current value of the variable that `name` finds (0 when none).
pub open spec fn current(mem: Memory, name: Seq<char>) -> Val {
    match found(mem, name) {
        Some(i) => mem.memory@[i].value@,
        None => Val::Number(0),
    }
}

/// What reading the variable prints.
pub open spec fn read_logs(mem: Memory, name: Seq<char>, mode: ExecutionMode) -> Seq<Seq<PieceView>> {
    logs(
        mode,
        if found(mem, name) is Some {
            seq!["変数"@ + name + "を読み込みます"@]
        } else {
            seq!["変数"@ + name + "を読み込みます"@, "変数"@ + name_key(name) + "が見つかりません"@]
        },
    )
}

/// `s` with the character at `j` replaced by `t`.
pub open spec fn replace_char(s: Seq<char>, j: int, t: Seq<char>) -> Seq<char> {
    s.subrange(0, j) + t + s.subrange(j + 1, s.len() as int)
}

/// The position that setting a text element writes, if it goes ahead.
pub open spec fn text_slot(index: Returned) -> int {
    match index_value(index) {
        Val::Number(b) => slot(b) as int,
        _ => 0,
    }
}

/// Setting stops the interpreter: a text target, an index that is
/// not a number (which selects position 0), and an empty text.
pub open spec fn set_panics(mem: Memory, name: Seq<char>, index: Returned) -> bool {
    current(mem, name) matches Val::Text(s) && !(index is Error) && !(index_value(index) is Number)
        && s.len() == 0
}

/// Setting goes ahead to write the variable at the address.
pub open spec fn set_writes(mem: Memory, name: Seq<char>, index: Returned) -> bool {
    match current(mem, name) {
        Val::List(l) => index_or_error(index) matches Ok(Val::Number(b)) && slot(b) < l.len(),
        Val::Text(s) => !(index is Error) && !(index_or_error(index) matches Ok(Val::Number(b)) && slot(b) >= s.len()),
        _ => false,
    }
}

/// What `set_sequence_value` gives, and the variables after it: the
/// element is written into the variable at `address`, which the statement
/// looked up before it evaluated the index.
pub open spec fn set_seq(mem: Memory, name: Seq<char>, address: int, index: Returned, index_text: Seq<char>, value: Val, value_text: Seq<char>) -> (Returned, Seq<(Seq<char>, Val)>) {
    let vars = vars_view(mem.memory@);
    match current(mem, name) {
        Val::List(l) => match index_or_error(index) {
            Err(e) => (Returned::Error(e), vars),
            Ok(Val::Number(b)) => if slot(b) < l.len() {
                (Returned::Nothing, vars.update(address, (vars[address].0, Val::List(l.update(slot(b) as int, value)))))
            } else {
                (Returned::Error(range_error(index_text)), vars)
            },
            Ok(_) => (Returned::Error(kind_error()), vars),
        },
        Val::Text(s) => match index_or_error(index) {
            Err(e) => (Returned::Error(e), vars),
            Ok(Val::Number(b)) if slot(b) >= s.len() => (Returned::Error(range_error(index_text)), vars),
            Ok(_) => (Returned::Nothing, vars.update(address, (vars[address].0, Val::Text(replace_char(s, text_slot(index), value_text))))),
        },
        _ => (Returned::Error("エラー! スライスは文字列型やリスト型のみ有効です"@), vars),
    }
}

/// What `set_sequence_value` prints.
pub open spec fn set_seq_logs(mem: Memory, name: Seq<char>, index: Returned, mode: ExecutionMode) -> Seq<Seq<PieceView>> {
    read_logs(mem, name, mode) + match current(mem, name) {
        Val::List(l) => match index_or_error(index) {
            Ok(Val::Number(b)) => log_line(mode, number_line("インデックス"@, b, "の値を変更します"@)) + if slot(b) < l.len() {
                Seq::empty()
            } else {
                log_line(mode, number_line("エラー! "@, b, "はインデックス範囲外です"@))
            },
            Ok(_) => logs(mode, seq![kind_error()]),
            Err(_) => Seq::empty(),
        },
        Val::Text(s) => match index_or_error(index) {
            Ok(Val::Number(b)) => log_line(mode, number_line("'"@ + s + "'のインデックス"@, b, "の値を変更します"@)) + if slot(b) < s.len() {
                Seq::empty()
            } else {
                log_line(mode, number_line("エラー! "@, b, "はインデックス範囲外です"@))
            },
            _ => Seq::empty(),
        },
        _ => Seq::empty(),
    }
}

proof fn lemma_found(mem: Memory, name: Seq<char>)
    ensures
        found(mem, name) matches Some(i) ==> 0 <= i < mem.memory@.len() && vars_view(mem.memory@)[i] == var_view(mem.memory@[i]),
{
    lemma_first_index_from(var_names(mem.memory@), name_key(name), 0);
}

impl Memory {
    /// Whether setting through `name` stops the interpreter (see
    /// `set_panics`).
    pub fn set_would_panic(&self, name: &str, index: &ReturnValue) -> (r: bool)
        ensures
            r == set_panics(*self, name@, index@),
    {
        let cur = match self.reference_variable(name) {
            Some(i) => {
                proof { lemma_val_kind(self.memory@[i as int].value); }
                match &self.memory[i].value {
                    Type::String(s) => Some(crate::text::chars_of(s.as_str()).len()),
                    _ => None,
                }
            },
            None => None,
        };
        match cur {
            None => false,
            Some(n) => match index {
                ReturnValue::Error(_) => false,
                ReturnValue::Value(v) => {
                    proof { lemma_val_kind(*v); }
                    match v {
                        Type::Number(_) => false,
                        _ => n == 0,
                    }
                },
                _ => false,
            },
        }
    }

    /// Whether the variable that `name` finds holds a text.
    pub fn holds_text(&self, name: &str) -> (r: bool)
        ensures
            r == (current(*self, name@) is Text),
    {
        proof { lemma_found(*self, name@); }
        match self.reference_variable(name) {
            Some(i) => {
                proof { lemma_val_kind(self.memory@[i as int].value); }
                match &self.memory[i].value {
                    Type::String(_) => true,
                    _ => false,
                }
            },
            None => false,
        }
    }

    /// Whether setting through `name` goes ahead to write (see `set_writes`).
    pub fn set_would_write(&self, name: &str, index: &ReturnValue) -> (r: bool)
        ensures
            r == set_writes(*self, name@, index@),
    {
        proof { lemma_found(*self, name@); }
        let len = match self.reference_variable(name) {
            Some(i) => {
                proof { lemma_val_kind(self.memory@[i as int].value); lemma_list_view(self.memory@[i as int].value); }
                match &self.memory[i].value {
                    Type::String(s) => Some((false, crate::text::chars_of(s.as_str()).len())),
                    Type::List(l) => Some((true, l.len())),
                    _ => None,
                }
            },
            None => None,
        };
        match len {
            None => false,
            Some((is_list, n)) => match index {
                ReturnValue::Error(_) => false,
                ReturnValue::Value(v) => {
                    proof { lemma_val_kind(*v); }
                    match v {
                        Type::Number(b) => number_to_usize(*b) < n,
                        _ => !is_list,
                    }
                },
                _ => number_to_usize(0) < n,
            },
        }
    }

    /// `set_sequence_value`: sets the element at the index (the result of
    /// the index expression) of the list or text that `name` holds. A text
    /// element is replaced by `value_text`: the value itself when it is a
    /// text, else its rendering.
    pub fn set_sequence_value(&mut self, name: &str, address: usize, index: ReturnValue, index_text: &String, value: Type, value_text: &String, mode: &ExecutionMode, out: &mut Vec<Vec<Piece>>) -> (r: ReturnValue)
        requires
            !set_panics(*old(self), name@, index@),
            set_writes(*old(self), name@, index@) ==> address < old(self).memory@.len(),
        ensures
            r@ == set_seq(*old(self), name@, address as int, index@, index_text@, value@, value_text@).0,
            vars_view(final(self).memory@) == set_seq(*old(self), name@, address as int, index@, index_text@, value@, value_text@).1,
            final(self).name_space == old(self).name_space,
            lines_view(final(out)@) == lines_view(old(out)@) + set_seq_logs(*old(self), name@, index@, *mode),
    {
        let ghost iv = index@;
        let ghost vv = value@;
        let ghost vars = vars_view(self.memory@);
        proof { lemma_found(*self, name@); }
        let cur = self.get_variable_value(name, mode, out);
        let ghost after_read = lines_view(out@);
        proof { lemma_val_kind(cur); lemma_list_view(cur); }
        match cur {
            Type::List(mut l) => {
                let i = match index {
                    ReturnValue::Value(v) => v,
                    ReturnValue::Error(e) => {
                        assert(lines_view(out@) =~= lines_view(old(out)@) + set_seq_logs(*old(self), name@, iv, *mode));
                        return ReturnValue::Error(e);
                    },
                    _ => Type::Number(0),
                };
                proof { lemma_val_kind(i); }
                if let Type::Number(b) = i {
                    let j = number_to_usize(b);
                    log_pieces(mode, number_line_of(text("インデックス"), b, text("の値を変更します")), out);
                    if j < l.len() {
                        let ghost lv = vals_of(l@);
                        l.set(j, value);
                        proof {
                            lemma_list_view(Type::List(l));
                            assert(vals_of(l@) =~= lv.update(j as int, vv));
                        }
                        let old_name = self.memory[address].name.clone();
                        self.memory.set(address, Variable { name: old_name, value: Type::List(l) });
                        assert(vars_view(self.memory@) =~= set_seq(*old(self), name@, address as int, iv, index_text@, vv, value_text@).1);
                        assert(lines_view(out@) =~= lines_view(old(out)@) + set_seq_logs(*old(self), name@, iv, *mode));
                        ReturnValue::Nothing
                    } else {
                        log_pieces(mode, number_line_of(text("エラー! "), b, text("はインデックス範囲外です")), out);
                        assert(lines_view(out@) =~= lines_view(old(out)@) + set_seq_logs(*old(self), name@, iv, *mode));
                        range_error_of(index_text)
                    }
                } else {
                    log_print(mode, text("エラー! インデックスは数値型です"), out);
                    assert(lines_view(out@) =~= lines_view(old(out)@) + set_seq_logs(*old(self), name@, iv, *mode));
                    ReturnValue::Error(text("エラー! インデックスは数値型です"))
                }
            },
            Type::String(s) => {
                let chars = crate::text::chars_of(s.as_str());
                let i = match index {
                    ReturnValue::Value(v) => v,
                    ReturnValue::Error(e) => {
                        assert(lines_view(out@) =~= lines_view(old(out)@) + set_seq_logs(*old(self), name@, iv, *mode));
                        return ReturnValue::Error(e);
                    },
                    _ => Type::Number(0),
                };
                proof { lemma_val_kind(i); }
                let j = if let Type::Number(b) = i {
                    let j = number_to_usize(b);
                    let mut before = text("'");
                    before.append(s.as_str());
                    before.append("'のインデックス");
                    log_pieces(mode, number_line_of(before, b, text("の値を変更します")), out);
                    if j < chars.len() {
                        j
                    } else {
                        log_pieces(mode, number_line_of(text("エラー! "), b, text("はインデックス範囲外です")), out);
                        assert(lines_view(out@) =~= lines_view(old(out)@) + set_seq_logs(*old(self), name@, iv, *mode));
                        return range_error_of(index_text);
                    }
                } else {
                    0
                };
                let mut t = crate::text::string_of_range(&chars, 0, j);
                t.append(value_text.as_str());
                let rest = crate::text::string_of_range(&chars, j + 1, chars.len());
                t.append(rest.as_str());
                let old_name = self.memory[address].name.clone();
                self.memory.set(address, Variable { name: old_name, value: Type::String(t) });
                assert(vars_view(self.memory@) =~= set_seq(*old(self), name@, address as int, iv, index_text@, vv, value_text@).1);
                assert(lines_view(out@) =~= lines_view(old(out)@) + set_seq_logs(*old(self), name@, iv, *mode));
                ReturnValue::Nothing
            },
            _ => {
                assert(lines_view(out@) =~= lines_view(old(out)@) + set_seq_logs(*old(self), name@, iv, *mode));
                ReturnValue::Error(text("エラー! スライスは文字列型やリスト型のみ有効です"))
            },
        }
    }
}

/// Where `found` falls back to the first variable, as `unwrap_or(0)` does.
pub open spec fn address(mem: Memory, name: Seq<char>) -> int {
    match found(mem, name) {
        Some(i) => i,
        None => 0,
    }
}

/// Deleting from a list goes ahead to write the list back.
pub open spec fn del_list_writes(l: Seq<Val>, index: Returned) -> bool {
    index_or_error(index) matches Ok(Val::Number(b)) && slot(b) < l.len()
}

/// What deleting from the list `l` (read from `name` before the index was
/// evaluated) gives: an early result, or none when it went ahead; and the
/// variables after it.
pub open spec fn del_list(mem: Memory, name: Seq<char>, l: Seq<Val>, index: Returned, index_text: Seq<char>) -> (Option<Returned>, Seq<(Seq<char>, Val)>) {
    let vars = vars_view(mem.memory@);
    let a = address(mem, name);
    match index_or_error(index) {
        Err(e) => (Some(Returned::Error(e)), vars),
        Ok(Val::Number(b)) => if slot(b) < l.len() {
            (None, vars.update(a, (vars[a].0, Val::List(l.remove(slot(b) as int)))))
        } else {
            (Some(Returned::Error(range_error(index_text))), vars)
        },
        Ok(_) => (Some(Returned::Error(kind_error())), vars),
    }
}

/// What deleting from a list prints.
pub open spec fn del_list_logs(l: Seq<Val>, index: Returned, mode: ExecutionMode) -> Seq<Seq<PieceView>> {
    match index_or_error(index) {
        Err(_) => Seq::empty(),
        Ok(Val::Number(b)) => log_line(mode, number_line("インデックス"@, b, "の値を削除します"@)) + if slot(b) < l.len() {
            Seq::empty()
        } else {
            log_line(mode, number_line("エラー! "@, b, "はインデックス範囲外です"@))
        },
        Ok(_) => logs(mode, seq![kind_error()]),
    }
}

/// The length in bytes of a text held in memory (`str::len`).
pub open spec fn byte_len(s: Seq<char>) -> nat {
    if utf8_len(s) <= usize::MAX {
        utf8_len(s)
    } else {
        usize::MAX as nat
    }
}

/// The position that deleting from the text `s` removes, if it goes ahead:
/// the index when it is below the text's length in bytes, else 0 in
/// `Script` mode.
pub open spec fn del_text_pos(s: Seq<char>, index: Returned, mode: ExecutionMode) -> Option<int> {
    match index_or_error(index) {
        Ok(Val::Number(b)) => if slot(b) < byte_len(s) {
            Some(slot(b) as int)
        } else if mode is Script {
            Some(0)
        } else {
            None
        },
        _ => None,
    }
}

/// What deleting from the text `s` gives and leaves.
pub open spec fn del_text(mem: Memory, name: Seq<char>, s: Seq<char>, index: Returned, index_text: Seq<char>, mode: ExecutionMode) -> (Option<Returned>, Seq<(Seq<char>, Val)>) {
    let vars = vars_view(mem.memory@);
    let a = address(mem, name);
    match index_or_error(index) {
        Err(e) => (Some(Returned::Error(e)), vars),
        Ok(Val::Number(b)) => match del_text_pos(s, index, mode) {
            Some(j) => (None, vars.update(a, (vars[a].0, Val::Text(s.remove(j))))),
            None => (Some(Returned::Error(range_error(index_text))), vars),
        },
        Ok(_) => (Some(Returned::Error(kind_error())), vars),
    }
}

/// What deleting from a text prints.
pub open spec fn del_text_logs(index: Returned, mode: ExecutionMode) -> Seq<Seq<PieceView>> {
    match index_or_error(index) {
        Err(_) => Seq::empty(),
        Ok(Val::Number(b)) => log_line(mode, number_line("インデックス"@, b, "の値を削除します"@)),
        Ok(_) => logs(mode, seq![kind_error()]),
    }
}

/// Deleting from the text stops the interpreter: the position is
/// past the text's characters, or there is no variable to write to.
pub open spec fn del_text_panics(mem: Memory, s: Seq<char>, index: Returned, mode: ExecutionMode) -> bool {
    del_text_pos(s, index, mode) matches Some(j) && (j >= s.len() || mem.memory@.len() == 0)
}

impl Memory {
    /// Deletes the element at the index from the list `l`, read from
    /// `name` before the index was evaluated, and writes the list back to
    /// the variable that `name` finds (or the first one).
    pub fn del_from_list(&mut self, name: &str, l: Vec<Type>, index: ReturnValue, index_text: &String, mode: &ExecutionMode, out: &mut Vec<Vec<Piece>>) -> (r: Option<ReturnValue>)
        requires
            del_list_writes(vals_of(l@), index@) ==> old(self).memory@.len() > 0,
        ensures
            r matches Some(x) ==> del_list(*old(self), name@, vals_of(l@), index@, index_text@).0 == Some(x@),
            r is None ==> del_list(*old(self), name@, vals_of(l@), index@, index_text@).0 is None,
            vars_view(final(self).memory@) == del_list(*old(self), name@, vals_of(l@), index@, index_text@).1,
            final(self).name_space == old(self).name_space,
            lines_view(final(out)@) == lines_view(old(out)@) + del_list_logs(vals_of(l@), index@, *mode),
    {
        let ghost iv = index@;
        let ghost lv = vals_of(l@);
        proof { lemma_found(*self, name@); lemma_list_view(Type::List(l)); }
        let i = match index {
            ReturnValue::Value(v) => v,
            ReturnValue::Error(e) => {
                assert(lines_view(out@) =~= lines_view(old(out)@) + del_list_logs(lv, iv, *mode));
                return Some(ReturnValue::Error(e));
            },
            _ => Type::Number(0),
        };
        proof { lemma_val_kind(i); }
        let mut l = l;
        if let Type::Number(b) = i {
            let j = number_to_usize(b);
            log_pieces(mode, number_line_of(text("インデックス"), b, text("の値を削除します")), out);
            if j < l.len() {
                l.remove(j);
                proof {
                    lemma_list_view(Type::List(l));
                    assert(vals_of(l@) =~= lv.remove(j as int));
                }
                let address = match self.reference_variable(name) {
                    Some(a) => a,
                    None => 0,
                };
                let old_name = self.memory[address].name.clone();
                self.memory.set(address, Variable { name: old_name, value: Type::List(l) });
                assert(vars_view(self.memory@) =~= del_list(*old(self), name@, lv, iv, index_text@).1);
                assert(lines_view(out@) =~= lines_view(old(out)@) + del_list_logs(lv, iv, *mode));
                None
            } else {
                log_pieces(mode, number_line_of(text("エラー! "), b, text("はインデックス範囲外です")), out);
                assert(lines_view(out@) =~= lines_view(old(out)@) + del_list_logs(lv, iv, *mode));
                Some(range_error_of(index_text))
            }
        } else {
            log_print(mode, text("エラー! インデックスは数値型です"), out);
            assert(lines_view(out@) =~= lines_view(old(out)@) + del_list_logs(lv, iv, *mode));
            Some(ReturnValue::Error(text("エラー! インデックスは数値型です")))
        }
    }

    /// Whether deleting from the text `s` stops the interpreter.
    pub fn del_text_would_panic(&self, s: &String, index: &ReturnValue, mode: &ExecutionMode) -> (r: bool)
        ensures
            r == del_text_panics(*self, s@, index@, *mode),
    {
        let n = crate::text::chars_of(s.as_str()).len();
        let len = utf8_length(s.as_str());
        proof { crate::text::lemma_utf8_len_bounds(s@); }
        let b = match index {
            ReturnValue::Error(_) => return false,
            ReturnValue::Value(v) => {
                proof { lemma_val_kind(*v); }
                match v {
                    Type::Number(b) => *b,
                    _ => return false,
                }
            },
            _ => 0,
        };
        let j = number_to_usize(b);
        let pos = if j < len {
            j
        } else if mode.is_script() {
            0
        } else {
            return false;
        };
        pos >= n || self.memory.len() == 0
    }

    /// Deletes the character at the index from the text `s`, read from
    /// `name` before the index was evaluated, and writes the text back.
    pub fn del_from_text(&mut self, name: &str, s: String, index: ReturnValue, index_text: &String, mode: &ExecutionMode, out: &mut Vec<Vec<Piece>>) -> (r: Option<ReturnValue>)
        requires
            !del_text_panics(*old(self), s@, index@, *mode),
        ensures
            r matches Some(x) ==> del_text(*old(self), name@, s@, index@, index_text@, *mode).0 == Some(x@),
            r is None ==> del_text(*old(self), name@, s@, index@, index_text@, *mode).0 is None,
            vars_view(final(self).memory@) == del_text(*old(self), name@, s@, index@, index_text@, *mode).1,
            final(self).name_space == old(self).name_space,
            lines_view(final(out)@) == lines_view(old(out)@) + del_text_logs(index@, *mode),
    {
        let ghost iv = index@;
        proof { lemma_found(*self, name@); crate::text::lemma_utf8_len_bounds(s@); }
        let len = utf8_length(s.as_str());
        let mut chars = crate::text::chars_of(s.as_str());
        let i = match index {
            ReturnValue::Value(v) => v,
            ReturnValue::Error(e) => {
                assert(lines_view(out@) =~= lines_view(old(out)@) + del_text_logs(iv, *mode));
                return Some(ReturnValue::Error(e));
            },
            _ => Type::Number(0),
        };
        proof { lemma_val_kind(i); }
        if let Type::Number(b) = i {
            let j = number_to_usize(b);
            log_pieces(mode, number_line_of(text("インデックス"), b, text("の値を削除します")), out);
            let pos = if j < len {
                j
            } else if mode.is_script() {
                0
            } else {
                assert(lines_view(out@) =~= lines_view(old(out)@) + del_text_logs(iv, *mode));
                return Some(range_error_of(index_text));
            };
            chars.remove(pos);
            let t = crate::text::string_of(&chars);
            let address = match self.reference_variable(name) {
                Some(a) => a,
                None => 0,
            };
            let old_name = self.memory[address].name.clone();
            self.memory.set(address, Variable { name: old_name, value: Type::String(t) });
            assert(vars_view(self.memory@) =~= del_text(*old(self), name@, s@, iv, index_text@, *mode).1);
            assert(lines_view(out@) =~= lines_view(old(out)@) + del_text_logs(iv, *mode));
            None
        } else {
            log_print(mode, text("エラー! インデックスは数値型です"), out);
            assert(lines_view(out@) =~= lines_view(old(out)@) + del_text_logs(iv, *mode));
            Some(ReturnValue::Error(text("エラー! インデックスは数値型です")))
        }
    }
}

} // verus!
