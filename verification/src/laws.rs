//! Properties of the interpreter that hold across its operations.
use vstd::prelude::*;
use crate::text::{join, split};
use crate::types::Val;
use crate::memory::{first_index, lemma_first_index_found, lemma_first_index_from, name_key, set_var_spec};
use crate::machine::{names_of, value_named, block_spec, resume_spec, Asked, PhaseView, Told};
use crate::executor::{collect, definition_name, ExecView};
use crate::memory::{var_names, Memory};
use crate::types::{vars_view, funcs_view, ControlMode, ExecutionMode, Returned};
use crate::sequence::{current, del_list, found, get_seq, set_seq, slot};
use crate::machine::lemma_views;
use crate::stdlib::{access_spec, refer_spec, StdNeed};
use crate::float::{clamp_usize, count_bits, law_count_round_trip, lemma_count_bits_exact, round_u64};
use crate::calls::bind_params;
use crate::stdlib::{address_kind_error, address_range_error, to_bool};
use crate::float::{exp_field, frac_field, is_nan, magnitude, mag_of, value, num_eq, zero_bits, one_bits};
use crate::checker::{check_step, FrameView};
use crate::types::{text_line, FunctionView};
use vstd::arithmetic::power2::*;
use vstd::arithmetic::mul::*;

verus! {

/// No two variables have the same name.
pub open spec fn distinct_names(vars: Seq<(Seq<char>, Val)>) -> bool {
    forall|i: int, j: int| 0 <= i < j < vars.len() ==> vars[i].0 != vars[j].0
}

proof fn lemma_names_update(vars: Seq<(Seq<char>, Val)>, i: int, x: (Seq<char>, Val))
    requires
        0 <= i < vars.len(),
    ensures
        names_of(vars.update(i, x)) == names_of(vars).update(i, x.0),
{
    assert(names_of(vars.update(i, x)) =~= names_of(vars).update(i, x.0));
}

proof fn lemma_names_push(vars: Seq<(Seq<char>, Val)>, x: (Seq<char>, Val))
    ensures
        names_of(vars.push(x)) == names_of(vars).push(x.0),
{
    assert(names_of(vars.push(x)) =~= names_of(vars).push(x.0));
}

/// Setting a variable: the variable it writes, and that the names of the
/// others stay.
proof fn lemma_set_slot(vars: Seq<(Seq<char>, Val)>, name: Seq<char>, v: Val)
    ensures
        ({
            let after = set_var_spec(vars, names_of(vars), name, v);
            let key = name_key(name);
            &&& first_index(names_of(after), key) matches Some(i) && 0 <= i < after.len() && after[i] == (key, v)
            &&& after.len() >= vars.len()
            &&& forall|k: int| 0 <= k < vars.len() && vars[k].0 != key ==> #[trigger] after[k] == vars[k]
            &&& forall|k: int| vars.len() <= k < after.len() ==> #[trigger] after[k].0 == key
            &&& forall|k: int| 0 <= k < vars.len() ==> #[trigger] after[k].0 == vars[k].0
        }),
{
    let key = name_key(name);
    let names = names_of(vars);
    lemma_first_index_from(names, key, 0);
    match first_index(names, key) {
        Some(i) => {
            let after = vars.update(i, (key, v));
            lemma_names_update(vars, i, (key, v));
            assert(names_of(after) =~= names);
            lemma_first_index_from(names, key, 0);
        },
        None => {
            let after = vars.push((key, v));
            lemma_names_push(vars, (key, v));
            let n2 = names_of(after);
            assert forall|k: int| 0 <= k < vars.len() implies n2[k] != key by {
                assert(n2[k] == names[k]);
            }
            lemma_first_index_found(n2, key, 0, vars.len() as int);
        },
    }
}

/// A variable read after it is set gives the value it was set to.
pub proof fn law_read_after_set(vars: Seq<(Seq<char>, Val)>, name: Seq<char>, v: Val)
    ensures
        value_named(set_var_spec(vars, names_of(vars), name, v), name) == v,
        first_index(names_of(set_var_spec(vars, names_of(vars), name, v)), name_key(name)) is Some,
{
    lemma_set_slot(vars, name, v);
}

/// Setting a variable leaves the value of every other name as it was.
pub proof fn law_set_keeps_others(vars: Seq<(Seq<char>, Val)>, name: Seq<char>, v: Val, other: Seq<char>)
    requires
        name_key(other) != name_key(name),
    ensures
        value_named(set_var_spec(vars, names_of(vars), name, v), other) == value_named(vars, other),
{
    lemma_set_slot(vars, name, v);
    let after = set_var_spec(vars, names_of(vars), name, v);
    let key = name_key(other);
    let na = names_of(after);
    let nv = names_of(vars);
    lemma_first_index_from(na, key, 0);
    lemma_first_index_from(nv, key, 0);
    assert forall|k: int| 0 <= k < vars.len() implies #[trigger] na[k] == nv[k] by {
        assert(after[k].0 == vars[k].0);
    }
    match first_index(nv, key) {
        Some(i) => {
            assert(na[i] == key);
            lemma_first_index_found(na, key, 0, i);
        },
        None => {
            assert forall|k: int| 0 <= k < na.len() implies na[k] != key by {
                if k >= vars.len() {
                    assert(after[k].0 == name_key(name));
                }
            }
            if first_index(na, key) is Some {
                let i = first_index(na, key)->0;
                assert(na[i] == key);
            }
        },
    }
}

/// Setting variables keeps their names distinct: a name is only ever
/// added when no variable has it.
pub proof fn law_set_keeps_names_distinct(vars: Seq<(Seq<char>, Val)>, name: Seq<char>, v: Val)
    requires
        distinct_names(vars),
    ensures
        distinct_names(set_var_spec(vars, names_of(vars), name, v)),
{
    let key = name_key(name);
    let names = names_of(vars);
    lemma_first_index_from(names, key, 0);
    match first_index(names, key) {
        Some(i) => {
            assert(vars[i].0 == key);
        },
        None => {
            let after = vars.push((key, v));
            assert forall|i: int, j: int| 0 <= i < j < after.len() implies after[i].0 != after[j].0 by {
                if j == vars.len() {
                    assert(names[i] == vars[i].0);
                }
            }
        },
    }
}

/// With distinct names, deleting the variable that a name finds leaves no
/// variable that the name finds: reading it afterwards gives 0.
pub proof fn law_deleted_is_gone(vars: Seq<(Seq<char>, Val)>, name: Seq<char>)
    requires
        distinct_names(vars),
        first_index(names_of(vars), name_key(name)) is Some,
    ensures
        first_index(names_of(vars.remove(first_index(names_of(vars), name_key(name))->0)), name_key(name)) is None,
        value_named(vars.remove(first_index(names_of(vars), name_key(name))->0), name) == Val::Number(0),
{
    let key = name_key(name);
    let names = names_of(vars);
    lemma_first_index_from(names, key, 0);
    let i = first_index(names, key)->0;
    let after = vars.remove(i);
    let na = names_of(after);
    assert forall|k: int| 0 <= k < na.len() implies na[k] != key by {
        if k < i {
            assert(na[k] == names[k]);
        } else {
            assert(na[k] == vars[k + 1].0);
            assert(vars[i].0 != vars[k + 1].0);
        }
    }
    lemma_first_index_from(na, key, 0);
}

proof fn lemma_join_push_last(parts: Seq<Seq<char>>, sep: Seq<char>, x: char)
    requires
        parts.len() > 0,
    ensures
        join(parts.update(parts.len() - 1, parts.last().push(x)), sep) == join(parts, sep).push(x),
{
    let q = parts.update(parts.len() - 1, parts.last().push(x));
    if parts.len() == 1 {
        assert(q[0] == parts[0].push(x));
    } else {
        assert(q.drop_last() =~= parts.drop_last());
        assert(q.last() == parts.last().push(x));
        assert(join(q, sep) == join(parts.drop_last(), sep) + sep + parts.last().push(x));
        assert((join(parts.drop_last(), sep) + sep + parts.last()).push(x) =~= join(parts.drop_last(), sep) + sep + parts.last().push(x));
    }
}

/// Splitting a text at a character and joining the pieces with that
/// character gives the text back (so the expression of `var x = e`, the
/// pieces after the first `=` joined with `=`, is all of `e`).
pub proof fn law_split_join(s: Seq<char>, c: char)
    ensures
        join(split(s, c), seq![c]) == s,
    decreases s.len(),
{
    if s.len() > 0 {
        let t = s.drop_last();
        law_split_join(t, c);
        crate::text::lemma_split_nonempty(t, c);
        let init = split(t, c);
        if s.last() == c {
            assert(split(s, c) == init.push(Seq::<char>::empty()));
            assert(init.push(Seq::<char>::empty()).drop_last() =~= init);
            assert(join(init.push(Seq::<char>::empty()), seq![c]) == join(init, seq![c]) + seq![c] + Seq::<char>::empty());
            assert(t + seq![c] + Seq::<char>::empty() =~= s);
        } else {
            lemma_join_push_last(init, seq![c], s.last());
            assert(t.push(s.last()) =~= s);
        }
    }
}

/// Once a `func` block ends, the function's name refers to the function
/// just added to the name space.
pub proof fn law_defined_function_is_bound(e: ExecView, code: Seq<char>, mem: Memory)
    requires
        e.control_mode is Function,
        collect(e, code).1 is Define,
    ensures
        ({
            let t = block_spec(e, code, mem);
            let n = mem.name_space@.len();
            &&& value_named(t.vars, definition_name(e.data)) == Val::Function(n as usize)
            &&& t.funcs.len() == n + 1
            &&& t.funcs[n as int].name == definition_name(e.data)
        }),
{
    let vars = vars_view(mem.memory@);
    assert(var_names(mem.memory@) =~= names_of(vars));
    law_read_after_set(vars, definition_name(e.data), Val::Function(mem.name_space@.len() as usize));
}

/// A `for` block runs its body once per count: after iteration `i` of `n`
/// ends with nothing, iteration `i + 1` runs the body if `i < n`, and the
/// block is over otherwise; `break` ends it at once.
pub proof fn law_for_counts(e: ExecView, mem: Memory, body: Seq<Seq<char>>, i: usize, n: usize)
    ensures
        ({
            let t = resume_spec(e, PhaseView::ForBody(body, i, n), Told::Ran(Returned::Nothing), mem);
            &&& i < n ==> t.request == Asked::RunBlock(body) && t.phase == PhaseView::ForBody(body, (i + 1) as usize, n)
            &&& i >= n ==> t.request == Asked::Done(Returned::Nothing) && t.state.control_mode == ControlMode::Normal
        }),
        resume_spec(e, PhaseView::ForBody(body, i, n), Told::Ran(Returned::Next), mem) == resume_spec(e, PhaseView::ForBody(body, i, n), Told::Ran(Returned::Nothing), mem),
        resume_spec(e, PhaseView::ForBody(body, i, n), Told::Ran(Returned::Break), mem).request == Asked::Done(Returned::Nothing),
        resume_spec(e, PhaseView::ForBody(body, i, n), Told::Ran(Returned::Break), mem).state.control_mode == ControlMode::Normal,
{
}

/// A `try` block runs its `catch` body exactly when its body ends in an
/// error, and a value or loop jump from the body passes through it.
pub proof fn law_try_catches_errors(e: ExecView, mem: Memory, catch_body: Seq<Seq<char>>, x: Seq<char>, v: Val)
    ensures
        resume_spec(e, PhaseView::TryBody(catch_body), Told::Ran(Returned::Error(x)), mem).request == Asked::RunBlock(catch_body),
        resume_spec(e, PhaseView::TryBody(catch_body), Told::Ran(Returned::Nothing), mem).request == Asked::Done(Returned::Nothing),
        resume_spec(e, PhaseView::TryBody(catch_body), Told::Ran(Returned::Value(v)), mem).request == Asked::Done(Returned::Value(v)),
        resume_spec(e, PhaseView::TryBody(catch_body), Told::Ran(Returned::Break), mem).request == Asked::Done(Returned::Break),
{
}

/// An element of a list set through `var name[i] = v` reads back as `v`
/// through `name [i]`.
pub proof fn law_element_read_after_set(mem: Memory, name: Seq<char>, l: Seq<Val>, b: u64, v: Val, shown: Seq<char>, t: Seq<char>, again: Returned)
    requires
        current(mem, name) == Val::List(l),
        slot(b) < l.len(),
        found(mem, name) is Some,
    ensures
        ({
            let after = set_seq(mem, name, found(mem, name)->0, Returned::Value(Val::Number(b)), shown, v, t);
            &&& after.0 == Returned::Nothing
            &&& get_seq(value_named(after.1, name), Returned::Value(Val::Number(b)), shown, again) == Returned::Value(v)
        }),
{
    lemma_views(mem, name, ExecutionMode::Script);
    let a = found(mem, name)->0;
    let vars = vars_view(mem.memory@);
    let x = (vars[a].0, Val::List(l.update(slot(b) as int, v)));
    lemma_names_update(vars, a, x);
    assert(names_of(vars.update(a, x)) =~= names_of(vars));
}

/// Deleting an element of a list through `del name[i]` leaves the list one
/// element shorter, with the elements after it moved down by one.
pub proof fn law_element_delete_shortens(mem: Memory, name: Seq<char>, l: Seq<Val>, b: u64, shown: Seq<char>)
    requires
        current(mem, name) == Val::List(l),
        slot(b) < l.len(),
        found(mem, name) is Some,
    ensures
        ({
            let after = del_list(mem, name, l, Returned::Value(Val::Number(b)), shown);
            &&& after.0 is None
            &&& value_named(after.1, name) matches Val::List(m) && m.len() + 1 == l.len()
                && (forall|k: int| 0 <= k < slot(b) ==> m[k] == l[k])
                && (forall|k: int| slot(b) <= k < m.len() ==> m[k] == l[k + 1])
        }),
{
    lemma_views(mem, name, ExecutionMode::Script);
    let a = found(mem, name)->0;
    let vars = vars_view(mem.memory@);
    let x = (vars[a].0, Val::List(l.remove(slot(b) as int)));
    lemma_names_update(vars, a, x);
    assert(names_of(vars.update(a, x)) =~= names_of(vars));
}

/// The address that `ref` gives for a variable is one where `access` finds
/// that variable's value: for any name, the variable found by its key (the
/// name trimmed, with its spaces removed), as far as the first 2^53
/// addresses, which binary64 holds exactly.
pub proof fn law_access_after_ref(mem: Memory, name: Seq<char>, mode: ExecutionMode)
    requires
        found(mem, name) is Some,
        found(mem, name)->0 < 0x20000000000000,
    ensures
        ({
            let i = found(mem, name)->0;
            &&& mem.memory@[i].name@ == name_key(name)
            &&& refer_spec(Val::Text(name), mem, mode).0 == StdNeed::Done(Returned::Value(Val::Number(count_bits(i as nat))))
            &&& access_spec(Val::Number(count_bits(i as nat)), mem, mode).0 == StdNeed::Done(Returned::Value(mem.memory@[i].value@))
        }),
{
    lemma_views(mem, name, mode);
    let i = found(mem, name)->0;
    lemma_first_index_from(var_names(mem.memory@), name_key(name), 0);
    assert(var_names(mem.memory@)[i] == mem.memory@[i].name@);
    assert(mem.memory@.len() == mem.memory.len());
    lemma_count_bits_exact(i as nat);
    law_count_round_trip(count_bits(i as nat), i as nat);
}

/// `access` on any value: a number is rounded half away from zero and
/// saturated to an address; the value stored there is given, or the range
/// error past the last variable; anything but a number gives the kind
/// error. The largest address, where the interpreter stops, is left out.
pub proof fn law_access_reads_rounded_address(v: Val, mem: Memory, mode: ExecutionMode)
    requires
        v matches Val::Number(b) ==> clamp_usize(round_u64(b)) < usize::MAX,
    ensures
        match v {
            Val::Number(b) => {
                let k = clamp_usize(round_u64(b));
                &&& k < mem.memory@.len() ==> access_spec(v, mem, mode).0 == StdNeed::Done(Returned::Value(mem.memory@[k as int].value@))
                &&& k >= mem.memory@.len() ==> access_spec(v, mem, mode).0 == StdNeed::Done(Returned::Error(address_range_error()))
            },
            _ => access_spec(v, mem, mode).0 == StdNeed::Done(Returned::Error(address_kind_error())),
        },
{
}

/// No two of the first `n` parameter names have the same key.
pub open spec fn distinct_keys(names: Seq<Seq<char>>, n: nat) -> bool {
    forall|i: int, j: int| 0 <= i < j < n ==> name_key(names[i]) != name_key(names[j])
}

/// A call binds each parameter to its argument: once the first `n`
/// parameters are set, reading parameter `k` gives argument `k` itself
/// (when the parameter names differ).
pub proof fn law_parameters_hold_arguments(vars: Seq<(Seq<char>, Val)>, names: Seq<Seq<char>>, args: Seq<Val>, n: nat, k: int)
    requires
        n <= names.len(),
        n <= args.len(),
        0 <= k < n,
        distinct_keys(names, n),
    ensures
        value_named(bind_params(vars, names, args, n), names[k]) == args[k],
    decreases n,
{
    let prev = bind_params(vars, names, args, (n - 1) as nat);
    if k == n - 1 {
        law_read_after_set(prev, names[k], args[k]);
    } else {
        law_parameters_hold_arguments(vars, names, args, (n - 1) as nat, k);
        law_set_keeps_others(prev, names[n - 1], args[n - 1], names[k]);
    }
}

/// A `while` loop runs its body while the condition is true and ends when
/// it is false; it goes on after its body ends with `next` or with
/// nothing: the condition is evaluated again. Only `break` leaves it (as a
/// statement that gives nothing), and a value or an error from the body is
/// passed on.
pub proof fn law_while_repeats_until_break(e: ExecView, mem: Memory, body: Seq<Seq<char>>, x: Seq<char>, v: Val)
    ensures
        resume_spec(e, PhaseView::WhileBody(body), Told::Ran(Returned::Next), mem).request == Asked::Evaluate(e.expr),
        resume_spec(e, PhaseView::WhileBody(body), Told::Ran(Returned::Next), mem).phase == PhaseView::WhileCond(body),
        resume_spec(e, PhaseView::WhileBody(body), Told::Ran(Returned::Next), mem).state == e,
        resume_spec(e, PhaseView::WhileBody(body), Told::Ran(Returned::Nothing), mem).request == Asked::Evaluate(e.expr),
        resume_spec(e, PhaseView::WhileBody(body), Told::Ran(Returned::Nothing), mem).phase == PhaseView::WhileCond(body),
        resume_spec(e, PhaseView::WhileBody(body), Told::Ran(Returned::Break), mem).request == Asked::Done(Returned::Nothing),
        resume_spec(e, PhaseView::WhileBody(body), Told::Ran(Returned::Break), mem).state.control_mode == ControlMode::Normal,
        resume_spec(e, PhaseView::WhileBody(body), Told::Ran(Returned::Value(v)), mem).request == Asked::Done(Returned::Value(v)),
        resume_spec(e, PhaseView::WhileBody(body), Told::Ran(Returned::Error(x)), mem).request == Asked::Done(Returned::Error(x)),
        resume_spec(e, PhaseView::WhileCond(body), Told::Evaluated(Returned::Value(Val::Bool(true)), x), mem).request == Asked::RunBlock(body),
        resume_spec(e, PhaseView::WhileCond(body), Told::Evaluated(Returned::Value(Val::Bool(true)), x), mem).phase == PhaseView::WhileBody(body),
        resume_spec(e, PhaseView::WhileCond(body), Told::Evaluated(Returned::Value(Val::Bool(false)), x), mem).request == Asked::Done(Returned::Nothing),
{
}

/// Setting the character at `i` of a text, for `i` below its length,
/// replaces exactly that character: the text becomes its first `i`
/// characters, the written text, and the rest after position `i`. A single
/// character written keeps the length, every other position keeps its
/// character, and reading position `i` afterwards gives what was written.
pub proof fn law_text_element_set(mem: Memory, name: Seq<char>, s: Seq<char>, b: u64, t: Seq<char>, shown: Seq<char>, v: Val, again: Returned)
    requires
        current(mem, name) == Val::Text(s),
        slot(b) < s.len(),
        found(mem, name) is Some,
    ensures
        ({
            let i = slot(b) as int;
            let after = set_seq(mem, name, found(mem, name)->0, Returned::Value(Val::Number(b)), shown, v, t);
            &&& after.0 == Returned::Nothing
            &&& value_named(after.1, name) == Val::Text(s.take(i) + t + s.skip(i + 1))
            &&& t.len() == 1 ==> (value_named(after.1, name) matches Val::Text(r)
                && r.len() == s.len()
                && r[i] == t[0]
                && (forall|k: int| 0 <= k < s.len() && k != i ==> r[k] == s[k])
                && get_seq(Val::Text(r), Returned::Value(Val::Number(b)), shown, again) == Returned::Value(Val::Text(t)))
        }),
{
    lemma_views(mem, name, ExecutionMode::Script);
    let a = found(mem, name)->0;
    let i = slot(b) as int;
    let vars = vars_view(mem.memory@);
    let r = s.take(i) + t + s.skip(i + 1);
    assert(s.subrange(0, i) + t + s.subrange(i + 1, s.len() as int) =~= r);
    let x = (vars[a].0, Val::Text(r));
    lemma_names_update(vars, a, x);
    assert(names_of(vars.update(a, x)) =~= names_of(vars));
    if t.len() == 1 {
        assert(r.len() == s.len());
        assert(r[i] == t[0]);
        assert forall|k: int| 0 <= k < s.len() && k != i implies r[k] == s[k] by {
            if k < i {
                assert(r[k] == s.take(i)[k]);
            } else {
                assert(r[k] == s.skip(i + 1)[k - i - 1]);
            }
        }
        assert(seq![r[i]] =~= t);
    }
}

/// The check reports every block left open when it reaches the end of its
/// lines: nothing is printed exactly when the block mode is back to normal,
/// and each open block prints the error for its kind (an open `while`
/// prints that its end is missing).
pub proof fn law_unclosed_blocks_are_reported(fs: Seq<FrameView>)
    requires
        fs.len() > 0,
        fs.last().next >= fs.last().lines.len(),
    ensures
        ({
            let printed = check_step(fs).2;
            let mode = fs.last().state.control_mode;
            &&& printed.len() == 0 <==> mode is Normal
            &&& mode is While ==> printed == seq![text_line("エラー! while文の終わりが見つかりません"@)]
            &&& mode is For ==> printed == seq![text_line("エラー! for文の終わりが見つかりません"@)]
            &&& (mode is If || mode is Else) ==> printed == seq![text_line("エラー! if文の終わりが見つかりません"@)]
            &&& (mode is Try || mode is Catch) ==> printed == seq![text_line("エラー! try文の終わりが見つかりません"@)]
            &&& mode is Function ==> printed == seq![text_line("エラー! 関数の終わりが見つかりません"@)]
        }),
{
}

proof fn lemma_is_zero(b: u64)
    ensures
        num_eq(b, zero_bits()) <==> (exp_field(b) == 0 && frac_field(b) == 0),
{
    assert(exp_field(0) == 0 && frac_field(0) == 0);
    assert(magnitude(0) == 0);
    assert(value(0) == 0);
    assert(!is_nan(0));
    let e = exp_field(b);
    let f = frac_field(b);
    if e >= 2047 {
        lemma_pow2_pos(2098);
    } else if e > 0 {
        lemma_pow2_pos((e - 1) as nat);
        lemma_mul_strictly_positive((0x10000000000000 + f) as int, pow2((e - 1) as nat) as int);
    }
    assert(magnitude(b) == mag_of(e, f));
}

/// `bool` of a number is true exactly when the number is not zero: both
/// zeros (all bits but the sign clear) give false; every other pattern, a
/// NaN too, gives true. So `5 bool ()` is true and `0 bool ()` false.
pub proof fn law_bool_of_number(b: u64, funcs: Seq<FunctionView>)
    ensures
        to_bool(Val::Number(b), funcs) == StdNeed::Done(Returned::Value(Val::Bool(exp_field(b) != 0 || frac_field(b) != 0))),
        to_bool(Val::Number(zero_bits()), funcs) == StdNeed::Done(Returned::Value(Val::Bool(false))),
        to_bool(Val::Number(one_bits()), funcs) == StdNeed::Done(Returned::Value(Val::Bool(true))),
{
    lemma_is_zero(b);
    lemma_is_zero(zero_bits());
    lemma_is_zero(one_bits());
    assert(0x3FF0000000000000u64 / 0x10000000000000u64 == 1023);
    assert(exp_field(one_bits()) == 1023);
}

} // verus!
