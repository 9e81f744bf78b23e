//! How values are written out (`type_string`), as pieces of text in which
//! numbers are left for the host to render.
use vstd::prelude::*;
use crate::text::{join, join_from};
use crate::types::{
    line_view, texts_of, ExecutionMode, Function, FunctionView, Piece, PieceView, Type, Val,
};
use crate::memory::Memory;

verus! {

/// The decimal digits of `n`.
pub open spec fn decimal(n: nat) -> Seq<char>
    decreases n,
{
    if n < 10 {
        seq![digit_char(n)]
    } else {
        decimal(n / 10).push(digit_char(n % 10))
    }
}

/// The digit for `d < 10`.
pub open spec fn digit_char(d: nat) -> char {
    if d == 0 {
        '0'
    } else if d == 1 {
        '1'
    } else if d == 2 {
        '2'
    } else if d == 3 {
        '3'
    } else if d == 4 {
        '4'
    } else if d == 5 {
        '5'
    } else if d == 6 {
        '6'
    } else if d == 7 {
        '7'
    } else if d == 8 {
        '8'
    } else {
        '9'
    }
}

/// `s` right-aligned in a field of `width` characters (`{:>width$}`).
pub open spec fn pad_left(s: Seq<char>, width: nat) -> Seq<char> {
    if s.len() < width {
        Seq::new((width - s.len()) as nat, |i: int| ' ') + s
    } else {
        s
    }
}

/// `s` left-aligned in a field of `width` characters (`{:<width$}`).
pub open spec fn pad_right(s: Seq<char>, width: nat) -> Seq<char> {
    if s.len() < width {
        s + Seq::new((width - s.len()) as nat, |i: int| ' ')
    } else {
        s
    }
}

/// The numbered listing of the non-empty lines of a function body, from
/// line number `number` on, with numbers in a field of `width`.
pub open spec fn listing(code: Seq<Seq<char>>, number: nat, width: nat) -> Seq<char>
    decreases code.len(),
{
    if code.len() == 0 {
        Seq::empty()
    } else if code[0].len() == 0 {
        listing(code.drop_first(), number, width)
    } else {
        "| | "@ + pad_left(decimal(number + 1), width) + ": "@ + code[0] + listing(
            code.drop_first(),
            number + 1,
            width,
        )
    }
}

/// How a function value is written: its header, and in the commented modes
/// its numbered body.
pub open spec fn function_text(f: FunctionView, script: bool) -> Seq<char> {
    "| +--  "@ + f.name + " ("@ + join(f.args, ", "@) + ") "@ + (if script {
        Seq::empty()
    } else {
        listing(f.code, 0, decimal(f.code.len()).len())
    })
}

/// The pieces of `type_string` of a value.
pub open spec fn value_pieces(v: Val, funcs: Seq<FunctionView>, script: bool) -> Seq<PieceView>
    decreases v,
{
    match v {
        Val::Number(b) => seq![PieceView::Number(b)],
        Val::Text(s) => seq![PieceView::Text("'"@ + s + "'"@)],
        Val::Bool(b) => seq![PieceView::Text(if b { "true"@ } else { "false"@ })],
        Val::List(l) => seq![PieceView::Text("["@)] + join_pieces(
            list_pieces(l, funcs, script),
            ", "@,
        ) + seq![PieceView::Text("]"@)],
        Val::Function(p) => seq![PieceView::Text(function_text(funcs[p as int], script))],
    }
}

/// The pieces of each value of a list.
pub open spec fn list_pieces(l: Seq<Val>, funcs: Seq<FunctionView>, script: bool) -> Seq<
    Seq<PieceView>,
>
    decreases l,
{
    Seq::new(
        l.len(),
        |i: int|
            if 0 <= i < l.len() {
                value_pieces(l[i], funcs, script)
            } else {
                Seq::empty()
            },
    )
}

/// Runs of pieces put together with a text between them.
pub open spec fn join_pieces(parts: Seq<Seq<PieceView>>, sep: Seq<char>) -> Seq<PieceView>
    decreases parts.len(),
{
    if parts.len() == 0 {
        Seq::empty()
    } else if parts.len() == 1 {
        parts[0]
    } else {
        join_pieces(parts.drop_last(), sep) + seq![PieceView::Text(sep)] + parts.last()
    }
}

/// Every function value inside `v` points into a name space of `n` functions.
pub open spec fn pointers_ok(v: Val, n: nat) -> bool
    decreases v,
{
    match v {
        Val::Function(p) => p < n,
        Val::List(l) => all_pointers_ok(l, n),
        _ => true,
    }
}

/// Every function value inside the values of `l` points into a name space
/// of `n` functions.
pub open spec fn all_pointers_ok(l: Seq<Val>, n: nat) -> bool
    decreases l,
{
    if l.len() == 0 {
        true
    } else {
        pointers_ok(l[0], n) && all_pointers_ok(l.drop_first(), n)
    }
}

proof fn lemma_pointers_list(x: Seq<Val>, n: nat)
    ensures
        pointers_ok(Val::List(x), n) == (forall|i: int|
            0 <= i < x.len() ==> #[trigger] pointers_ok(x[i], n)),
    decreases x.len(),
{
    assert(pointers_ok(Val::List(x), n) == all_pointers_ok(x, n));
    if x.len() > 0 {
        assert(all_pointers_ok(x, n) == (pointers_ok(x[0], n) && all_pointers_ok(x.drop_first(), n)));
        lemma_pointers_list(x.drop_first(), n);
        if forall|i: int| 0 <= i < x.len() ==> #[trigger] pointers_ok(x[i], n) {
            assert forall|i: int| 0 <= i < x.drop_first().len() implies #[trigger] pointers_ok(
                x.drop_first()[i],
                n,
            ) by {
                assert(x.drop_first()[i] == x[i + 1]);
            }
        }
        if pointers_ok(Val::List(x), n) {
            assert forall|i: int| 0 <= i < x.len() implies #[trigger] pointers_ok(x[i], n) by {
                if i > 0 {
                    assert(x[i] == x.drop_first()[i - 1]);
                }
            }
        }
    }
}

/// The digits of a count.
pub fn decimal_text(n: usize) -> (r: String)
    ensures
        r@ == decimal(n as nat),
    decreases n,
{
    let d = n % 10;
    let c = if d == 0 {
        '0'
    } else if d == 1 {
        '1'
    } else if d == 2 {
        '2'
    } else if d == 3 {
        '3'
    } else if d == 4 {
        '4'
    } else if d == 5 {
        '5'
    } else if d == 6 {
        '6'
    } else if d == 7 {
        '7'
    } else if d == 8 {
        '8'
    } else {
        '9'
    };
    if n < 10 {
        let mut s = String::new();
        s.push(c);
        assert(s@ =~= seq![c]);
        s
    } else {
        let mut s = decimal_text(n / 10);
        s.push(c);
        s
    }
}

/// A run of `n` spaces.
pub fn spaces(n: usize) -> (r: String)
    ensures
        r@ == Seq::new(n as nat, |i: int| ' '),
{
    let mut s = String::new();
    let mut i: usize = 0;
    while i < n
        invariant
            i <= n,
            s@ == Seq::new(i as nat, |k: int| ' '),
        decreases n - i,
    {
        s.push(' ');
        i += 1;
        assert(s@ =~= Seq::new(i as nat, |k: int| ' '));
    }
    s
}

/// `format!("{:>width$}", s)`.
pub fn pad_left_text(s: &str, width: usize) -> (r: String)
    ensures
        r@ == pad_left(s@, width as nat),
{
    let n = crate::text::chars_of(s).len();
    if n < width {
        let mut r = spaces(width - n);
        r.append(s);
        r
    } else {
        String::from_str(s)
    }
}

/// `format!("{:<width$}", s)`.
pub fn pad_right_text(s: &str, width: usize) -> (r: String)
    ensures
        r@ == pad_right(s@, width as nat),
{
    let n = crate::text::chars_of(s).len();
    if n < width {
        let mut r = String::from_str(s);
        let sp = spaces(width - n);
        r.append(sp.as_str());
        r
    } else {
        String::from_str(s)
    }
}

/// The text of a function value as `type_string` writes it.
pub fn function_text_of(f: &Function, script: bool) -> (r: String)
    ensures
        r@ == function_text(f@, script),
{
    let mut r = String::from_str("| +--  ");
    r.append(f.name.as_str());
    r.append(" (");
    let a = join_from(&f.args, 0, ", ");
    assert(f.args@.skip(0) =~= f.args@);
    r.append(a.as_str());
    r.append(") ");
    let ghost head = r@;
    if !script {
        let width = decimal_text(f.code.len()).as_str().unicode_len();
        let ghost code = texts_of(f.code@);
        let mut number: usize = 0;
        let mut i: usize = 0;
        assert(code.skip(0) =~= code);
        while i < f.code.len()
            invariant
                i <= f.code@.len(),
                number <= i,
                code == texts_of(f.code@),
                width == decimal(f.code@.len() as nat).len(),
                r@ + listing(code.skip(i as int), number as nat, width as nat) == head + listing(
                    code,
                    0,
                    width as nat,
                ),
            decreases f.code.len() - i,
        {
            assert(code.skip(i as int).drop_first() =~= code.skip(i + 1));
            assert(code.skip(i as int)[0] == f.code@[i as int]@);
            if f.code[i].as_str().unicode_len() != 0 {
                number = number + 1;
                r.append("| | ");
                let d = decimal_text(number);
                let p = pad_left_text(d.as_str(), width);
                r.append(p.as_str());
                r.append(": ");
                r.append(f.code[i].as_str());
            }
            i += 1;
        }
        assert(code.skip(f.code@.len() as int) =~= Seq::<Seq<char>>::empty());
    } else {
        assert(r@ =~= r@ + Seq::<char>::empty());
    }
    r
}

/// Appends the pieces of `type_string(v)` to `out`.
pub fn type_string(v: &Type, mem: &Memory, script: bool, out: &mut Vec<Piece>)
    requires
        pointers_ok(v@, mem.name_space@.len()),
    ensures
        line_view(*final(out)) == line_view(*old(out)) + value_pieces(
            v@,
            crate::types::funcs_view(mem.name_space@),
            script,
        ),
    decreases v,
{
    let ghost funcs = crate::types::funcs_view(mem.name_space@);
    match v {
        Type::Number(b) => {
            out.push(Piece::Number(*b));
            assert(line_view(*out) =~= line_view(*old(out)) + value_pieces(v@, funcs, script));
        },
        Type::String(s) => {
            let mut t = String::from_str("'");
            t.append(s.as_str());
            t.append("'");
            out.push(Piece::Text(t));
            assert(line_view(*out) =~= line_view(*old(out)) + value_pieces(v@, funcs, script));
        },
        Type::Bool(b) => {
            let t = if *b {
                String::from_str("true")
            } else {
                String::from_str("false")
            };
            out.push(Piece::Text(t));
            assert(line_view(*out) =~= line_view(*old(out)) + value_pieces(v@, funcs, script));
        },
        Type::Function(p) => {
            let t = function_text_of(&mem.name_space[*p], script);
            out.push(Piece::Text(t));
            assert(line_view(*out) =~= line_view(*old(out)) + value_pieces(v@, funcs, script));
        },
        Type::List(l) => {
            proof {
                crate::types::lemma_list_view(*v);
            }
            let ghost parts = list_pieces(crate::types::vals_of(l@), funcs, script);
            out.push(Piece::Text(String::from_str("[")));
            let ghost start = line_view(*out);
            assert(start =~= line_view(*old(out)) + seq![PieceView::Text("["@)]);
            assert(parts.take(0) =~= Seq::<Seq<PieceView>>::empty());
            let mut i: usize = 0;
            while i < l.len()
                invariant
                    i <= l@.len(),
                    *v == Type::List(*l),
                    v@ == Val::List(crate::types::vals_of(l@)),
                    crate::types::vals_of(l@).len() == l@.len(),
                    forall|k: int| 0 <= k < l@.len() ==> #[trigger] crate::types::vals_of(l@)[k] == l@[k]@,
                    pointers_ok(v@, mem.name_space@.len()),
                    funcs == crate::types::funcs_view(mem.name_space@),
                    parts == list_pieces(crate::types::vals_of(l@), funcs, script),
                    line_view(*out) == start + join_pieces(parts.take(i as int), ", "@),
                decreases l.len() - i,
            {
                proof {
                    broadcast use vstd::std_specs::vec::axiom_vec_decreases_to_view;

                    assert(decreases_to!(*v => (*v)->List_0));
                    assert(decreases_to!(*l => l@));
                    assert(decreases_to!(l@ => l@[i as int]));
                    assert(crate::types::vals_of(l@)[i as int] == l@[i as int]@);
                    lemma_pointers_list(crate::types::vals_of(l@), mem.name_space@.len());
                    assert(pointers_ok(crate::types::vals_of(l@)[i as int], mem.name_space@.len()));
                    assert(parts.take(i + 1).drop_last() =~= parts.take(i as int));
                    assert(parts[i as int] == value_pieces(l@[i as int]@, funcs, script));
                }
                let ghost before = line_view(*out);
                if i > 0 {
                    out.push(Piece::Text(String::from_str(", ")));
                    assert(line_view(*out) =~= before + seq![PieceView::Text(", "@)]);
                }
                let ghost mid = line_view(*out);
                type_string(&l[i], mem, script, out);
                proof {
                    let t = parts.take(i + 1);
                    assert(t.last() == parts[i as int]);
                    if i > 0 {
                        assert(join_pieces(t, ", "@) == join_pieces(t.drop_last(), ", "@) + seq![
                            PieceView::Text(", "@),
                        ] + t.last());
                        assert(line_view(*out) =~= start + join_pieces(parts.take(i + 1), ", "@));
                    } else {
                        assert(t.len() == 1);
                        assert(join_pieces(t, ", "@) == t[0]);
                        assert(line_view(*out) =~= start + join_pieces(parts.take(i + 1), ", "@));
                    }
                }
                i += 1;
            }
            assert(parts.take(l@.len() as int) =~= parts);
            assert(value_pieces(v@, funcs, script) == seq![PieceView::Text("["@)] + join_pieces(
                parts,
                ", "@,
            ) + seq![PieceView::Text("]"@)]);
            let ghost body = line_view(*out);
            out.push(Piece::Text(String::from_str("]")));
            assert(line_view(*out) =~= body + seq![PieceView::Text("]"@)]);
            assert(line_view(*out) =~= line_view(*old(out)) + value_pieces(v@, funcs, script));
        },
    }
}

/// Every function value inside `v` points into the name space.
pub fn pointers_valid(v: &Type, mem: &Memory) -> (r: bool)
    ensures
        r == pointers_ok(v@, mem.name_space@.len()),
    decreases v,
{
    match v {
        Type::Function(p) => {
            assert(v@ == Val::Function(*p));
            *p < mem.name_space.len()
        },
        Type::List(l) => {
            proof {
                crate::types::lemma_list_view(*v);
            }
            let mut i: usize = 0;
            while i < l.len()
                invariant
                    i <= l@.len(),
                    *v == Type::List(*l),
                    v@ == Val::List(crate::types::vals_of(l@)),
                    crate::types::vals_of(l@).len() == l@.len(),
                    forall|k: int| 0 <= k < l@.len() ==> #[trigger] crate::types::vals_of(l@)[k] == l@[k]@,
                    forall|k: int|
                        0 <= k < i ==> pointers_ok(#[trigger] l@[k]@, mem.name_space@.len()),
                decreases l.len() - i,
            {
                proof {
                    broadcast use vstd::std_specs::vec::axiom_vec_decreases_to_view;

                    assert(decreases_to!(*v => (*v)->List_0));
                    assert(decreases_to!(*l => l@));
                    assert(decreases_to!(l@ => l@[i as int]));
                }
                if !pointers_valid(&l[i], mem) {
                    assert(crate::types::vals_of(l@)[i as int] == l@[i as int]@);
                    proof {
                        lemma_pointers_list(crate::types::vals_of(l@), mem.name_space@.len());
                    }
                    return false;
                }
                i += 1;
            }
            proof {
                lemma_pointers_list(crate::types::vals_of(l@), mem.name_space@.len());
            }
            assert forall|k: int| 0 <= k < crate::types::vals_of(l@).len() implies #[trigger] pointers_ok(
                crate::types::vals_of(l@)[k],
                mem.name_space@.len(),
            ) by {
                assert(crate::types::vals_of(l@)[k] == l@[k]@);
            }
            true
        },
        _ => true,
    }
}

} // verus!
