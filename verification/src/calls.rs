//! Calling a user function, and showing the memory.
//!
//! A call sets each parameter to its argument, silently, and then runs
//! the body on a new executor in the caller's mode (a debugging session in
//! place of the interactive mode).
use vstd::prelude::*;
use crate::text::utf8_length;
use crate::types::{
    lemma_list_view, line_view, lines_view, log_print, logs, text, texts_of, vals_of, vars_view,
    var_view, funcs_view, copy_texts, ExecutionMode, FunctionView, Piece, PieceView, Type, Val,
};
use crate::memory::{set_var_spec, var_names, Memory};
use crate::display::{
    decimal, decimal_text, pad_left, pad_left_text, pad_right, pad_right_text, pointers_ok,
    pointers_valid, type_string, value_pieces,
};
use crate::sequence::byte_len;
use crate::machine::names_of;

verus! {

/// The number of parameters that get an argument: as many as both have.
pub open spec fn passed(names: Seq<Seq<char>>, args: Seq<Val>) -> nat {
    if names.len() < args.len() {
        names.len()
    } else {
        args.len()
    }
}

/// The variables once the first `n` parameters are set, in order, each to
/// its argument.
pub open spec fn bind_params(vars: Seq<(Seq<char>, Val)>, names: Seq<Seq<char>>, args: Seq<Val>, n: nat) -> Seq<(Seq<char>, Val)>
    decreases n,
{
    if n == 0 {
        vars
    } else {
        let v = bind_params(vars, names, args, (n - 1) as nat);
        set_var_spec(v, names_of(v), names[n - 1], args[n - 1])
    }
}

/// The mode a function's body runs in, for a caller in `mode`.
pub open spec fn body_mode(mode: ExecutionMode) -> ExecutionMode {
    match mode {
        ExecutionMode::Interactive => ExecutionMode::Debug,
        _ => mode,
    }
}

/// `execute_function`'s mode for the body.
pub fn function_body_mode(mode: &ExecutionMode) -> (r: ExecutionMode)
    ensures
        r == body_mode(*mode),
{
    match mode {
        ExecutionMode::Interactive => ExecutionMode::Debug,
        ExecutionMode::Script => ExecutionMode::Script,
        ExecutionMode::Debug => ExecutionMode::Debug,
    }
}

impl Memory {
    /// `execute_function`, up to the body: each parameter of the function at
    /// `pointer` that has an argument is set to it, silently; the body to
    /// run is given back. None when there is no such function.
    pub fn execute_function(&mut self, pointer: usize, args: &Vec<Type>) -> (r: Option<Vec<String>>)
        ensures
            r is None <==> pointer >= old(self).name_space@.len(),
            r is None ==> *final(self) == *old(self),
            r matches Some(code) ==> {
                let f = funcs_view(old(self).name_space@)[pointer as int];
                &&& texts_of(code@) == f.code
                &&& vars_view(final(self).memory@) == bind_params(vars_view(old(self).memory@), f.args, vals_of(args@), passed(f.args, vals_of(args@)))
                &&& final(self).name_space == old(self).name_space
            },
    {
        if pointer >= self.name_space.len() {
            return None;
        }
        let ghost funcs = funcs_view(self.name_space@);
        let ghost av = vals_of(args@);
        let ghost vars0 = vars_view(self.memory@);
        proof { lemma_list_view(Type::List(*args)); }
        let names = copy_texts(&self.name_space[pointer].args);
        let code = copy_texts(&self.name_space[pointer].code);
        let ghost fv = funcs[pointer as int];
        assert(texts_of(names@) == fv.args);
        let n = if names.len() < args.len() { names.len() } else { args.len() };
        let mut scratch: Vec<Vec<Piece>> = Vec::new();
        let mut i: usize = 0;
        while i < n
            invariant
                i <= n,
                n == passed(fv.args, av),
                n <= args@.len(),
                n <= names@.len(),
                texts_of(names@) == fv.args,
                av == vals_of(args@),
                forall|j: int| 0 <= j < args@.len() ==> #[trigger] av[j] == args@[j]@,
                self.name_space == old(self).name_space,
                vars_view(self.memory@) == bind_params(vars0, fv.args, av, i as nat),
            decreases n - i,
        {
            let ghost before = vars_view(self.memory@);
            assert(var_names(self.memory@) =~= names_of(before));
            assert(names@[i as int]@ == fv.args[i as int]);
            assert(av[i as int] == args@[i as int]@);
            let v = args[i].copy();
            self.set_variable(names[i].as_str(), v, &ExecutionMode::Script, &mut scratch);
            i += 1;
        }
        assert(texts_of(code@) == fv.code);
        Some(code)
    }
}

/// The width of the name column: the longest name, in bytes.
pub open spec fn name_width(vars: Seq<(Seq<char>, Val)>) -> nat
    decreases vars.len(),
{
    if vars.len() == 0 {
        0
    } else {
        let w = name_width(vars.drop_last());
        let b = byte_len(vars.last().0);
        if b > w {
            b
        } else {
            w
        }
    }
}

/// The row of the memory listing for the variable at `k`.
pub open spec fn memory_row(k: nat, var: (Seq<char>, Val), width: nat, funcs: Seq<FunctionView>, script: bool) -> Seq<PieceView> {
    seq![PieceView::Text("| ["@ + pad_left(decimal(k), 3) + "] "@ + pad_right(var.0, width) + " :"@)]
        + value_pieces(var.1, funcs, script)
}

/// What `show_memory` prints: a header and a row per variable, or that
/// there are none.
pub open spec fn memory_listing(vars: Seq<(Seq<char>, Val)>, funcs: Seq<FunctionView>, mode: ExecutionMode) -> Seq<Seq<PieceView>> {
    if vars.len() == 0 {
        logs(mode, seq!["変数がありません"@])
    } else {
        logs(mode, seq!["+-- メモリ内の変数"@]) + Seq::new(
            vars.len(),
            |k: int| memory_row(k as nat, vars[k], name_width(vars), funcs, mode is Script),
        )
    }
}

/// Every value in memory can be written: the functions it names exist.
pub open spec fn values_ok(mem: Memory) -> bool {
    forall|k: int| 0 <= k < mem.memory@.len() ==> pointers_ok(#[trigger] mem.memory@[k].value@, mem.name_space@.len())
}

impl Memory {
    /// Whether every value in memory can be written (see `values_ok`).
    pub fn values_valid(&self) -> (r: bool)
        ensures
            r == values_ok(*self),
    {
        let mut i: usize = 0;
        while i < self.memory.len()
            invariant
                i <= self.memory@.len(),
                forall|k: int| 0 <= k < i ==> pointers_ok(#[trigger] self.memory@[k].value@, self.name_space@.len()),
            decreases self.memory.len() - i,
        {
            if !pointers_valid(&self.memory[i].value, self) {
                return false;
            }
            i += 1;
        }
        true
    }

    /// `show_memory`: lists the variables (see `memory_listing`).
    pub fn show_memory(&self, mode: &ExecutionMode, out: &mut Vec<Vec<Piece>>)
        requires
            values_ok(*self),
        ensures
            lines_view(final(out)@) == lines_view(old(out)@) + memory_listing(vars_view(self.memory@), funcs_view(self.name_space@), *mode),
    {
        let ghost vars = vars_view(self.memory@);
        let ghost funcs = funcs_view(self.name_space@);
        let mut width: usize = 0;
        let mut i: usize = 0;
        while i < self.memory.len()
            invariant
                i <= self.memory@.len(),
                vars == vars_view(self.memory@),
                width == name_width(vars.take(i as int)),
            decreases self.memory.len() - i,
        {
            proof { crate::text::lemma_utf8_len_bounds(self.memory@[i as int].name@); }
            let b = utf8_length(self.memory[i].name.as_str());
            assert(vars.take(i + 1).drop_last() =~= vars.take(i as int));
            assert(vars.take(i + 1).last() == var_view(self.memory@[i as int]));
            if width < b {
                width = b;
            }
            i += 1;
        }
        assert(vars.take(self.memory@.len() as int) =~= vars);
        if self.memory.len() == 0 {
            log_print(mode, text("変数がありません"), out);
            return;
        }
        log_print(mode, text("+-- メモリ内の変数"), out);
        let ghost head = lines_view(out@);
        let ghost rows = Seq::new(vars.len(), |k: int| memory_row(k as nat, vars[k], name_width(vars), funcs, *mode is Script));
        let mut k: usize = 0;
        while k < self.memory.len()
            invariant
                k <= self.memory@.len(),
                vars == vars_view(self.memory@),
                funcs == funcs_view(self.name_space@),
                width == name_width(vars),
                values_ok(*self),
                rows == Seq::new(vars.len(), |k: int| memory_row(k as nat, vars[k], name_width(vars), funcs, *mode is Script)),
                lines_view(out@) == head + rows.take(k as int),
            decreases self.memory.len() - k,
        {
            let mut t = text("| [");
            let idx = decimal_text(k);
            let padded = pad_left_text(idx.as_str(), 3);
            t.append(padded.as_str());
            t.append("] ");
            let name = pad_right_text(self.memory[k].name.as_str(), width);
            t.append(name.as_str());
            t.append(" :");
            let mut line: Vec<Piece> = Vec::new();
            let p = Piece::Text(t);
            line.push(p);
            assert(line_view(line) =~= seq![p@]);
            assert(pointers_ok(self.memory@[k as int].value@, self.name_space@.len()));
            type_string(&self.memory[k].value, self, mode.is_script(), &mut line);
            assert(vars[k as int] == var_view(self.memory@[k as int]));
            assert(line_view(line) =~= rows[k as int]);
            let ghost b = lines_view(out@);
            out.push(line);
            assert(lines_view(out@) =~= b.push(rows[k as int]));
            k += 1;
            assert(lines_view(out@) =~= head + rows.take(k as int));
        }
        assert(rows.take(vars.len() as int) =~= rows);
    }
}

} // verus!
