//! The memory shared by all executors: the variables, found by name, and
//! the name space of user functions.
use vstd::prelude::*;
use crate::text::{
    is_ws, remove_all, remove_all_text, trim, trim_end, trim_start, trim_text,
};
use crate::types::{
    log_print, logs, lines_view, text, texts_of, var_view, vars_view, ExecutionMode, Function,
    Piece, ReturnValue, Type, Val, Variable, funcs_view,
};

verus! {

/// Variables and user functions.
pub struct Memory {
    pub memory: Vec<Variable>,
    pub name_space: Vec<Function>,
}

/// A name as variables are looked up by it: trimmed, with ASCII and
/// ideographic spaces removed.
pub open spec fn name_key(s: Seq<char>) -> Seq<char> {
    remove_all(remove_all(trim(s), ' '), '\u{3000}')
}

/// A function name as functions are looked up by it: as `name_key`, with
/// the parentheses removed too.
pub open spec fn function_key(s: Seq<char>) -> Seq<char> {
    remove_all(trim(remove_all(remove_all(name_key(s), '('), ')')), ' ')
}

/// The first position at or after `from` where `key` stands in `names`.
pub open spec fn first_index_from(names: Seq<Seq<char>>, key: Seq<char>, from: int) -> Option<int>
    decreases names.len() - from,
{
    if from < 0 || from >= names.len() {
        None
    } else if names[from] == key {
        Some(from)
    } else {
        first_index_from(names, key, from + 1)
    }
}

/// The first position where `key` stands in `names`.
pub open spec fn first_index(names: Seq<Seq<char>>, key: Seq<char>) -> Option<int> {
    first_index_from(names, key, 0)
}

/// The last position where `key` stands in `names`.
pub open spec fn latest_index(names: Seq<Seq<char>>, key: Seq<char>) -> Option<int> {
    match first_index(names.reverse(), key) {
        Some(i) => Some(names.len() - 1 - i),
        None => None,
    }
}

/// `latest_index` finds the last position of the key, or tells that the
/// key stands nowhere.
pub proof fn lemma_latest_index(names: Seq<Seq<char>>, key: Seq<char>)
    ensures
        latest_index(names, key) matches Some(i) ==> 0 <= i < names.len() && names[i] == key
            && forall|j: int| i < j < names.len() ==> names[j] != key,
        latest_index(names, key) is None ==> forall|j: int| 0 <= j < names.len() ==> names[j] != key,
{
    let r = names.reverse();
    lemma_first_index_from(r, key, 0);
    match first_index(r, key) {
        Some(k) => {
            assert(r[k] == names[names.len() - 1 - k]);
            assert forall|j: int| names.len() - 1 - k < j < names.len() implies names[j] != key by {
                assert(r[names.len() - 1 - j] == names[j]);
            }
        },
        None => {
            assert forall|j: int| 0 <= j < names.len() implies names[j] != key by {
                assert(r[names.len() - 1 - j] == names[j]);
            }
        },
    }
}

/// The names of the variables.
pub open spec fn var_names(m: Seq<Variable>) -> Seq<Seq<char>> {
    m.map_values(|v: Variable| v.name@)
}

/// The names of the functions.
pub open spec fn func_names(ns: Seq<Function>) -> Seq<Seq<char>> {
    ns.map_values(|f: Function| f.name@)
}

/// The memory after `set_variable(name, value)`: the first variable called
/// `name_key(name)` takes the value, or a new one is appended.
pub open spec fn set_var_spec(vars: Seq<(Seq<char>, Val)>, names: Seq<Seq<char>>, name: Seq<char>, value: Val) -> Seq<(Seq<char>, Val)> {
    let key = name_key(name);
    match first_index(names, key) {
        Some(i) => vars.update(i, (key, value)),
        None => vars.push((key, value)),
    }
}

/// What `set_variable` prints.
pub open spec fn set_var_logs(names: Seq<Seq<char>>, name: Seq<char>) -> Seq<Seq<char>> {
    if first_index(names, name_key(name)) is Some {
        seq!["値を求めます"@, "変数データを更新しました"@]
    } else {
        seq!["値を求めます"@, "メモリに変数を確保しました"@]
    }
}

pub proof fn lemma_first_index_from(names: Seq<Seq<char>>, key: Seq<char>, from: int)
    requires
        0 <= from,
    ensures
        first_index_from(names, key, from) matches Some(i) ==> from <= i < names.len() && names[i]
            == key && forall|k: int| from <= k < i ==> names[k] != key,
        first_index_from(names, key, from) is None ==> forall|k: int|
            from <= k < names.len() ==> names[k] != key,
    decreases names.len() - from,
{
    if from < names.len() && names[from] != key {
        lemma_first_index_from(names, key, from + 1);
    }
}

pub proof fn lemma_first_index_found(names: Seq<Seq<char>>, key: Seq<char>, from: int, i: int)
    requires
        0 <= from <= i < names.len(),
        names[i] == key,
        forall|k: int| from <= k < i ==> names[k] != key,
    ensures
        first_index_from(names, key, from) == Some(i),
    decreases i - from,
{
    if from < i {
        lemma_first_index_found(names, key, from + 1, i);
    }
}

/// The first position where `key` stands in `names`, by a scan.
pub fn position_of(names: &Vec<String>, key: &String) -> (r: Option<usize>)
    ensures
        r matches Some(i) ==> first_index(texts_of(names@), key@) == Some(i as int),
        r is None ==> first_index(texts_of(names@), key@) is None,
{
    let ghost ns = texts_of(names@);
    let mut i: usize = 0;
    while i < names.len()
        invariant
            i <= names.len(),
            ns == texts_of(names@),
            forall|k: int| 0 <= k < i ==> ns[k] != key@,
        decreases names.len() - i,
    {
        if names[i] == *key {
            proof {
                lemma_first_index_found(ns, key@, 0, i as int);
            }
            return Some(i);
        }
        i += 1;
    }
    proof {
        lemma_first_index_from(ns, key@, 0);
    }
    None
}

proof fn lemma_remove_all_no_c(s: Seq<char>, c: char)
    ensures
        forall|i: int| 0 <= i < remove_all(s, c).len() ==> remove_all(s, c)[i] != c,
        remove_all(s, c).len() <= s.len(),
    decreases s.len(),
{
    if s.len() > 0 {
        lemma_remove_all_no_c(s.drop_last(), c);
    }
}

proof fn lemma_remove_all_absent(s: Seq<char>, c: char)
    requires
        forall|i: int| 0 <= i < s.len() ==> s[i] != c,
    ensures
        remove_all(s, c) == s,
    decreases s.len(),
{
    if s.len() > 0 {
        lemma_remove_all_absent(s.drop_last(), c);
        assert(s.drop_last().push(s.last()) =~= s);
    }
}

proof fn lemma_remove_all_ends(s: Seq<char>, c: char)
    ensures
        s.len() > 0 && s[0] != c ==> remove_all(s, c).len() > 0 && remove_all(s, c)[0] == s[0],
        s.len() > 0 && s.last() != c ==> remove_all(s, c).len() > 0 && remove_all(s, c).last()
            == s.last(),
        remove_all(s, c).len() > 0 ==> s.len() > 0,
    decreases s.len(),
{
    if s.len() > 0 {
        lemma_remove_all_ends(s.drop_last(), c);
        if s.len() > 1 {
            assert(s.drop_last()[0] == s[0]);
        } else {
            assert(s.drop_last().len() == 0);
        }
    }
}

proof fn lemma_trim_start_ends(s: Seq<char>)
    ensures
        trim_start(s).len() > 0 ==> !is_ws(trim_start(s)[0]),
        trim_start(s).len() <= s.len(),
        trim_start(s) == s.subrange(s.len() - trim_start(s).len(), s.len() as int),
    decreases s.len(),
{
    if s.len() > 0 && is_ws(s[0]) {
        lemma_trim_start_ends(s.drop_first());
        let t = trim_start(s.drop_first());
        assert(s.drop_first().subrange(s.len() - 1 - t.len(), s.len() - 1) =~= s.subrange(
            s.len() - t.len(),
            s.len() as int,
        ));
    } else {
        assert(s.subrange(0, s.len() as int) =~= s);
    }
}

proof fn lemma_trim_end_ends(s: Seq<char>)
    ensures
        trim_end(s).len() > 0 ==> !is_ws(trim_end(s).last()),
        trim_end(s).len() <= s.len(),
        trim_end(s) == s.subrange(0, trim_end(s).len() as int),
    decreases s.len(),
{
    if s.len() > 0 && is_ws(s.last()) {
        lemma_trim_end_ends(s.drop_last());
        let t = trim_end(s.drop_last());
        assert(s.drop_last().subrange(0, t.len() as int) =~= s.subrange(0, t.len() as int));
    } else {
        assert(s.subrange(0, s.len() as int) =~= s);
    }
}

proof fn lemma_trim_ends(s: Seq<char>)
    ensures
        trim(s).len() > 0 ==> !is_ws(trim(s)[0]) && !is_ws(trim(s).last()),
{
    let a = trim_start(s);
    lemma_trim_start_ends(s);
    lemma_trim_end_ends(a);
    let b = trim_end(a);
    if b.len() > 0 {
        assert(b[0] == a[0]);
    }
}

proof fn lemma_trim_fixed(s: Seq<char>)
    requires
        s.len() > 0 ==> !is_ws(s[0]) && !is_ws(s.last()),
    ensures
        trim(s) == s,
{
    assert(trim_start(s) == s);
    assert(trim_end(s) == s);
}

/// A name key is its own key: it has no spaces and no white space at its ends.
pub proof fn lemma_name_key_fixed(s: Seq<char>)
    ensures
        trim(name_key(s)) == name_key(s),
        remove_all(name_key(s), ' ') == name_key(s),
        name_key(name_key(s)) == name_key(s),
{
    let t = trim(s);
    let u = remove_all(t, ' ');
    let k = remove_all(u, '\u{3000}');
    lemma_trim_ends(s);
    lemma_remove_all_ends(t, ' ');
    lemma_remove_all_ends(u, '\u{3000}');
    if k.len() > 0 {
        assert(!is_ws(k[0]));
        assert(!is_ws(k.last()));
    }
    lemma_trim_fixed(k);
    lemma_remove_all_no_c(t, ' ');
    lemma_remove_all_no_c(u, '\u{3000}');
    lemma_remove_all_keeps_absent(u, '\u{3000}', ' ');
    lemma_remove_all_absent(k, ' ');
    lemma_remove_all_absent(k, '\u{3000}');
}

proof fn lemma_remove_all_keeps_absent(s: Seq<char>, c: char, d: char)
    requires
        forall|i: int| 0 <= i < s.len() ==> s[i] != d,
    ensures
        forall|i: int| 0 <= i < remove_all(s, c).len() ==> remove_all(s, c)[i] != d,
    decreases s.len(),
{
    if s.len() > 0 {
        let t = s.drop_last();
        assert forall|i: int| 0 <= i < t.len() implies t[i] != d by {
            assert(t[i] == s[i]);
        }
        lemma_remove_all_keeps_absent(t, c, d);
        assert(s.last() == s[s.len() - 1]);
        let r = remove_all(s, c);
        let rt = remove_all(t, c);
        if s.last() != c {
            assert(r == rt.push(s.last()));
            assert forall|i: int| 0 <= i < r.len() implies r[i] != d by {
                if i < rt.len() {
                    assert(r[i] == rt[i]);
                }
            }
        }
    }
}

/// `name.trim().replace(" ", "").replace("　", "")`.
pub fn name_key_of(name: &str) -> (r: String)
    ensures
        r@ == name_key(name@),
{
    let t = trim_text(name);
    let u = remove_all_text(t.as_str(), ' ');
    remove_all_text(u.as_str(), '\u{3000}')
}

impl Memory {
    /// An empty memory.
    pub fn new() -> (r: Memory)
        ensures
            r.memory@.len() == 0,
            r.name_space@.len() == 0,
    {
        Memory { memory: Vec::new(), name_space: Vec::new() }
    }

    /// The names of the variables, in memory order.
    pub fn variable_names(&self) -> (r: Vec<String>)
        ensures
            r@.len() == self.memory@.len(),
            texts_of(r@) == var_names(self.memory@),
    {
        let mut r: Vec<String> = Vec::new();
        let mut i: usize = 0;
        while i < self.memory.len()
            invariant
                i <= self.memory@.len(),
                r@.len() == i,
                forall|k: int| 0 <= k < i ==> (#[trigger] r@[k])@ == self.memory@[k].name@,
            decreases self.memory.len() - i,
        {
            r.push(self.memory[i].name.clone());
            i += 1;
        }
        assert(texts_of(r@) =~= var_names(self.memory@));
        r
    }

    /// The names of the functions, last declared first.
    pub fn function_names_reversed(&self) -> (r: Vec<String>)
        ensures
            texts_of(r@) == func_names(self.name_space@).reverse(),
    {
        let n = self.name_space.len();
        let mut r: Vec<String> = Vec::new();
        let mut i: usize = 0;
        while i < n
            invariant
                i <= n == self.name_space@.len(),
                r@.len() == i,
                forall|k: int| 0 <= k < i ==> (#[trigger] r@[k])@ == self.name_space@[n - 1 - k].name@,
            decreases n - i,
        {
            r.push(self.name_space[n - 1 - i].name.clone());
            i += 1;
        }
        assert(texts_of(r@) =~= func_names(self.name_space@).reverse());
        r
    }

    /// `reference_variable`: the position of the first variable whose name
    /// is the key of `name`.
    pub fn reference_variable(&self, name: &str) -> (r: Option<usize>)
        ensures
            r matches Some(i) ==> first_index(var_names(self.memory@), name_key(name@)) == Some(
                i as int,
            ),
            r is None ==> first_index(var_names(self.memory@), name_key(name@)) is None,
            r matches Some(i) ==> i < self.memory@.len(),
    {
        let key = name_key_of(name);
        let names = self.variable_names();
        let r = position_of(&names, &key);
        proof {
            lemma_first_index_from(var_names(self.memory@), name_key(name@), 0);
        }
        r
    }

    /// `reference_function`: the position of the latest declared function
    /// whose name is the function key of `name`.
    pub fn reference_function(&self, name: &str) -> (r: Option<usize>)
        ensures
            r matches Some(i) ==> latest_index(func_names(self.name_space@), function_key(name@)) == Some(i as int),
            r is None ==> latest_index(func_names(self.name_space@), function_key(name@)) is None,
            r matches Some(i) ==> i < self.name_space@.len() && self.name_space@[i as int].name@ == function_key(name@)
                && forall|j: int| i < j < self.name_space@.len() ==> #[trigger] self.name_space@[j].name@ != function_key(name@),
            r is None ==> forall|j: int| 0 <= j < self.name_space@.len() ==> #[trigger] self.name_space@[j].name@ != function_key(name@),
    {
        let k1 = name_key_of(name);
        let k2 = remove_all_text(k1.as_str(), '(');
        let k3 = remove_all_text(k2.as_str(), ')');
        let k4 = trim_text(k3.as_str());
        let key = remove_all_text(k4.as_str(), ' ');
        let names = self.function_names_reversed();
        let found = position_of(&names, &key);
        proof {
            lemma_latest_index(func_names(self.name_space@), key@);
            let names = func_names(self.name_space@);
            assert forall|j: int| 0 <= j < self.name_space@.len() implies #[trigger] self.name_space@[j].name@ == names[j] by {}
        }
        match found {
            Some(i) => {
                proof {
                    lemma_first_index_from(func_names(self.name_space@).reverse(), key@, 0);
                }
                Some(self.name_space.len() - 1 - i)
            },
            None => None,
        }
    }

    /// `set_variable`: gives the first variable called `name_key(name)` the
    /// value, or appends a new variable of that name.
    pub fn set_variable(&mut self, name: &str, value: Type, mode: &ExecutionMode, out: &mut Vec<Vec<Piece>>) -> (r: ReturnValue)
        ensures
            r is Nothing,
            vars_view(final(self).memory@) == set_var_spec(
                vars_view(old(self).memory@),
                var_names(old(self).memory@),
                name@,
                value@,
            ),
            var_names(final(self).memory@) == vars_view(final(self).memory@).map_values(
                |v: (Seq<char>, Val)| v.0,
            ),
            final(self).name_space == old(self).name_space,
            lines_view(final(out)@) == lines_view(old(out)@) + logs(
                *mode,
                set_var_logs(var_names(old(self).memory@), name@),
            ),
    {
        let key = name_key_of(name);
        proof {
            lemma_name_key_fixed(name@);
        }
        let t = trim_text(key.as_str());
        let key2 = remove_all_text(t.as_str(), ' ');
        let names = self.variable_names();
        let dup = position_of(&names, &key2);
        let ghost old_vars = vars_view(self.memory@);
        match dup {
            Some(_) => {
                let address = match self.reference_variable(key.as_str()) {
                    Some(a) => a,
                    None => 0,
                };
                proof {
                    assert(key2@ == key@);
                    assert(name_key(key@) == key@);
                    lemma_first_index_from(var_names(self.memory@), key@, 0);
                    assert(vars_view(self.memory@)[address as int].0 == var_names(self.memory@)[address as int]);
                }
                log_print(mode, text("値を求めます"), out);
                self.memory.set(address, Variable { name: key, value });
                log_print(mode, text("変数データを更新しました"), out);
                proof {
                    let i = address as int;
                    assert(vars_view(self.memory@) =~= old_vars.update(i, (name_key(name@), value@)));
                }
            },
            None => {
                log_print(mode, text("値を求めます"), out);
                self.memory.push(Variable { name: key, value });
                log_print(mode, text("メモリに変数を確保しました"), out);
                assert(vars_view(self.memory@) =~= old_vars.push((name_key(name@), value@)));
            },
        }
        assert(var_names(self.memory@) =~= vars_view(self.memory@).map_values(
            |v: (Seq<char>, Val)| v.0,
        ));
        assert(lines_view(out@) =~= lines_view(old(out)@) + logs(
            *mode,
            set_var_logs(var_names(old(self).memory@), name@),
        ));
        ReturnValue::Nothing
    }

    /// `get_variable`: a copy of the first variable called `name_key(name)`;
    /// reports when there is none.
    pub fn get_variable(&self, name: &str, mode: &ExecutionMode, out: &mut Vec<Vec<Piece>>) -> (r: Option<Variable>)
        ensures
            match first_index(var_names(self.memory@), name_key(name@)) {
                Some(i) => r matches Some(v) && var_view(v) == var_view(self.memory@[i])
                    && lines_view(final(out)@) == lines_view(old(out)@),
                None => r is None && lines_view(final(out)@) == lines_view(old(out)@) + logs(
                    *mode,
                    seq!["変数"@ + name_key(name@) + "が見つかりません"@],
                ),
            },
    {
        let key = name_key_of(name);
        proof {
            lemma_name_key_fixed(name@);
        }
        match self.reference_variable(key.as_str()) {
            Some(i) => {
                proof {
                    lemma_first_index_from(var_names(self.memory@), key@, 0);
                }
                Some(self.memory[i].copy())
            },
            None => {
                let mut msg = text("変数");
                msg.append(key.as_str());
                msg.append("が見つかりません");
                log_print(mode, msg, out);
                None
            },
        }
    }

    /// `get_variable_value`: the value of the variable, or the number 0
    /// when there is none.
    pub fn get_variable_value(&self, name: &str, mode: &ExecutionMode, out: &mut Vec<Vec<Piece>>) -> (r: Type)
        ensures
            match first_index(var_names(self.memory@), name_key(name@)) {
                Some(i) => r@ == self.memory@[i].value@ && lines_view(final(out)@) == lines_view(
                    old(out)@,
                ) + logs(*mode, seq!["変数"@ + name@ + "を読み込みます"@]),
                None => r@ == Val::Number(0) && lines_view(final(out)@) == lines_view(old(out)@)
                    + logs(
                    *mode,
                    seq![
                        "変数"@ + name@ + "を読み込みます"@,
                        "変数"@ + name_key(name@) + "が見つかりません"@,
                    ],
                ),
            },
    {
        let mut msg = text("変数");
        msg.append(name);
        msg.append("を読み込みます");
        log_print(mode, msg, out);
        let ghost mid = lines_view(out@);
        let r = match self.get_variable(name, mode, out) {
            Some(v) => v.value,
            None => Type::Number(0),
        };
        assert(lines_view(out@) =~= lines_view(old(out)@) + logs(
            *mode,
            if first_index(var_names(self.memory@), name_key(name@)) is Some {
                seq!["変数"@ + name@ + "を読み込みます"@]
            } else {
                seq![
                    "変数"@ + name@ + "を読み込みます"@,
                    "変数"@ + name_key(name@) + "が見つかりません"@,
                ]
            },
        ));
        r
    }

    /// `declaration_function`: appends the function to the name space and
    /// binds its name to it.
    pub fn declaration_function(&mut self, function: Function, mode: &ExecutionMode, out: &mut Vec<Vec<Piece>>)
        ensures
            funcs_view(final(self).name_space@) == funcs_view(old(self).name_space@).push(function@),
            vars_view(final(self).memory@) == set_var_spec(
                vars_view(old(self).memory@),
                var_names(old(self).memory@),
                function.name@,
                Val::Function(old(self).name_space@.len() as usize),
            ),
            lines_view(final(out)@) == lines_view(old(out)@) + logs(
                *mode,
                seq!["メモリに関数を保存しました"@] + set_var_logs(
                    var_names(old(self).memory@),
                    function.name@,
                ),
            ),
    {
        let name = function.name.clone();
        let index = self.name_space.len();
        self.name_space.push(function);
        assert(funcs_view(self.name_space@) =~= funcs_view(old(self).name_space@).push(function@));
        log_print(mode, text("メモリに関数を保存しました"), out);
        let ghost mid = lines_view(out@);
        self.set_variable(name.as_str(), Type::Function(index), mode, out);
        assert(lines_view(out@) =~= lines_view(old(out)@) + logs(
            *mode,
            seq!["メモリに関数を保存しました"@] + set_var_logs(
                var_names(old(self).memory@),
                function.name@,
            ),
        ));
    }

    /// `function_propaty`: the function at a position of the name space.
    pub fn function_propaty(&self, pointer: usize) -> (r: &Function)
        requires
            pointer < self.name_space@.len(),
        ensures
            *r == self.name_space@[pointer as int],
    {
        &self.name_space[pointer]
    }
}

} // verus!
