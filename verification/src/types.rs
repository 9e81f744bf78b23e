//! The values of the language, the memory that holds variables and
//! functions, and the text that the interpreter prints.
use vstd::prelude::*;

verus! {

/// A value of the language. Numbers are binary64 values held as their
/// bit patterns (see `float`).
pub enum Type {
    Number(u64),
    String(String),
    Bool(bool),
    List(Vec<Type>),
    Function(usize),
}

/// The mathematical content of a value: text as characters, lists as
/// sequences of contents.
pub enum Val {
    Number(u64),
    Text(Seq<char>),
    Bool(bool),
    List(Seq<Val>),
    Function(usize),
}

/// The content of a value.
pub open spec fn val_of(t: Type) -> Val
    decreases t,
{
    match t {
        Type::Number(b) => Val::Number(b),
        Type::String(s) => Val::Text(s@),
        Type::Bool(b) => Val::Bool(b),
        Type::List(l) => Val::List(vals_of(l@)),
        Type::Function(p) => Val::Function(p),
    }
}

/// The contents of a run of values.
pub open spec fn vals_of(l: Seq<Type>) -> Seq<Val>
    decreases l,
{
    Seq::new(l.len(), |i: int| if 0 <= i < l.len() { val_of(l[i]) } else { Val::Bool(false) })
}

/// The content of a list value is the run of its elements' contents.
pub proof fn lemma_list_view(t: Type)
    ensures
        t matches Type::List(l) ==> t@ == Val::List(vals_of(l@)) && vals_of(l@).len() == l@.len()
            && forall|i: int| 0 <= i < l@.len() ==> #[trigger] vals_of(l@)[i] == l@[i]@,
{
}

/// A value and its content are of the same kind.
pub proof fn lemma_val_kind(t: Type)
    ensures
        (t@ is Number) == (t is Number),
        (t@ is Text) == (t is String),
        (t@ is Bool) == (t is Bool),
        (t@ is List) == (t is List),
        (t@ is Function) == (t is Function),
        t is Function ==> t@ == Val::Function(t->Function_0),
        t is Number ==> t@ == Val::Number(t->Number_0),
        t is Bool ==> t@ == Val::Bool(t->Bool_0),
        t is String ==> t@ == Val::Text(t->String_0@),
{
}

impl View for Type {
    type V = Val;

    open spec fn view(&self) -> Val {
        val_of(*self)
    }
}

/// A variable of the memory.
pub struct Variable {
    pub name: String,
    pub value: Type,
}

/// A user-defined function: its name, parameter names and body lines.
pub struct Function {
    pub name: String,
    pub args: Vec<String>,
    pub code: Vec<String>,
}

/// The block that an executor is collecting lines for.
pub enum ControlMode {
    If,
    Else,
    For,
    While,
    Function,
    Try,
    Catch,
    Normal,
}

/// What running a statement or a block gives back.
pub enum ReturnValue {
    Value(Type),
    Nothing,
    Error(String),
    Break,
    Next,
}

/// How a program is being run: with commentary (`Interactive`, `Debug`)
/// or silently (`Script`).
pub enum ExecutionMode {
    Interactive,
    Script,
    Debug,
}

/// A piece of printed text: characters, or a number that the host
/// renders in Rust's `Display` form of binary64.
pub enum Piece {
    Text(String),
    Number(u64),
}

/// The content of a piece of printed text.
pub enum PieceView {
    Text(Seq<char>),
    Number(u64),
}

impl View for Piece {
    type V = PieceView;

    open spec fn view(&self) -> PieceView {
        match self {
            Piece::Text(s) => PieceView::Text(s@),
            Piece::Number(b) => PieceView::Number(*b),
        }
    }
}

/// The content of a printed line.
pub open spec fn line_view(l: Vec<Piece>) -> Seq<PieceView> {
    l@.map_values(|p: Piece| p@)
}

/// The content of printed lines.
pub open spec fn lines_view(out: Seq<Vec<Piece>>) -> Seq<Seq<PieceView>> {
    out.map_values(|l: Vec<Piece>| line_view(l))
}

/// A line made of one text.
pub open spec fn text_line(s: Seq<char>) -> Seq<PieceView> {
    seq![PieceView::Text(s)]
}

/// What `log_print` of each message prints in the given mode: nothing in
/// `Script` mode, a line each otherwise.
pub open spec fn logs(mode: ExecutionMode, msgs: Seq<Seq<char>>) -> Seq<Seq<PieceView>> {
    if mode is Script {
        Seq::empty()
    } else {
        msgs.map_values(|m: Seq<char>| text_line(m))
    }
}

/// The contents of a list of texts.
pub open spec fn texts_of(v: Seq<String>) -> Seq<Seq<char>> {
    v.map_values(|s: String| s@)
}

/// The content of a returned value.
pub enum Returned {
    Value(Val),
    Nothing,
    Error(Seq<char>),
    Break,
    Next,
}

impl View for ReturnValue {
    type V = Returned;

    open spec fn view(&self) -> Returned {
        match self {
            ReturnValue::Value(t) => Returned::Value(t@),
            ReturnValue::Nothing => Returned::Nothing,
            ReturnValue::Error(e) => Returned::Error(e@),
            ReturnValue::Break => Returned::Break,
            ReturnValue::Next => Returned::Next,
        }
    }
}

/// The content of a function.
pub struct FunctionView {
    pub name: Seq<char>,
    pub args: Seq<Seq<char>>,
    pub code: Seq<Seq<char>>,
}

impl View for Function {
    type V = FunctionView;

    open spec fn view(&self) -> FunctionView {
        FunctionView { name: self.name@, args: texts_of(self.args@), code: texts_of(self.code@) }
    }
}

/// The content of a variable: its name and value.
pub open spec fn var_view(v: Variable) -> (Seq<char>, Val) {
    (v.name@, v.value@)
}

/// The contents of the variables of a memory.
pub open spec fn vars_view(m: Seq<Variable>) -> Seq<(Seq<char>, Val)> {
    m.map_values(|v: Variable| var_view(v))
}

/// The contents of the functions of a name space.
pub open spec fn funcs_view(ns: Seq<Function>) -> Seq<FunctionView> {
    ns.map_values(|f: Function| f@)
}

impl ExecutionMode {
    /// A copy of the mode.
    pub fn copy(&self) -> (r: ExecutionMode)
        ensures
            r == *self,
    {
        match self {
            ExecutionMode::Interactive => ExecutionMode::Interactive,
            ExecutionMode::Script => ExecutionMode::Script,
            ExecutionMode::Debug => ExecutionMode::Debug,
        }
    }

    /// The mode is `Script`.
    pub fn is_script(&self) -> (r: bool)
        ensures
            r == (*self is Script),
    {
        match self {
            ExecutionMode::Script => true,
            _ => false,
        }
    }
}

impl ControlMode {
    /// A copy of the mode.
    pub fn copy(&self) -> (r: ControlMode)
        ensures
            r == *self,
    {
        match self {
            ControlMode::If => ControlMode::If,
            ControlMode::Else => ControlMode::Else,
            ControlMode::For => ControlMode::For,
            ControlMode::While => ControlMode::While,
            ControlMode::Function => ControlMode::Function,
            ControlMode::Try => ControlMode::Try,
            ControlMode::Catch => ControlMode::Catch,
            ControlMode::Normal => ControlMode::Normal,
        }
    }
}

/// A text from a literal.
pub fn text(s: &str) -> (r: String)
    ensures
        r@ == s@,
{
    String::from_str(s)
}

/// A line of one text.
pub fn text_piece_line(s: String) -> (r: Vec<Piece>)
    ensures
        line_view(r) == text_line(s@),
{
    let r = vec![Piece::Text(s)];
    assert(line_view(r) =~= text_line(r@[0]->Text_0@));
    r
}

/// `log_print`: prints the message unless the mode is `Script`.
pub fn log_print(mode: &ExecutionMode, msg: String, out: &mut Vec<Vec<Piece>>)
    ensures
        lines_view(final(out)@) == lines_view(old(out)@) + logs(*mode, seq![msg@]),
{
    if !mode.is_script() {
        let l = text_piece_line(msg);
        out.push(l);
        assert(lines_view(out@) =~= lines_view(old(out)@) + logs(*mode, seq![msg@]));
    } else {
        assert(lines_view(out@) =~= lines_view(old(out)@) + logs(*mode, seq![msg@]));
    }
}

/// A copy of a text list.
pub fn copy_texts(v: &Vec<String>) -> (r: Vec<String>)
    ensures
        r@ == v@,
{
    let mut r: Vec<String> = Vec::new();
    let mut i: usize = 0;
    while i < v.len()
        invariant
            i <= v.len(),
            r@ == v@.take(i as int),
        decreases v.len() - i,
    {
        r.push(v[i].clone());
        i += 1;
        assert(r@ =~= v@.take(i as int));
    }
    assert(v@.take(v.len() as int) =~= v@);
    r
}

impl Type {
    /// A copy of the value with the same content.
    pub fn copy(&self) -> (r: Type)
        ensures
            r@ == self@,
        decreases self,
    {
        match self {
            Type::Number(b) => Type::Number(*b),
            Type::String(s) => Type::String(s.clone()),
            Type::Bool(b) => Type::Bool(*b),
            Type::Function(p) => Type::Function(*p),
            Type::List(l) => {
                let mut v: Vec<Type> = Vec::new();
                let mut i: usize = 0;
                while i < l.len()
                    invariant
                        i <= l.len(),
                        v@.len() == i,
                        *self == Type::List(*l),
                        forall|k: int| 0 <= k < i ==> (#[trigger] v@[k])@ == l@[k]@,
                    decreases l.len() - i,
                {
                    proof {
                        broadcast use vstd::std_specs::vec::axiom_vec_decreases_to_view;

                        assert(decreases_to!(*self => (*self)->List_0));
                        assert(decreases_to!(*l => l@));
                        assert(decreases_to!(l@ => l@[i as int]));
                    }
                    let c = l[i].copy();
                    v.push(c);
                    i += 1;
                }
                assert(vals_of(v@) =~= vals_of(l@));
                Type::List(v)
            },
        }
    }
}

impl Variable {
    /// A copy of the variable.
    pub fn copy(&self) -> (r: Variable)
        ensures
            var_view(r) == var_view(*self),
    {
        Variable { name: self.name.clone(), value: self.value.copy() }
    }
}

impl ReturnValue {
    /// A copy of the returned value.
    pub fn copy(&self) -> (r: ReturnValue)
        ensures
            r@ == self@,
    {
        match self {
            ReturnValue::Value(t) => ReturnValue::Value(t.copy()),
            ReturnValue::Nothing => ReturnValue::Nothing,
            ReturnValue::Error(e) => ReturnValue::Error(e.clone()),
            ReturnValue::Break => ReturnValue::Break,
            ReturnValue::Next => ReturnValue::Next,
        }
    }
}

} // verus!
