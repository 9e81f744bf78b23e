//! The kinds of statement that a line of `Normal` mode can be, told apart
//! by the keywords that it contains, in the order the interpreter tests
//! them.
use vstd::prelude::*;
use crate::text::{
    contains, contains_text, join, join_from, remove_all, remove_all_text, remove_first,
    remove_first_text, split, split_text, trim, trim_text, lemma_split_nonempty,
};
use crate::types::text;

verus! {

/// A statement of `Normal` mode, with the texts it is made of.
pub enum StmtKind {
    /// `var name = expr`: the name without spaces, and the expression.
    Assign(Seq<char>, Seq<char>),
    /// `var name[index] = expr`: the target, and the expression.
    AssignIndex(Seq<char>, Seq<char>),
    /// `func name(args)`: the name that is shown.
    Define(Seq<char>),
    /// `func` without a parenthesis.
    DefineUnbracketed,
    /// `for count`: the count expression.
    For(Seq<char>),
    /// `if cond`: the condition.
    If(Seq<char>),
    /// `try`.
    Try,
    /// `while cond`: the condition.
    While(Seq<char>),
    /// `import file`: the file name as written.
    Import(Seq<char>),
    /// `mem`.
    Mem,
    /// `del name(...)`: the text after `del`.
    DelFunction(Seq<char>),
    /// `del name[index]`: the text after `del`.
    DelIndex(Seq<char>),
    /// `del name`: the text after `del`.
    DelVariable(Seq<char>),
    /// `return expr`: the expression.
    Return(Seq<char>),
    /// `break`.
    Break,
    /// `next`.
    Next,
    /// `exit`.
    Exit,
    /// Any other line: an expression to evaluate.
    Evaluate(Seq<char>),
}

/// The statement a line of `Normal` mode is.
pub open spec fn classify(code: Seq<char>) -> StmtKind {
    if contains(code, "var"@) {
        let params = split(remove_first(code, "var"@), '=');
        let name = trim(params[0]);
        let expr = join(params.skip(1), "="@);
        if contains(name, "["@) {
            StmtKind::AssignIndex(name, expr)
        } else {
            StmtKind::Assign(remove_all(name, ' '), expr)
        }
    } else if contains(code, "func"@) {
        if contains(code, "("@) {
            StmtKind::Define(split(remove_all(remove_all(remove_all(remove_first(trim(code), "func"@), ')'), ' '), '　'), '(')[0])
        } else {
            StmtKind::DefineUnbracketed
        }
    } else if contains(code, "for"@) {
        StmtKind::For(remove_first(code, "for"@))
    } else if contains(code, "if"@) {
        StmtKind::If(remove_first(code, "if"@))
    } else if contains(code, "try"@) {
        StmtKind::Try
    } else if contains(code, "while"@) {
        StmtKind::While(remove_first(code, "while"@))
    } else if contains(code, "import"@) {
        StmtKind::Import(remove_first(code, "import"@))
    } else if contains(code, "mem"@) {
        StmtKind::Mem
    } else if contains(code, "del"@) {
        let name = remove_first(code, "del"@);
        if contains(name, "("@) {
            StmtKind::DelFunction(name)
        } else if contains(name, "["@) {
            StmtKind::DelIndex(name)
        } else {
            StmtKind::DelVariable(name)
        }
    } else if contains(code, "return"@) {
        StmtKind::Return(remove_first(code, "return"@))
    } else if contains(code, "break"@) {
        StmtKind::Break
    } else if contains(code, "next"@) {
        StmtKind::Next
    } else if code == "exit"@ {
        StmtKind::Exit
    } else {
        StmtKind::Evaluate(code)
    }
}

/// A statement of `Normal` mode, as values.
pub enum Statement {
    Assign(String, String),
    AssignIndex(String, String),
    Define(String),
    DefineUnbracketed,
    For(String),
    If(String),
    Try,
    While(String),
    Import(String),
    Mem,
    DelFunction(String),
    DelIndex(String),
    DelVariable(String),
    Return(String),
    Break,
    Next,
    Exit,
    Evaluate(String),
}

impl View for Statement {
    type V = StmtKind;

    open spec fn view(&self) -> StmtKind {
        match self {
            Statement::Assign(n, e) => StmtKind::Assign(n@, e@),
            Statement::AssignIndex(t, e) => StmtKind::AssignIndex(t@, e@),
            Statement::Define(n) => StmtKind::Define(n@),
            Statement::DefineUnbracketed => StmtKind::DefineUnbracketed,
            Statement::For(e) => StmtKind::For(e@),
            Statement::If(e) => StmtKind::If(e@),
            Statement::Try => StmtKind::Try,
            Statement::While(e) => StmtKind::While(e@),
            Statement::Import(f) => StmtKind::Import(f@),
            Statement::Mem => StmtKind::Mem,
            Statement::DelFunction(n) => StmtKind::DelFunction(n@),
            Statement::DelIndex(n) => StmtKind::DelIndex(n@),
            Statement::DelVariable(n) => StmtKind::DelVariable(n@),
            Statement::Return(e) => StmtKind::Return(e@),
            Statement::Break => StmtKind::Break,
            Statement::Next => StmtKind::Next,
            Statement::Exit => StmtKind::Exit,
            Statement::Evaluate(e) => StmtKind::Evaluate(e@),
        }
    }
}

/// Tells which statement a line of `Normal` mode is (see `classify`).
pub fn classify_statement(code: &str) -> (r: Statement)
    ensures
        r@ == classify(code@),
{
    if contains_text(code, "var") {
        let rest = remove_first_text(code, "var");
        let params = split_text(rest.as_str(), '=');
        proof { lemma_split_nonempty(rest@, '='); }
        let name = trim_text(params[0].as_str());
        let expr = join_from(&params, 1, "=");
        assert(params@.skip(1).map_values(|p: String| p@) =~= split(rest@, '=').skip(1));
        if contains_text(name.as_str(), "[") {
            Statement::AssignIndex(name, expr)
        } else {
            Statement::Assign(remove_all_text(name.as_str(), ' '), expr)
        }
    } else if contains_text(code, "func") {
        if contains_text(code, "(") {
            let t = trim_text(code);
            let a = remove_first_text(t.as_str(), "func");
            let b = remove_all_text(a.as_str(), ')');
            let c = remove_all_text(b.as_str(), ' ');
            let d = remove_all_text(c.as_str(), '　');
            let parts = split_text(d.as_str(), '(');
            proof { lemma_split_nonempty(d@, '('); }
            Statement::Define(parts[0].clone())
        } else {
            Statement::DefineUnbracketed
        }
    } else if contains_text(code, "for") {
        Statement::For(remove_first_text(code, "for"))
    } else if contains_text(code, "if") {
        Statement::If(remove_first_text(code, "if"))
    } else if contains_text(code, "try") {
        Statement::Try
    } else if contains_text(code, "while") {
        Statement::While(remove_first_text(code, "while"))
    } else if contains_text(code, "import") {
        Statement::Import(remove_first_text(code, "import"))
    } else if contains_text(code, "mem") {
        Statement::Mem
    } else if contains_text(code, "del") {
        let name = remove_first_text(code, "del");
        if contains_text(name.as_str(), "(") {
            Statement::DelFunction(name)
        } else if contains_text(name.as_str(), "[") {
            Statement::DelIndex(name)
        } else {
            Statement::DelVariable(name)
        }
    } else if contains_text(code, "return") {
        Statement::Return(remove_first_text(code, "return"))
    } else if contains_text(code, "break") {
        Statement::Break
    } else if contains_text(code, "next") {
        Statement::Next
    } else if String::from_str(code) == text("exit") {
        Statement::Exit
    } else {
        Statement::Evaluate(String::from_str(code))
    }
}

} // verus!
