//! The `classes!` macro: a list of class-name expressions becomes a block
//! that builds one space-separated class string.
//!
//! Each input expression is sorted into a [`ClassPart`]: a literal whose text
//! is known while the macro runs, an `if` whose branches push their
//! expressions, or any other expression, whose text is only known when the
//! generated code runs. Each part then becomes one [`ClassStmt`] of the
//! generated block.

use vstd::prelude::*;

use crate::text::{decimal_digits, parse_u64, spec_parse_u64, u64_to_decimal};

verus! {

/// A statement inside a branch of an `if` in the class list, as far as the
/// macro looks at it.
#[derive(Debug, PartialEq)]
pub enum BranchStmt {
    /// An expression statement (with or without a trailing semicolon).
    Expr(syn::Expr),
    /// A `let`, an item or a macro statement: these push nothing.
    Other,
}

/// The `else` of an `if` in the class list, as far as the macro looks at it.
#[derive(Debug, PartialEq)]
pub enum ElseBranch {
    /// No `else`.
    Absent,
    /// `else { ... }`.
    Block(Vec<BranchStmt>),
    /// `else` followed directly by a literal.
    Lit(syn::ExprLit),
    /// Any other `else` (such as `else if`): the macro drops it.
    Other,
}

/// An `if` expression of the class list: its condition and its branches.
#[derive(Debug, PartialEq)]
pub struct ClassIf {
    pub cond: syn::Expr,
    pub then_stmts: Vec<BranchStmt>,
    pub else_branch: ElseBranch,
}

/// One expression of the class list, as far as the macro looks at it.
#[derive(Debug, PartialEq)]
pub enum ClassExpr {
    /// A string literal, with the text it denotes.
    Str(String),
    /// A `true` or `false` literal.
    Bool(bool),
    /// An integer literal, by its base-10 digits (as `syn` normalises them).
    Int(String),
    /// An `if` expression.
    If(ClassIf),
    /// Any other expression, such as a call, a variable or a `format!`.
    Other(syn::Expr),
}

/// A part of the class list after sorting.
#[derive(Debug, PartialEq)]
pub enum ClassPart {
    /// A class name known while the macro runs.
    Literal(String),
    /// An `if` whose branches push class names.
    Conditional(ClassIf),
    /// An expression whose text is known when the generated code runs.
    Expression(syn::Expr),
}

/// The `else` clause of a generated `if`.
#[derive(Debug, PartialEq)]
pub enum ElseClause {
    /// No `else` clause.
    Absent,
    /// `else { ... }` pushing each expression, then a space.
    Block(Vec<syn::Expr>),
    /// `else { ... }` pushing the literal, then a space.
    Lit(syn::ExprLit),
}

/// One statement of the generated block; `classes` is the string it builds.
#[derive(Debug, PartialEq)]
pub enum ClassStmt {
    /// No statement at all.
    Nothing,
    /// `classes.push_str(text); classes.push(' ');`
    PushLiteral(String),
    /// `if cond { <push each then-expression and a space> } <else clause>`
    PushIf { cond: syn::Expr, then_pushes: Vec<syn::Expr>, else_clause: ElseClause },
    /// `{ let s = expr; let s_str: &str = s.as_ref(); if !s_str.is_empty() {
    /// classes.push_str(s_str); classes.push(' '); } }`
    PushIfNonEmpty(syn::Expr),
}

/// The parsed input of `classes!`.
#[derive(Debug, PartialEq)]
pub struct ClassListInput(pub Vec<ClassPart>);

/// The block that `classes!` expands to: a fresh empty `String` named
/// `classes`, these statements in order, then `classes.trim_end().to_string()`.
#[derive(Debug, PartialEq)]
pub struct ClassBlock {
    pub stmts: Vec<ClassStmt>,
}

/// Whether an integer literal of the list can be read as a `u64`: the macro
/// fails on any other literal.
pub open spec fn class_expr_readable(e: ClassExpr) -> bool {
    match e {
        ClassExpr::Int(digits) => spec_parse_u64(digits@) is Some,
        _ => true,
    }
}

/// The text of a `bool` as Rust prints it.
pub open spec fn bool_text(b: bool) -> Seq<char> {
    if b {
        seq!['t', 'r', 'u', 'e']
    } else {
        seq!['f', 'a', 'l', 's', 'e']
    }
}

/// Whether `p` is the part that the expression `e` of the list becomes: a
/// string literal gives its text, `true` and `false` give their names, an
/// integer literal gives its value written in base 10, an `if` stays a
/// conditional, and anything else stays an expression.
pub open spec fn part_of_expr(e: ClassExpr, p: ClassPart) -> bool {
    match e {
        ClassExpr::Str(s) => p == ClassPart::Literal(s),
        ClassExpr::Bool(b) => p matches ClassPart::Literal(t) && t@ == bool_text(b),
        ClassExpr::Int(digits) => p matches ClassPart::Literal(t) && t@ == decimal_digits(
            spec_parse_u64(digits@).unwrap() as nat,
        ),
        ClassExpr::If(i) => p == ClassPart::Conditional(i),
        ClassExpr::Other(x) => p == ClassPart::Expression(x),
    }
}

/// The expressions that a branch pushes: those of its expression
/// statements, in order.
pub open spec fn branch_exprs(stmts: Seq<BranchStmt>) -> Seq<syn::Expr>
    decreases stmts.len(),
{
    if stmts.len() == 0 {
        Seq::empty()
    } else {
        let rest = branch_exprs(stmts.drop_last());
        match stmts.last() {
            BranchStmt::Expr(e) => rest.push(e),
            BranchStmt::Other => rest,
        }
    }
}

/// Whether `c` is the generated `else` clause for the `else` branch `b`: a
/// block pushes the expressions of its expression statements, a literal is
/// pushed, and any other `else` is dropped.
pub open spec fn else_clause_of(b: ElseBranch, c: ElseClause) -> bool {
    match b {
        ElseBranch::Absent => c is Absent,
        ElseBranch::Block(stmts) => c matches ElseClause::Block(es) && es@ == branch_exprs(stmts@),
        ElseBranch::Lit(l) => c == ElseClause::Lit(l),
        ElseBranch::Other => c is Absent,
    }
}

/// Whether `st` is the generated statement for the part `p`: an empty
/// literal gives no statement, another literal is pushed, a conditional
/// becomes an `if` pushing the expressions of its branches, and an
/// expression is pushed when its text is not empty.
pub open spec fn stmt_of_part(p: ClassPart, st: ClassStmt) -> bool {
    match p {
        ClassPart::Literal(s) => if s@.len() == 0 {
            st is Nothing
        } else {
            st == ClassStmt::PushLiteral(s)
        },
        ClassPart::Conditional(i) => st matches ClassStmt::PushIf { cond, then_pushes, else_clause }
            && cond == i.cond && then_pushes@ == branch_exprs(i.then_stmts@) && else_clause_of(
            i.else_branch,
            else_clause,
        ),
        ClassPart::Expression(x) => st == ClassStmt::PushIfNonEmpty(x),
    }
}

/// The expressions pushed by a branch: those of its expression statements.
fn branch_pushes(stmts: Vec<BranchStmt>) -> (r: Vec<syn::Expr>)
    ensures
        r@ == branch_exprs(stmts@),
{
    let ghost orig = stmts@;
    let mut stmts = stmts;
    let mut out: Vec<syn::Expr> = Vec::new();
    let n = stmts.len();
    let mut i: usize = 0;
    while i < n
        invariant
            n == orig.len(),
            i <= n,
            stmts@ == orig.skip(i as int),
            out@ == branch_exprs(orig.take(i as int)),
        decreases n - i,
    {
        let st = stmts.remove(0);
        assert(orig.take(i + 1).drop_last() =~= orig.take(i as int));
        assert(orig.take(i + 1).last() == orig[i as int]);
        assert(stmts@ =~= orig.skip(i + 1));
        match st {
            BranchStmt::Expr(e) => {
                out.push(e);
            },
            BranchStmt::Other => {},
        }
        i = i + 1;
    }
    assert(orig.take(n as int) =~= orig);
    out
}

/// Writes `true` or `false`.
fn bool_to_string(b: bool) -> (s: String)
    ensures
        s@ == bool_text(b),
{
    let mut s = String::new();
    if b {
        proof {
            reveal_strlit("true");
        }
        s.append("true");
    } else {
        proof {
            reveal_strlit("false");
        }
        s.append("false");
    }
    s
}

impl ClassPart {
    /// Sorts one expression of the class list.
    pub fn from_expr(expr: ClassExpr) -> (part: ClassPart)
        requires
            class_expr_readable(expr),
        ensures
            part_of_expr(expr, part),
    {
        match expr {
            ClassExpr::Str(s) => ClassPart::Literal(s),
            ClassExpr::Bool(b) => ClassPart::Literal(bool_to_string(b)),
            ClassExpr::Int(digits) => {
                let v = parse_u64(digits.as_str());
                match v {
                    Some(n) => ClassPart::Literal(u64_to_decimal(n)),
                    None => {
                        // unreachable: the precondition says the digits are readable
                        ClassPart::Literal(String::new())
                    },
                }
            },
            ClassExpr::If(i) => ClassPart::Conditional(i),
            ClassExpr::Other(x) => ClassPart::Expression(x),
        }
    }

    /// The statement of the generated block that pushes this part.
    pub fn into_stmt(self) -> (st: ClassStmt)
        ensures
            stmt_of_part(self, st),
    {
        match self {
            ClassPart::Literal(s) => {
                if s.as_str().is_empty() {
                    ClassStmt::Nothing
                } else {
                    ClassStmt::PushLiteral(s)
                }
            },
            ClassPart::Conditional(i) => {
                let ClassIf { cond, then_stmts, else_branch } = i;
                let then_pushes = branch_pushes(then_stmts);
                let else_clause = match else_branch {
                    ElseBranch::Absent => ElseClause::Absent,
                    ElseBranch::Block(stmts) => ElseClause::Block(branch_pushes(stmts)),
                    ElseBranch::Lit(l) => ElseClause::Lit(l),
                    ElseBranch::Other => ElseClause::Absent,
                };
                ClassStmt::PushIf { cond, then_pushes, else_clause }
            },
            ClassPart::Expression(x) => ClassStmt::PushIfNonEmpty(x),
        }
    }
}

impl ClassListInput {
    /// Sorts the comma-separated expressions of a `classes!` invocation, in
    /// order.
    pub fn parse(exprs: Vec<ClassExpr>) -> (input: ClassListInput)
        requires
            forall|i: int| 0 <= i < exprs@.len() ==> #[trigger] class_expr_readable(exprs@[i]),
        ensures
            input.0@.len() == exprs@.len(),
            forall|i: int| 0 <= i < exprs@.len() ==> #[trigger] part_of_expr(exprs@[i], input.0@[i]),
    {
        let ghost orig = exprs@;
        let mut exprs = exprs;
        let mut parts: Vec<ClassPart> = Vec::new();
        let n = exprs.len();
        let mut i: usize = 0;
        while i < n
            invariant
                n == orig.len(),
                i <= n,
                exprs@ == orig.skip(i as int),
                parts@.len() == i,
                forall|j: int| 0 <= j < orig.len() ==> #[trigger] class_expr_readable(orig[j]),
                forall|j: int| 0 <= j < i ==> #[trigger] part_of_expr(orig[j], parts@[j]),
            decreases n - i,
        {
            let e = exprs.remove(0);
            assert(e == orig[i as int]);
            assert(exprs@ =~= orig.skip(i + 1));
            let part = ClassPart::from_expr(e);
            parts.push(part);
            i = i + 1;
        }
        ClassListInput(parts)
    }

    /// The block that the invocation expands to: one statement per part, in
    /// order.
    pub fn into_token_stream(self) -> (block: ClassBlock)
        ensures
            block.stmts@.len() == self.0@.len(),
            forall|i: int| 0 <= i < self.0@.len() ==> #[trigger] stmt_of_part(self.0@[i], block.stmts@[i]),
    {
        let ghost orig = self.0@;
        let mut parts = self.0;
        let mut stmts: Vec<ClassStmt> = Vec::new();
        let n = parts.len();
        let mut i: usize = 0;
        while i < n
            invariant
                n == orig.len(),
                i <= n,
                parts@ == orig.skip(i as int),
                stmts@.len() == i,
                forall|j: int| 0 <= j < i ==> #[trigger] stmt_of_part(orig[j], stmts@[j]),
            decreases n - i,
        {
            let part = parts.remove(0);
            assert(part == orig[i as int]);
            assert(parts@ =~= orig.skip(i + 1));
            stmts.push(part.into_stmt());
            i = i + 1;
        }
        ClassBlock { stmts }
    }
}

// What the generated block computes.
//
// The block is run with the values its expressions take at run time: for
// each condition whether it holds (`cond`), for each pushed expression the
// text it denotes (`text`), and for each pushed literal its text (`lit`).

/// Whether `c` is white space, as `char::is_whitespace` defines it (the
/// Unicode `White_Space` property).
pub open spec fn is_white_space(c: char) -> bool {
    ('\u{9}' <= c && c <= '\u{d}') || c == ' ' || c == '\u{85}' || c == '\u{a0}' || c
        == '\u{1680}' || ('\u{2000}' <= c && c <= '\u{200a}') || c == '\u{2028}' || c
        == '\u{2029}' || c == '\u{202f}' || c == '\u{205f}' || c == '\u{3000}'
}

/// `s` without its trailing white space, as `str::trim_end` gives it.
pub open spec fn trim_end(s: Seq<char>) -> Seq<char>
    decreases s.len(),
{
    if s.len() > 0 && is_white_space(s.last()) {
        trim_end(s.drop_last())
    } else {
        s
    }
}

/// The text that pushing each word, then a space, builds.
pub open spec fn pushes(words: Seq<Seq<char>>) -> Seq<char>
    decreases words.len(),
{
    if words.len() == 0 {
        Seq::empty()
    } else {
        pushes(words.drop_last()) + words.last() + seq![' ']
    }
}

/// The words joined by single spaces.
pub open spec fn join_words(words: Seq<Seq<char>>) -> Seq<char>
    decreases words.len(),
{
    if words.len() == 0 {
        Seq::empty()
    } else if words.len() == 1 {
        words[0]
    } else {
        join_words(words.drop_last()) + seq![' '] + words.last()
    }
}

/// The words that a generated statement pushes, in order.
pub open spec fn stmt_words(
    st: ClassStmt,
    cond: spec_fn(syn::Expr) -> bool,
    text: spec_fn(syn::Expr) -> Seq<char>,
    lit: spec_fn(syn::ExprLit) -> Seq<char>,
) -> Seq<Seq<char>> {
    match st {
        ClassStmt::Nothing => Seq::empty(),
        ClassStmt::PushLiteral(s) => seq![s@],
        ClassStmt::PushIf { cond: c, then_pushes, else_clause } => if cond(c) {
            then_pushes@.map_values(text)
        } else {
            match else_clause {
                ElseClause::Absent => Seq::empty(),
                ElseClause::Block(es) => es@.map_values(text),
                ElseClause::Lit(l) => seq![lit(l)],
            }
        },
        ClassStmt::PushIfNonEmpty(e) => if text(e).len() > 0 {
            seq![text(e)]
        } else {
            Seq::empty()
        },
    }
}

/// The words that the statements push, in order.
pub open spec fn block_words(
    stmts: Seq<ClassStmt>,
    cond: spec_fn(syn::Expr) -> bool,
    text: spec_fn(syn::Expr) -> Seq<char>,
    lit: spec_fn(syn::ExprLit) -> Seq<char>,
) -> Seq<Seq<char>>
    decreases stmts.len(),
{
    if stmts.len() == 0 {
        Seq::empty()
    } else {
        block_words(stmts.drop_last(), cond, text, lit) + stmt_words(stmts.last(), cond, text, lit)
    }
}

/// The string the generated block evaluates to.
pub open spec fn block_output(
    block: ClassBlock,
    cond: spec_fn(syn::Expr) -> bool,
    text: spec_fn(syn::Expr) -> Seq<char>,
    lit: spec_fn(syn::ExprLit) -> Seq<char>,
) -> Seq<char> {
    trim_end(pushes(block_words(block.stmts@, cond, text, lit)))
}

/// The class names that a part of the list contributes: a non-empty
/// literal, the expressions of the branch an `if` takes, a non-empty
/// expression.
pub open spec fn part_words(
    p: ClassPart,
    cond: spec_fn(syn::Expr) -> bool,
    text: spec_fn(syn::Expr) -> Seq<char>,
    lit: spec_fn(syn::ExprLit) -> Seq<char>,
) -> Seq<Seq<char>> {
    match p {
        ClassPart::Literal(s) => if s@.len() > 0 {
            seq![s@]
        } else {
            Seq::empty()
        },
        ClassPart::Conditional(i) => if cond(i.cond) {
            branch_exprs(i.then_stmts@).map_values(text)
        } else {
            match i.else_branch {
                ElseBranch::Block(stmts) => branch_exprs(stmts@).map_values(text),
                ElseBranch::Lit(l) => seq![lit(l)],
                _ => Seq::empty(),
            }
        },
        ClassPart::Expression(e) => if text(e).len() > 0 {
            seq![text(e)]
        } else {
            Seq::empty()
        },
    }
}

/// The class names that the parts contribute, in order.
pub open spec fn list_words(
    parts: Seq<ClassPart>,
    cond: spec_fn(syn::Expr) -> bool,
    text: spec_fn(syn::Expr) -> Seq<char>,
    lit: spec_fn(syn::ExprLit) -> Seq<char>,
) -> Seq<Seq<char>>
    decreases parts.len(),
{
    if parts.len() == 0 {
        Seq::empty()
    } else {
        list_words(parts.drop_last(), cond, text, lit) + part_words(parts.last(), cond, text, lit)
    }
}

/// Whether `s` ends in white space.
pub open spec fn ends_in_white_space(s: Seq<char>) -> bool {
    s.len() > 0 && is_white_space(s.last())
}

proof fn lemma_pushes_join(words: Seq<Seq<char>>)
    requires
        words.len() > 0,
    ensures
        pushes(words) == join_words(words) + seq![' '],
    decreases words.len(),
{
    if words.len() == 1 {
        assert(words.drop_last() =~= Seq::<Seq<char>>::empty());
        assert(pushes(words.drop_last()) =~= Seq::<char>::empty());
        assert(pushes(words) =~= words[0] + seq![' ']);
    } else {
        lemma_pushes_join(words.drop_last());
        assert(pushes(words) =~= join_words(words) + seq![' ']);
    }
}

/// The statement generated for a part pushes exactly the part's words.
proof fn lemma_stmt_words(
    p: ClassPart,
    st: ClassStmt,
    cond: spec_fn(syn::Expr) -> bool,
    text: spec_fn(syn::Expr) -> Seq<char>,
    lit: spec_fn(syn::ExprLit) -> Seq<char>,
)
    requires
        stmt_of_part(p, st),
    ensures
        stmt_words(st, cond, text, lit) == part_words(p, cond, text, lit),
{
}

proof fn lemma_block_words(
    parts: Seq<ClassPart>,
    stmts: Seq<ClassStmt>,
    cond: spec_fn(syn::Expr) -> bool,
    text: spec_fn(syn::Expr) -> Seq<char>,
    lit: spec_fn(syn::ExprLit) -> Seq<char>,
)
    requires
        stmts.len() == parts.len(),
        forall|i: int| 0 <= i < parts.len() ==> #[trigger] stmt_of_part(parts[i], stmts[i]),
    ensures
        block_words(stmts, cond, text, lit) == list_words(parts, cond, text, lit),
    decreases parts.len(),
{
    if parts.len() > 0 {
        let n = parts.len() - 1;
        assert(stmt_of_part(parts[n], stmts[n]));
        lemma_stmt_words(parts.last(), stmts.last(), cond, text, lit);
        lemma_block_words(parts.drop_last(), stmts.drop_last(), cond, text, lit);
    }
}

/// The block that `classes!` generates evaluates to the class names of its
/// list joined by single spaces: each part in order contributes a
/// non-empty literal, the expressions of the branch its `if` takes, or a
/// non-empty expression. This holds whenever the joined names do not end in
/// white space, which the final `trim_end` of the generated code would cut
/// off.
pub proof fn law_class_string(
    input: ClassListInput,
    block: ClassBlock,
    cond: spec_fn(syn::Expr) -> bool,
    text: spec_fn(syn::Expr) -> Seq<char>,
    lit: spec_fn(syn::ExprLit) -> Seq<char>,
)
    requires
        block.stmts@.len() == input.0@.len(),
        forall|i: int|
            0 <= i < input.0@.len() ==> #[trigger] stmt_of_part(input.0@[i], block.stmts@[i]),
        !ends_in_white_space(join_words(list_words(input.0@, cond, text, lit))),
    ensures
        block_output(block, cond, text, lit) == join_words(list_words(input.0@, cond, text, lit)),
{
    let words = list_words(input.0@, cond, text, lit);
    lemma_block_words(input.0@, block.stmts@, cond, text, lit);
    if words.len() == 0 {
        assert(pushes(words) =~= Seq::<char>::empty());
    } else {
        lemma_pushes_join(words);
        let j = join_words(words);
        assert((j + seq![' ']).drop_last() =~= j);
        assert(trim_end(j + seq![' ']) == trim_end(j));
        assert(trim_end(j) == j);
    }
}

/// Whether `p` is an empty part at run time: an empty literal, or an
/// expression whose text is empty.
pub open spec fn empty_part(p: ClassPart, text: spec_fn(syn::Expr) -> Seq<char>) -> bool {
    ||| p matches ClassPart::Literal(s) && s@.len() == 0
    ||| p matches ClassPart::Expression(x) && text(x).len() == 0
}

proof fn lemma_insert_empty_part(
    parts: Seq<ClassPart>,
    k: int,
    e: ClassPart,
    cond: spec_fn(syn::Expr) -> bool,
    text: spec_fn(syn::Expr) -> Seq<char>,
    lit: spec_fn(syn::ExprLit) -> Seq<char>,
)
    requires
        0 <= k <= parts.len(),
        empty_part(e, text),
    ensures
        list_words(parts.insert(k, e), cond, text, lit) == list_words(parts, cond, text, lit),
    decreases parts.len(),
{
    let p2 = parts.insert(k, e);
    if k == parts.len() {
        assert(p2.drop_last() =~= parts);
        assert(p2.last() == e);
        assert(part_words(e, cond, text, lit) =~= Seq::<Seq<char>>::empty());
        assert(list_words(p2, cond, text, lit) =~= list_words(parts, cond, text, lit));
    } else {
        lemma_insert_empty_part(parts.drop_last(), k, e, cond, text, lit);
        assert(p2.drop_last() =~= parts.drop_last().insert(k, e));
        assert(p2.last() == parts.last());
    }
}

/// A part that is empty at run time (an empty literal, or an expression
/// whose text is empty) leaves the class string unchanged, wherever it
/// stands in the list: `classes!("a", "", "b")` builds what `classes!("a",
/// "b")` builds.
pub proof fn law_empty_part_changes_nothing(
    input: ClassListInput,
    k: int,
    e: ClassPart,
    with_part: ClassListInput,
    block: ClassBlock,
    block_with_part: ClassBlock,
    cond: spec_fn(syn::Expr) -> bool,
    text: spec_fn(syn::Expr) -> Seq<char>,
    lit: spec_fn(syn::ExprLit) -> Seq<char>,
)
    requires
        0 <= k <= input.0@.len(),
        empty_part(e, text),
        with_part.0@ == input.0@.insert(k, e),
        block.stmts@.len() == input.0@.len(),
        forall|i: int|
            0 <= i < input.0@.len() ==> #[trigger] stmt_of_part(input.0@[i], block.stmts@[i]),
        block_with_part.stmts@.len() == with_part.0@.len(),
        forall|i: int|
            0 <= i < with_part.0@.len() ==> #[trigger] stmt_of_part(
                with_part.0@[i],
                block_with_part.stmts@[i],
            ),
    ensures
        block_output(block_with_part, cond, text, lit) == block_output(block, cond, text, lit),
{
    lemma_block_words(input.0@, block.stmts@, cond, text, lit);
    lemma_block_words(with_part.0@, block_with_part.stmts@, cond, text, lit);
    lemma_insert_empty_part(input.0@, k, e, cond, text, lit);
}

/// How many of the statements are expression statements.
pub open spec fn expr_stmt_count(stmts: Seq<BranchStmt>) -> nat
    decreases stmts.len(),
{
    if stmts.len() == 0 {
        0
    } else {
        expr_stmt_count(stmts.drop_last()) + (if stmts.last() is Expr {
            1nat
        } else {
            0nat
        })
    }
}

/// A branch pushes all of its expression statements and nothing else, in
/// order: as many expressions as there are expression statements, the
/// expression of the `j`-th statement standing at the position given by the
/// number of expression statements before it.
pub proof fn law_branch_pushes_every_expression(stmts: Seq<BranchStmt>)
    ensures
        branch_exprs(stmts).len() == expr_stmt_count(stmts),
        forall|j: int|
            0 <= j < stmts.len() ==> (#[trigger] stmts[j] matches BranchStmt::Expr(e) ==> {
                &&& expr_stmt_count(stmts.take(j)) < branch_exprs(stmts).len()
                &&& branch_exprs(stmts)[expr_stmt_count(stmts.take(j)) as int] == e
            }),
    decreases stmts.len(),
{
    if stmts.len() > 0 {
        let init = stmts.drop_last();
        law_branch_pushes_every_expression(init);
        let n = stmts.len() - 1;
        assert(stmts.take(n) =~= init);
        assert forall|j: int|
            0 <= j < stmts.len() && (#[trigger] stmts[j] matches BranchStmt::Expr(e)) implies {
            let e = stmts[j]->Expr_0;
            &&& expr_stmt_count(stmts.take(j)) < branch_exprs(stmts).len()
            &&& branch_exprs(stmts)[expr_stmt_count(stmts.take(j)) as int] == e
        } by {
            if j < n {
                assert(init.take(j) =~= stmts.take(j));
                assert(init[j] == stmts[j]);
            }
        }
    }
}

} // verus!
