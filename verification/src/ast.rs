//! The loose tree the parser produces, together with its mathematical model.
//!
//! The executable types (`AST`, `ASTPattern`, `ArgPat`, `Data`) carry `String`
//! names and `Vec` children.  Every contract in this crate speaks about their
//! ghost counterparts (`AstV`, `AstPatV`, `ArgPatV`), reached through the view
//! functions below; names become `Seq<char>` and children become `Seq`s.

use vstd::prelude::*;

use crate::span::Spanned;

verus! {

/// An opaque literal value; the desugarer passes it through unchanged.
#[derive(Clone, Copy, PartialEq, Eq, Structural, Debug)]
pub enum Data {
    Unit,
    Boolean(bool),
    Integer(i64),
}

/// A binding pattern as the parser wrote it.
///
/// `Chain` is surface sugar for the argument list of a multi-argument
/// lambda; the concrete tree cannot represent it, so pattern lowering
/// refuses it anywhere else.
#[derive(Debug)]
pub enum ASTPattern {
    Symbol(String),
    Data(Data),
    Label(String, Box<Spanned<ASTPattern>>),
    Chain(Vec<Spanned<ASTPattern>>),
}

/// The signature of a macro rule.
///
/// A `Keyword` is matched literally against a symbol of the invocation;
/// a `Symbol` binds whatever tree stands at its position; a `Group`
/// matches its members in order.
#[derive(Debug)]
pub enum ArgPat {
    Keyword(String),
    Symbol(String),
    Group(Vec<Spanned<ArgPat>>),
}

/// The loose tree the parser produces.
#[derive(Debug)]
pub enum AST {
    Symbol(String),
    Data(Data),
    Block(Vec<Spanned<AST>>),
    Form(Vec<Spanned<AST>>),
    Composition { argument: Box<Spanned<AST>>, function: Box<Spanned<AST>> },
    Pattern(ASTPattern),
    ArgPat(ArgPat),
    Syntax { arg_pat: Box<Spanned<ArgPat>>, expression: Box<Spanned<AST>> },
    Assign { pattern: Box<Spanned<ASTPattern>>, expression: Box<Spanned<AST>> },
    Lambda { pattern: Box<Spanned<ASTPattern>>, expression: Box<Spanned<AST>> },
    Print(Box<Spanned<AST>>),
    Label(String, Box<Spanned<AST>>),
}

/// Ghost model of a binding pattern.
pub enum AstPatV {
    Symbol(Seq<char>),
    Data(Data),
    Label(Seq<char>, Box<Spanned<AstPatV>>),
    Chain(Seq<Spanned<AstPatV>>),
}

/// Ghost model of a macro signature.
pub enum ArgPatV {
    Keyword(Seq<char>),
    Symbol(Seq<char>),
    Group(Seq<Spanned<ArgPatV>>),
}

/// Ghost model of the loose tree.
pub enum AstV {
    Symbol(Seq<char>),
    Data(Data),
    Block(Seq<Spanned<AstV>>),
    Form(Seq<Spanned<AstV>>),
    Composition { argument: Box<Spanned<AstV>>, function: Box<Spanned<AstV>> },
    Pattern(AstPatV),
    ArgPat(ArgPatV),
    Syntax { arg_pat: Box<Spanned<ArgPatV>>, expression: Box<Spanned<AstV>> },
    Assign { pattern: Box<Spanned<AstPatV>>, expression: Box<Spanned<AstV>> },
    Lambda { pattern: Box<Spanned<AstPatV>>, expression: Box<Spanned<AstV>> },
    Print(Box<Spanned<AstV>>),
    Label(Seq<char>, Box<Spanned<AstV>>),
}

/// The model of a binding pattern, without its span.
pub open spec fn pat_item_view(p: ASTPattern) -> AstPatV
    decreases p,
{
    match p {
        ASTPattern::Symbol(n) => AstPatV::Symbol(n@),
        ASTPattern::Data(d) => AstPatV::Data(d),
        ASTPattern::Label(n, inner) => AstPatV::Label(n@, Box::new(pat_view(*inner))),
        ASTPattern::Chain(c) => AstPatV::Chain(pat_seq_view(c@)),
    }
}

/// The model of a binding pattern.
pub open spec fn pat_view(p: Spanned<ASTPattern>) -> Spanned<AstPatV>
    decreases p,
{
    Spanned { item: pat_item_view(p.item), span: p.span }
}

/// The models of a sequence of binding patterns, in order.
pub open spec fn pat_seq_view(s: Seq<Spanned<ASTPattern>>) -> Seq<Spanned<AstPatV>>
    decreases s,
{
    if s.len() == 0 {
        Seq::empty()
    } else {
        seq![pat_view(s[0])] + pat_seq_view(s.drop_first())
    }
}

/// The model of a macro signature, without its span.
pub open spec fn arg_pat_item_view(p: ArgPat) -> ArgPatV
    decreases p,
{
    match p {
        ArgPat::Keyword(n) => ArgPatV::Keyword(n@),
        ArgPat::Symbol(n) => ArgPatV::Symbol(n@),
        ArgPat::Group(g) => ArgPatV::Group(arg_pat_seq_view(g@)),
    }
}

/// The model of a macro signature.
pub open spec fn arg_pat_view(p: Spanned<ArgPat>) -> Spanned<ArgPatV>
    decreases p,
{
    Spanned { item: arg_pat_item_view(p.item), span: p.span }
}

/// The models of a sequence of macro signature members, in order.
pub open spec fn arg_pat_seq_view(s: Seq<Spanned<ArgPat>>) -> Seq<Spanned<ArgPatV>>
    decreases s,
{
    if s.len() == 0 {
        Seq::empty()
    } else {
        seq![arg_pat_view(s[0])] + arg_pat_seq_view(s.drop_first())
    }
}

/// The model of a loose tree, without its span.
pub open spec fn ast_item_view(a: AST) -> AstV
    decreases a,
{
    match a {
        AST::Symbol(n) => AstV::Symbol(n@),
        AST::Data(d) => AstV::Data(d),
        AST::Block(b) => AstV::Block(ast_seq_view(b@)),
        AST::Form(f) => AstV::Form(ast_seq_view(f@)),
        AST::Composition { argument, function } => AstV::Composition {
            argument: Box::new(ast_view(*argument)),
            function: Box::new(ast_view(*function)),
        },
        AST::Pattern(p) => AstV::Pattern(pat_item_view(p)),
        AST::ArgPat(p) => AstV::ArgPat(arg_pat_item_view(p)),
        AST::Syntax { arg_pat, expression } => AstV::Syntax {
            arg_pat: Box::new(arg_pat_view(*arg_pat)),
            expression: Box::new(ast_view(*expression)),
        },
        AST::Assign { pattern, expression } => AstV::Assign {
            pattern: Box::new(pat_view(*pattern)),
            expression: Box::new(ast_view(*expression)),
        },
        AST::Lambda { pattern, expression } => AstV::Lambda {
            pattern: Box::new(pat_view(*pattern)),
            expression: Box::new(ast_view(*expression)),
        },
        AST::Print(e) => AstV::Print(Box::new(ast_view(*e))),
        AST::Label(n, e) => AstV::Label(n@, Box::new(ast_view(*e))),
    }
}

/// The model of a loose tree.
pub open spec fn ast_view(a: Spanned<AST>) -> Spanned<AstV>
    decreases a,
{
    Spanned { item: ast_item_view(a.item), span: a.span }
}

/// The models of a sequence of loose trees, in order.
pub open spec fn ast_seq_view(s: Seq<Spanned<AST>>) -> Seq<Spanned<AstV>>
    decreases s,
{
    if s.len() == 0 {
        Seq::empty()
    } else {
        seq![ast_view(s[0])] + ast_seq_view(s.drop_first())
    }
}

pub broadcast proof fn lemma_ast_seq_view_len(s: Seq<Spanned<AST>>)
    ensures
        (#[trigger] ast_seq_view(s)).len() == s.len(),
    decreases s,
{
    if s.len() > 0 {
        lemma_ast_seq_view_len(s.drop_first());
    }
}

pub broadcast proof fn lemma_ast_seq_view_index(s: Seq<Spanned<AST>>, i: int)
    requires
        0 <= i < s.len(),
    ensures
        #[trigger] ast_seq_view(s)[i] == ast_view(s[i]),
    decreases s,
{
    lemma_ast_seq_view_len(s);
    if i > 0 {
        lemma_ast_seq_view_index(s.drop_first(), i - 1);
    }
}

pub broadcast proof fn lemma_pat_seq_view_len(s: Seq<Spanned<ASTPattern>>)
    ensures
        (#[trigger] pat_seq_view(s)).len() == s.len(),
    decreases s,
{
    if s.len() > 0 {
        lemma_pat_seq_view_len(s.drop_first());
    }
}

pub broadcast proof fn lemma_pat_seq_view_index(s: Seq<Spanned<ASTPattern>>, i: int)
    requires
        0 <= i < s.len(),
    ensures
        #[trigger] pat_seq_view(s)[i] == pat_view(s[i]),
    decreases s,
{
    lemma_pat_seq_view_len(s);
    if i > 0 {
        lemma_pat_seq_view_index(s.drop_first(), i - 1);
    }
}

pub broadcast proof fn lemma_arg_pat_seq_view_len(s: Seq<Spanned<ArgPat>>)
    ensures
        (#[trigger] arg_pat_seq_view(s)).len() == s.len(),
    decreases s,
{
    if s.len() > 0 {
        lemma_arg_pat_seq_view_len(s.drop_first());
    }
}

pub broadcast proof fn lemma_arg_pat_seq_view_index(s: Seq<Spanned<ArgPat>>, i: int)
    requires
        0 <= i < s.len(),
    ensures
        #[trigger] arg_pat_seq_view(s)[i] == arg_pat_view(s[i]),
    decreases s,
{
    lemma_arg_pat_seq_view_len(s);
    if i > 0 {
        lemma_arg_pat_seq_view_index(s.drop_first(), i - 1);
    }
}

/// How much tree stands below a node; the walker's termination measure.
/// Always at least one, so that removing a node from a sequence shrinks
/// the sequence's weight strictly.
pub open spec fn ast_height(a: Spanned<AstV>) -> nat
    decreases a,
{
    match a.item {
        AstV::Symbol(_) => 1,
        AstV::Data(_) => 1,
        AstV::Block(b) => 1 + ast_seq_height(b),
        AstV::Form(f) => 1 + ast_seq_height(f),
        AstV::Composition { argument, function } => 1 + ast_height(*argument) + ast_height(
            *function,
        ),
        AstV::Pattern(_) => 1,
        AstV::ArgPat(_) => 1,
        AstV::Syntax { .. } => 1,
        AstV::Assign { expression, .. } => 1 + ast_height(*expression),
        AstV::Lambda { expression, .. } => 1 + ast_height(*expression),
        AstV::Print(e) => 1 + ast_height(*e),
        AstV::Label(_, e) => 1 + ast_height(*e),
    }
}

/// The summed weight of a sequence of nodes.
pub open spec fn ast_seq_height(s: Seq<Spanned<AstV>>) -> nat
    decreases s,
{
    if s.len() == 0 {
        0
    } else {
        ast_height(s[0]) + ast_seq_height(s.drop_first())
    }
}

pub proof fn lemma_ast_height_pos(a: Spanned<AstV>)
    ensures
        ast_height(a) >= 1,
{
}

/// Each member of a sequence weighs no more than the whole sequence, and
/// strictly less as soon as another member stands beside it.
pub proof fn lemma_ast_seq_height_elem(s: Seq<Spanned<AstV>>, i: int)
    requires
        0 <= i < s.len(),
    ensures
        ast_height(s[i]) <= ast_seq_height(s),
        s.len() >= 2 ==> ast_height(s[i]) < ast_seq_height(s),
    decreases s,
{
    if i == 0 {
        if s.len() >= 2 {
            lemma_ast_seq_height_elem(s.drop_first(), 0);
            lemma_ast_height_pos(s.drop_first()[0]);
        }
    } else {
        lemma_ast_seq_height_elem(s.drop_first(), i - 1);
        lemma_ast_height_pos(s[0]);
    }
}

/// Dropping the last member lowers the weight by exactly that member's.
pub proof fn lemma_ast_seq_height_drop_last(s: Seq<Spanned<AstV>>)
    requires
        s.len() > 0,
    ensures
        ast_seq_height(s) == ast_seq_height(s.drop_last()) + ast_height(s.last()),
    decreases s,
{
    if s.len() == 1 {
        assert(s.drop_last() =~= Seq::empty());
        assert(s.drop_first() =~= Seq::empty());
        assert(s.last() == s[0]);
        assert(ast_seq_height(s) == ast_height(s[0]) + ast_seq_height(s.drop_first()));
    } else {
        lemma_ast_seq_height_drop_last(s.drop_first());
        assert(s.drop_first().drop_last() =~= s.drop_last().drop_first());
        assert(s.drop_first().last() == s.last());
        assert(s.drop_last()[0] == s[0]);
        assert(ast_seq_height(s.drop_last()) == ast_height(s.drop_last()[0]) + ast_seq_height(
            s.drop_last().drop_first(),
        ));
    }
}


/// Sequence views distribute over `push`.
pub broadcast proof fn lemma_ast_seq_view_push(s: Seq<Spanned<AST>>, x: Spanned<AST>)
    ensures
        #[trigger] ast_seq_view(s.push(x)) == ast_seq_view(s).push(ast_view(x)),
    decreases s,
{
    if s.len() == 0 {
        assert(s.push(x).drop_first() =~= Seq::empty());
        assert(s.push(x)[0] == x);
        assert(s.push(x).len() == 1);
        assert(ast_seq_view(s.push(x)) == seq![ast_view(s.push(x)[0])] + ast_seq_view(
            s.push(x).drop_first(),
        ));
        assert(ast_seq_view(s.push(x)) =~= ast_seq_view(s).push(ast_view(x)));
    } else {
        lemma_ast_seq_view_push(s.drop_first(), x);
        assert(s.push(x).drop_first() =~= s.drop_first().push(x));
        assert(ast_seq_view(s.push(x)) =~= ast_seq_view(s).push(ast_view(x)));
    }
}

pub broadcast proof fn lemma_pat_seq_view_push(s: Seq<Spanned<ASTPattern>>, x: Spanned<ASTPattern>)
    ensures
        #[trigger] pat_seq_view(s.push(x)) == pat_seq_view(s).push(pat_view(x)),
    decreases s,
{
    if s.len() == 0 {
        assert(s.push(x).drop_first() =~= Seq::empty());
        assert(s.push(x)[0] == x);
        assert(s.push(x).len() == 1);
        assert(pat_seq_view(s.push(x)) == seq![pat_view(s.push(x)[0])] + pat_seq_view(
            s.push(x).drop_first(),
        ));
        assert(pat_seq_view(s.push(x)) =~= pat_seq_view(s).push(pat_view(x)));
    } else {
        lemma_pat_seq_view_push(s.drop_first(), x);
        assert(s.push(x).drop_first() =~= s.drop_first().push(x));
        assert(pat_seq_view(s.push(x)) =~= pat_seq_view(s).push(pat_view(x)));
    }
}

pub broadcast proof fn lemma_arg_pat_seq_view_push(s: Seq<Spanned<ArgPat>>, x: Spanned<ArgPat>)
    ensures
        #[trigger] arg_pat_seq_view(s.push(x)) == arg_pat_seq_view(s).push(arg_pat_view(x)),
    decreases s,
{
    if s.len() == 0 {
        assert(s.push(x).drop_first() =~= Seq::empty());
        assert(s.push(x)[0] == x);
        assert(s.push(x).len() == 1);
        assert(arg_pat_seq_view(s.push(x)) == seq![arg_pat_view(s.push(x)[0])] + arg_pat_seq_view(
            s.push(x).drop_first(),
        ));
        assert(arg_pat_seq_view(s.push(x)) =~= arg_pat_seq_view(s).push(arg_pat_view(x)));
    } else {
        lemma_arg_pat_seq_view_push(s.drop_first(), x);
        assert(s.push(x).drop_first() =~= s.drop_first().push(x));
        assert(arg_pat_seq_view(s.push(x)) =~= arg_pat_seq_view(s).push(arg_pat_view(x)));
    }
}

/// A structurally fresh copy of a binding pattern, without its span.
pub fn dup_pat_item(p: &ASTPattern) -> (r: ASTPattern)
    ensures
        pat_item_view(r) == pat_item_view(*p),
    decreases *p,
{
    match p {
        ASTPattern::Symbol(n) => ASTPattern::Symbol(n.clone()),
        ASTPattern::Data(d) => ASTPattern::Data(*d),
        ASTPattern::Label(n, inner) => ASTPattern::Label(
            n.clone(),
            Box::new(dup_spanned_pat(inner)),
        ),
        ASTPattern::Chain(c) => ASTPattern::Chain(dup_pat_vec(c)),
    }
}

/// A structurally fresh copy of a binding pattern.
pub fn dup_spanned_pat(p: &Spanned<ASTPattern>) -> (r: Spanned<ASTPattern>)
    ensures
        pat_view(r) == pat_view(*p),
    decreases *p,
{
    Spanned { item: dup_pat_item(&p.item), span: p.span }
}

/// Structurally fresh copies of a sequence of binding patterns.
pub fn dup_pat_vec(v: &Vec<Spanned<ASTPattern>>) -> (r: Vec<Spanned<ASTPattern>>)
    ensures
        pat_seq_view(r@) == pat_seq_view(v@),
    decreases v@,
{
    let mut r: Vec<Spanned<ASTPattern>> = Vec::new();
    let mut i: usize = 0;
    while i < v.len()
        invariant
            i <= v@.len(),
            pat_seq_view(r@) == pat_seq_view(v@.take(i as int)),
        decreases v@.len() - i,
    {
        proof {
            assert(decreases_to!(v@ => v@[i as int]));
        }
        let d = dup_spanned_pat(&v[i]);
        proof {
            lemma_pat_seq_view_push(v@.take(i as int), v@[i as int]);
            assert(v@.take(i as int).push(v@[i as int]) =~= v@.take(i + 1));
            lemma_pat_seq_view_push(r@, d);
        }
        r.push(d);
        i = i + 1;
    }
    proof {
        assert(v@.take(v@.len() as int) =~= v@);
    }
    r
}

/// A structurally fresh copy of a macro signature, without its span.
pub fn dup_arg_pat_item(p: &ArgPat) -> (r: ArgPat)
    ensures
        arg_pat_item_view(r) == arg_pat_item_view(*p),
    decreases *p,
{
    match p {
        ArgPat::Keyword(n) => ArgPat::Keyword(n.clone()),
        ArgPat::Symbol(n) => ArgPat::Symbol(n.clone()),
        ArgPat::Group(g) => ArgPat::Group(dup_arg_pat_vec(g)),
    }
}

/// A structurally fresh copy of a macro signature.
pub fn dup_spanned_arg_pat(p: &Spanned<ArgPat>) -> (r: Spanned<ArgPat>)
    ensures
        arg_pat_view(r) == arg_pat_view(*p),
    decreases *p,
{
    Spanned { item: dup_arg_pat_item(&p.item), span: p.span }
}

/// Structurally fresh copies of a sequence of macro signature members.
pub fn dup_arg_pat_vec(v: &Vec<Spanned<ArgPat>>) -> (r: Vec<Spanned<ArgPat>>)
    ensures
        arg_pat_seq_view(r@) == arg_pat_seq_view(v@),
    decreases v@,
{
    let mut r: Vec<Spanned<ArgPat>> = Vec::new();
    let mut i: usize = 0;
    while i < v.len()
        invariant
            i <= v@.len(),
            arg_pat_seq_view(r@) == arg_pat_seq_view(v@.take(i as int)),
        decreases v@.len() - i,
    {
        proof {
            assert(decreases_to!(v@ => v@[i as int]));
        }
        let d = dup_spanned_arg_pat(&v[i]);
        proof {
            lemma_arg_pat_seq_view_push(v@.take(i as int), v@[i as int]);
            assert(v@.take(i as int).push(v@[i as int]) =~= v@.take(i + 1));
            lemma_arg_pat_seq_view_push(r@, d);
        }
        r.push(d);
        i = i + 1;
    }
    proof {
        assert(v@.take(v@.len() as int) =~= v@);
    }
    r
}

/// A structurally fresh copy of a loose tree, without its span.
pub fn dup_ast_item(a: &AST) -> (r: AST)
    ensures
        ast_item_view(r) == ast_item_view(*a),
    decreases *a,
{
    match a {
        AST::Symbol(n) => AST::Symbol(n.clone()),
        AST::Data(d) => AST::Data(*d),
        AST::Block(b) => AST::Block(dup_ast_vec(b)),
        AST::Form(f) => AST::Form(dup_ast_vec(f)),
        AST::Composition { argument, function } => AST::Composition {
            argument: Box::new(dup_spanned_ast(argument)),
            function: Box::new(dup_spanned_ast(function)),
        },
        AST::Pattern(p) => AST::Pattern(dup_pat_item(p)),
        AST::ArgPat(p) => AST::ArgPat(dup_arg_pat_item(p)),
        AST::Syntax { arg_pat, expression } => AST::Syntax {
            arg_pat: Box::new(dup_spanned_arg_pat(arg_pat)),
            expression: Box::new(dup_spanned_ast(expression)),
        },
        AST::Assign { pattern, expression } => AST::Assign {
            pattern: Box::new(dup_spanned_pat(pattern)),
            expression: Box::new(dup_spanned_ast(expression)),
        },
        AST::Lambda { pattern, expression } => AST::Lambda {
            pattern: Box::new(dup_spanned_pat(pattern)),
            expression: Box::new(dup_spanned_ast(expression)),
        },
        AST::Print(e) => AST::Print(Box::new(dup_spanned_ast(e))),
        AST::Label(n, e) => AST::Label(n.clone(), Box::new(dup_spanned_ast(e))),
    }
}

/// A structurally fresh copy of a loose tree.
pub fn dup_spanned_ast(a: &Spanned<AST>) -> (r: Spanned<AST>)
    ensures
        ast_view(r) == ast_view(*a),
    decreases *a,
{
    Spanned { item: dup_ast_item(&a.item), span: a.span }
}

/// Structurally fresh copies of a sequence of loose trees.
pub fn dup_ast_vec(v: &Vec<Spanned<AST>>) -> (r: Vec<Spanned<AST>>)
    ensures
        ast_seq_view(r@) == ast_seq_view(v@),
    decreases v@,
{
    let mut r: Vec<Spanned<AST>> = Vec::new();
    let mut i: usize = 0;
    while i < v.len()
        invariant
            i <= v@.len(),
            ast_seq_view(r@) == ast_seq_view(v@.take(i as int)),
        decreases v@.len() - i,
    {
        proof {
            assert(decreases_to!(v@ => v@[i as int]));
        }
        let d = dup_spanned_ast(&v[i]);
        proof {
            lemma_ast_seq_view_push(v@.take(i as int), v@[i as int]);
            assert(v@.take(i as int).push(v@[i as int]) =~= v@.take(i + 1));
            lemma_ast_seq_view_push(r@, d);
        }
        r.push(d);
        i = i + 1;
    }
    proof {
        assert(v@.take(v@.len() as int) =~= v@);
    }
    r
}

} // verus!

