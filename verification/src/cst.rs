//! The tight tree the desugarer emits, together with its mathematical model.
//!
//! Only primitive constructs remain here: application is strictly binary,
//! lambdas take exactly one parameter, and no `Form` variant exists at all,
//! so a successful walk cannot leave a juxtaposition behind.

use vstd::prelude::*;

use crate::ast::{ASTPattern, AstPatV, Data};
use crate::span::Spanned;

verus! {

/// A binding pattern the concrete tree can represent: a strict subset of
/// `ASTPattern`, with no `Chain`.
#[derive(Debug)]
pub enum CSTPattern {
    Symbol(String),
    Data(Data),
    Label(String, Box<Spanned<CSTPattern>>),
}

/// The tight tree the desugarer emits.
#[derive(Debug)]
pub enum CST {
    Symbol(String),
    Data(Data),
    Block(Vec<Spanned<CST>>),
    Call { function: Box<Spanned<CST>>, argument: Box<Spanned<CST>> },
    Assign { pattern: Box<Spanned<CSTPattern>>, expression: Box<Spanned<CST>> },
    Lambda { pattern: Box<Spanned<CSTPattern>>, expression: Box<Spanned<CST>> },
    Print(Box<Spanned<CST>>),
    Label(String, Box<Spanned<CST>>),
}

/// Ghost model of a concrete binding pattern.
pub enum CstPatV {
    Symbol(Seq<char>),
    Data(Data),
    Label(Seq<char>, Box<Spanned<CstPatV>>),
}

/// Ghost model of the tight tree.
pub enum CstV {
    Symbol(Seq<char>),
    Data(Data),
    Block(Seq<Spanned<CstV>>),
    Call { function: Box<Spanned<CstV>>, argument: Box<Spanned<CstV>> },
    Assign { pattern: Box<Spanned<CstPatV>>, expression: Box<Spanned<CstV>> },
    Lambda { pattern: Box<Spanned<CstPatV>>, expression: Box<Spanned<CstV>> },
    Print(Box<Spanned<CstV>>),
    Label(Seq<char>, Box<Spanned<CstV>>),
}

/// The model of a concrete binding pattern, without its span.
pub open spec fn cst_pat_item_view(p: CSTPattern) -> CstPatV
    decreases p,
{
    match p {
        CSTPattern::Symbol(n) => CstPatV::Symbol(n@),
        CSTPattern::Data(d) => CstPatV::Data(d),
        CSTPattern::Label(n, inner) => CstPatV::Label(n@, Box::new(cst_pat_view(*inner))),
    }
}

/// The model of a concrete binding pattern.
pub open spec fn cst_pat_view(p: Spanned<CSTPattern>) -> Spanned<CstPatV>
    decreases p,
{
    Spanned { item: cst_pat_item_view(p.item), span: p.span }
}

/// The model of a tight tree, without its span.
pub open spec fn cst_item_view(c: CST) -> CstV
    decreases c,
{
    match c {
        CST::Symbol(n) => CstV::Symbol(n@),
        CST::Data(d) => CstV::Data(d),
        CST::Block(b) => CstV::Block(cst_seq_view(b@)),
        CST::Call { function, argument } => CstV::Call {
            function: Box::new(cst_view(*function)),
            argument: Box::new(cst_view(*argument)),
        },
        CST::Assign { pattern, expression } => CstV::Assign {
            pattern: Box::new(cst_pat_view(*pattern)),
            expression: Box::new(cst_view(*expression)),
        },
        CST::Lambda { pattern, expression } => CstV::Lambda {
            pattern: Box::new(cst_pat_view(*pattern)),
            expression: Box::new(cst_view(*expression)),
        },
        CST::Print(e) => CstV::Print(Box::new(cst_view(*e))),
        CST::Label(n, e) => CstV::Label(n@, Box::new(cst_view(*e))),
    }
}

/// The model of a tight tree.
pub open spec fn cst_view(c: Spanned<CST>) -> Spanned<CstV>
    decreases c,
{
    Spanned { item: cst_item_view(c.item), span: c.span }
}

/// The models of a sequence of tight trees, in order.
pub open spec fn cst_seq_view(s: Seq<Spanned<CST>>) -> Seq<Spanned<CstV>>
    decreases s,
{
    if s.len() == 0 {
        Seq::empty()
    } else {
        seq![cst_view(s[0])] + cst_seq_view(s.drop_first())
    }
}

pub broadcast proof fn lemma_cst_seq_view_len(s: Seq<Spanned<CST>>)
    ensures
        (#[trigger] cst_seq_view(s)).len() == s.len(),
    decreases s,
{
    if s.len() > 0 {
        lemma_cst_seq_view_len(s.drop_first());
    }
}

/// Sequence views distribute over `push`; the block walker fills its
/// output one element at a time.
pub broadcast proof fn lemma_cst_seq_view_push(s: Seq<Spanned<CST>>, x: Spanned<CST>)
    ensures
        #[trigger] cst_seq_view(s.push(x)) == cst_seq_view(s).push(cst_view(x)),
    decreases s,
{
    if s.len() == 0 {
        assert(s.push(x).drop_first() =~= Seq::empty());
        assert(s.push(x)[0] == x);
        assert(s.push(x).len() == 1);
        assert(cst_seq_view(s.push(x)) == seq![cst_view(s.push(x)[0])] + cst_seq_view(
            s.push(x).drop_first(),
        ));
        assert(cst_seq_view(s.push(x)) =~= cst_seq_view(s).push(cst_view(x)));
    } else {
        lemma_cst_seq_view_push(s.drop_first(), x);
        assert(s.push(x).drop_first() =~= s.drop_first().push(x));
        assert(cst_seq_view(s.push(x)) =~= cst_seq_view(s).push(cst_view(x)));
    }
}

impl CST {
    /// A binary application of `function` to `argument`.
    pub fn call(function: Spanned<CST>, argument: Spanned<CST>) -> (r: CST)
        ensures
            cst_item_view(r) == (CstV::Call {
                function: Box::new(cst_view(function)),
                argument: Box::new(cst_view(argument)),
            }),
    {
        CST::Call { function: Box::new(function), argument: Box::new(argument) }
    }

    /// A single-parameter lambda.
    pub fn lambda(pattern: Spanned<CSTPattern>, expression: Spanned<CST>) -> (r: CST)
        ensures
            cst_item_view(r) == (CstV::Lambda {
                pattern: Box::new(cst_pat_view(pattern)),
                expression: Box::new(cst_view(expression)),
            }),
    {
        CST::Lambda { pattern: Box::new(pattern), expression: Box::new(expression) }
    }

    /// A binding of `expression` to `pattern`.
    pub fn assign(pattern: Spanned<CSTPattern>, expression: Spanned<CST>) -> (r: CST)
        ensures
            cst_item_view(r) == (CstV::Assign {
                pattern: Box::new(cst_pat_view(pattern)),
                expression: Box::new(cst_view(expression)),
            }),
    {
        CST::Assign { pattern: Box::new(pattern), expression: Box::new(expression) }
    }
}


/// Lowering a loose binding pattern into a concrete one: `Chain` has no
/// concrete counterpart, so any pattern holding one is refused.
pub open spec fn lower_pat_v(p: Spanned<AstPatV>) -> Option<Spanned<CstPatV>>
    decreases p,
{
    match p.item {
        AstPatV::Symbol(n) => Some(Spanned { item: CstPatV::Symbol(n), span: p.span }),
        AstPatV::Data(d) => Some(Spanned { item: CstPatV::Data(d), span: p.span }),
        AstPatV::Label(n, inner) => match lower_pat_v(*inner) {
            None => None,
            Some(ci) => Some(
                Spanned { item: CstPatV::Label(n, Box::new(ci)), span: p.span },
            ),
        },
        AstPatV::Chain(_) => None,
    }
}

/// Lowers a loose binding pattern into a concrete one, refusing any
/// pattern that holds a `Chain`.
pub fn lower_pattern(p: &Spanned<ASTPattern>) -> (r: Option<Spanned<CSTPattern>>)
    ensures
        match lower_pat_v(crate::ast::pat_view(*p)) {
            None => r is None,
            Some(cv) => r matches Some(c) && cst_pat_view(c) == cv,
        },
    decreases *p,
{
    match &p.item {
        ASTPattern::Symbol(n) => Some(
            Spanned { item: CSTPattern::Symbol(n.clone()), span: p.span },
        ),
        ASTPattern::Data(d) => Some(Spanned { item: CSTPattern::Data(*d), span: p.span }),
        ASTPattern::Label(n, inner) => match lower_pattern(inner) {
            None => None,
            Some(ci) => Some(
                Spanned { item: CSTPattern::Label(n.clone(), Box::new(ci)), span: p.span },
            ),
        },
        ASTPattern::Chain(_) => None,
    }
}

} // verus!

