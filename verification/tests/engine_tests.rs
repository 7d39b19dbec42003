use desugar::ast::{ArgPat, ASTPattern, Data, AST};
use desugar::cst::{lower_pattern, CSTPattern};
use desugar::rule::Rule;
use desugar::transform::Transformer;
use desugar::span::{Span, Spanned};
use desugar::syntax::Reason;

fn sp(start: usize, end: usize) -> Span {
    Span::new(start, end)
}

#[test]
fn combine_covers_both_spans() {
    let a = sp(3, 7);
    let b = sp(5, 12);
    assert_eq!(Span::combine(&a, &b), sp(3, 12));
    assert_eq!(Span::combine(&b, &a), sp(3, 12));
}

#[test]
fn join_covers_every_span() {
    let spans = vec![sp(4, 6), sp(0, 2), sp(9, 11)];
    assert_eq!(Span::join(&spans), sp(0, 11));
    assert_eq!(Span::join(&vec![sp(5, 8)]), sp(5, 8));
}

#[test]
fn lowering_keeps_symbols_data_and_labels() {
    let p = Spanned::new(
        ASTPattern::Label(
            "Tag".to_string(),
            Box::new(Spanned::new(ASTPattern::Data(Data::Integer(3)), sp(4, 5))),
        ),
        sp(0, 5),
    );
    let c = lower_pattern(&p).expect("labels lower");
    match c.item {
        CSTPattern::Label(n, inner) => {
            assert_eq!(n, "Tag");
            assert!(matches!(inner.item, CSTPattern::Data(Data::Integer(3))));
        }
        other => panic!("expected a label pattern, got {:?}", other),
    }
    assert_eq!(c.span, sp(0, 5));
}

#[test]
fn lowering_refuses_chains_anywhere() {
    let chain = Spanned::new(
        ASTPattern::Chain(vec![Spanned::new(
            ASTPattern::Symbol("x".to_string()),
            sp(1, 2),
        )]),
        sp(0, 3),
    );
    assert!(lower_pattern(&chain).is_none());
    let nested = Spanned::new(
        ASTPattern::Label(
            "Tag".to_string(),
            Box::new(Spanned::new(
                ASTPattern::Chain(vec![Spanned::new(
                    ASTPattern::Symbol("x".to_string()),
                    sp(6, 7),
                )]),
                sp(5, 8),
            )),
        ),
        sp(0, 8),
    );
    assert!(lower_pattern(&nested).is_none());
}

fn sig_if_then(span: Span) -> Spanned<ArgPat> {
    Spanned::new(
        ArgPat::Group(vec![
            Spanned::new(ArgPat::Keyword("if".to_string()), sp(0, 2)),
            Spanned::new(ArgPat::Symbol("cond".to_string()), sp(3, 7)),
            Spanned::new(ArgPat::Keyword("then".to_string()), sp(8, 12)),
            Spanned::new(ArgPat::Symbol("body".to_string()), sp(13, 17)),
        ]),
        span,
    )
}

fn symbol(name: &str, span: Span) -> Spanned<AST> {
    Spanned::new(AST::Symbol(name.to_string()), span)
}

#[test]
fn keywords_are_gathered_in_order() {
    let sig = sig_if_then(sp(0, 17));
    let kws = Rule::keywords(&sig);
    assert_eq!(kws, vec!["if".to_string(), "then".to_string()]);
}

#[test]
fn rule_new_refuses_duplicate_binders() {
    let sig = Spanned::new(
        ArgPat::Group(vec![
            Spanned::new(ArgPat::Keyword("k".to_string()), sp(0, 1)),
            Spanned::new(ArgPat::Symbol("v".to_string()), sp(2, 3)),
            Spanned::new(ArgPat::Symbol("v".to_string()), sp(4, 5)),
        ]),
        sp(0, 5),
    );
    let err = Rule::new(sig, symbol("v", sp(7, 8))).expect_err("duplicate binder");
    assert!(matches!(err.reason, Reason::DuplicateBinder(n) if n == "v"));
}

#[test]
fn rule_new_refuses_keywordless_signatures() {
    let sig = Spanned::new(
        ArgPat::Group(vec![Spanned::new(
            ArgPat::Symbol("v".to_string()),
            sp(1, 2),
        )]),
        sp(0, 3),
    );
    let err = Rule::new(sig, symbol("v", sp(5, 6))).expect_err("no keyword");
    assert!(matches!(err.reason, Reason::KeywordlessMacro));
}

#[test]
fn bind_consumes_matched_tokens_in_source_order() {
    let rule = Rule::new(sig_if_then(sp(0, 17)), symbol("cond", sp(20, 24)))
        .expect("signature is valid");
    // the queue is reversed: the logical form is `if p then q`
    let mut reversed = vec![
        symbol("q", sp(36, 37)),
        symbol("then", sp(31, 35)),
        symbol("p", sp(29, 30)),
        symbol("if", sp(26, 28)),
    ];
    let bindings = rule.bind(&mut reversed).expect("the signature applies");
    assert!(reversed.is_empty(), "the whole form is consumed");
    assert_eq!(bindings.pairs.len(), 2);
    assert_eq!(bindings.pairs[0].0, "cond");
    assert!(matches!(&bindings.pairs[0].1.item, AST::Symbol(n) if n == "p"));
    assert_eq!(bindings.pairs[1].0, "body");
    assert!(matches!(&bindings.pairs[1].1.item, AST::Symbol(n) if n == "q"));
}

#[test]
fn bind_refuses_a_wrong_keyword() {
    let rule = Rule::new(sig_if_then(sp(0, 17)), symbol("cond", sp(20, 24)))
        .expect("signature is valid");
    let mut reversed = vec![
        symbol("q", sp(36, 37)),
        symbol("later", sp(31, 35)),
        symbol("p", sp(29, 30)),
        symbol("if", sp(26, 28)),
    ];
    assert!(rule.bind(&mut reversed).is_none());
}

#[test]
fn bind_leaves_unmatched_tail_in_the_queue() {
    let sig = Spanned::new(
        ArgPat::Group(vec![
            Spanned::new(ArgPat::Keyword("not".to_string()), sp(0, 3)),
            Spanned::new(ArgPat::Symbol("v".to_string()), sp(4, 5)),
        ]),
        sp(0, 5),
    );
    let rule = Rule::new(sig, symbol("v", sp(7, 8))).expect("signature is valid");
    let mut reversed = vec![
        symbol("extra", sp(16, 21)),
        symbol("p", sp(14, 15)),
        symbol("not", sp(10, 13)),
    ];
    let bindings = rule.bind(&mut reversed).expect("the prefix matches");
    assert_eq!(bindings.pairs.len(), 1);
    assert_eq!(reversed.len(), 1, "one token stays unmatched");
    assert!(matches!(&reversed[0].item, AST::Symbol(n) if n == "extra"));
}

#[test]
fn expand_substitutes_bound_trees() {
    let sig = Spanned::new(
        ArgPat::Group(vec![
            Spanned::new(ArgPat::Keyword("not".to_string()), sp(0, 3)),
            Spanned::new(ArgPat::Symbol("v".to_string()), sp(4, 5)),
        ]),
        sp(0, 5),
    );
    let template = Spanned::new(
        AST::Form(vec![symbol("negate", sp(8, 14)), symbol("v", sp(15, 16))]),
        sp(8, 16),
    );
    let rule = Rule::new(sig, template).expect("signature is valid");
    let mut reversed = vec![symbol("flag", sp(24, 28)), symbol("not", sp(20, 23))];
    let bindings = rule.bind(&mut reversed).expect("the signature applies");
    let expanded = rule.expand(&bindings);
    match expanded.item {
        AST::Form(items) => {
            assert_eq!(items.len(), 2);
            assert!(matches!(&items[0].item, AST::Symbol(n) if n == "negate"));
            // `v` was replaced by the bound tree, spans and all
            assert!(matches!(&items[1].item, AST::Symbol(n) if n == "flag"));
            assert_eq!(items[1].span, sp(24, 28));
        }
        other => panic!("expected a form, got {:?}", other),
    }
}

#[test]
fn rules_stay_in_scope_across_walks() {
    // a rule defined in one walk fires in a later walk of the same transformer
    let sig = Spanned::new(ArgPat::Keyword("unit".to_string()), sp(0, 4));
    let body = Spanned::new(AST::Data(Data::Unit), sp(6, 8));
    let def = Spanned::new(
        AST::Syntax {
            arg_pat: Box::new(sig),
            expression: Box::new(body),
        },
        sp(0, 8),
    );
    let mut t = Transformer::new();
    t.walk(def).expect("the definition walks");
    let out = t.walk(symbol("unit", sp(10, 14))).expect("the rule fires");
    assert!(matches!(out.item, desugar::cst::CST::Data(Data::Unit)));
    assert_eq!(out.span, sp(10, 14));
}
