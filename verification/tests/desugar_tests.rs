use desugar::ast::{ArgPat, ASTPattern, Data, AST};
use desugar::cst::{CSTPattern, CST};
use desugar::span::{Span, Spanned};
use desugar::syntax::{Reason, Syntax};
use desugar::transform::desugar;

fn sp(start: usize, end: usize) -> Span {
    Span::new(start, end)
}

fn sym(name: &str, span: Span) -> Spanned<AST> {
    Spanned::new(AST::Symbol(name.to_string()), span)
}

fn form(items: Vec<Spanned<AST>>, span: Span) -> Spanned<AST> {
    Spanned::new(AST::Form(items), span)
}

fn block(items: Vec<Spanned<AST>>, span: Span) -> Spanned<AST> {
    Spanned::new(AST::Block(items), span)
}

fn syntax_def(arg_pat: Spanned<ArgPat>, body: Spanned<AST>, span: Span) -> Spanned<AST> {
    Spanned::new(
        AST::Syntax {
            arg_pat: Box::new(arg_pat),
            expression: Box::new(body),
        },
        span,
    )
}

fn cst_symbol_name(c: &Spanned<CST>) -> &str {
    match &c.item {
        CST::Symbol(n) => n.as_str(),
        other => panic!("expected a symbol, got {:?}", other),
    }
}

fn cst_call(c: &Spanned<CST>) -> (&Spanned<CST>, &Spanned<CST>) {
    match &c.item {
        CST::Call { function, argument } => (function, argument),
        other => panic!("expected a call, got {:?}", other),
    }
}

fn cst_lambda(c: &Spanned<CST>) -> (&Spanned<CSTPattern>, &Spanned<CST>) {
    match &c.item {
        CST::Lambda {
            pattern,
            expression,
        } => (pattern, expression),
        other => panic!("expected a lambda, got {:?}", other),
    }
}

fn cst_block(c: &Spanned<CST>) -> &Vec<Spanned<CST>> {
    match &c.item {
        CST::Block(items) => items,
        other => panic!("expected a block, got {:?}", other),
    }
}

#[test]
fn call_building_left_associates() {
    // (a b c d) becomes (((a b) c) d)
    let input = form(
        vec![
            sym("a", sp(0, 1)),
            sym("b", sp(2, 3)),
            sym("c", sp(4, 5)),
            sym("d", sp(6, 7)),
        ],
        sp(0, 7),
    );
    let out = desugar(input).expect("plain call must desugar");
    assert_eq!(out.span, sp(0, 7));
    let (abc, d) = cst_call(&out);
    assert_eq!(cst_symbol_name(d), "d");
    assert_eq!(d.span, sp(6, 7));
    // the synthetic prefix (a b c) spans its members
    assert_eq!(abc.span, sp(0, 5));
    let (ab, c) = cst_call(abc);
    assert_eq!(cst_symbol_name(c), "c");
    assert_eq!(ab.span, sp(0, 3));
    let (a, b) = cst_call(ab);
    assert_eq!(cst_symbol_name(a), "a");
    assert_eq!(cst_symbol_name(b), "b");
    assert_eq!(a.span, sp(0, 1));
    assert_eq!(b.span, sp(2, 3));
}

#[test]
fn composition_chain_desugars_to_nested_calls() {
    // c |> b |> a, parsed left-associatively, becomes a (b c)
    let inner = Spanned::new(
        AST::Composition {
            argument: Box::new(sym("c", sp(0, 1))),
            function: Box::new(sym("b", sp(5, 6))),
        },
        sp(0, 6),
    );
    let whole = Spanned::new(
        AST::Composition {
            argument: Box::new(inner),
            function: Box::new(sym("a", sp(10, 11))),
        },
        sp(0, 11),
    );
    let out = desugar(whole).expect("composition must desugar");
    assert_eq!(out.span, sp(0, 11));
    let (a, bc) = cst_call(&out);
    assert_eq!(cst_symbol_name(a), "a");
    let (b, c) = cst_call(bc);
    assert_eq!(cst_symbol_name(b), "b");
    assert_eq!(cst_symbol_name(c), "c");
}

#[test]
fn multi_argument_lambda_curries_right_to_left() {
    // Lambda(Chain([x, y, z]), x) becomes Lambda(x, Lambda(y, Lambda(z, x)))
    let chain = Spanned::new(
        ASTPattern::Chain(vec![
            Spanned::new(ASTPattern::Symbol("x".to_string()), sp(1, 2)),
            Spanned::new(ASTPattern::Symbol("y".to_string()), sp(3, 4)),
            Spanned::new(ASTPattern::Symbol("z".to_string()), sp(5, 6)),
        ]),
        sp(1, 6),
    );
    let node = Spanned::new(
        AST::Lambda {
            pattern: Box::new(chain),
            expression: Box::new(sym("x", sp(10, 11))),
        },
        sp(0, 11),
    );
    let out = desugar(node).expect("lambda must desugar");
    // the outermost node keeps the whole lambda's span
    assert_eq!(out.span, sp(0, 11));
    let (px, inner1) = cst_lambda(&out);
    assert!(matches!(&px.item, CSTPattern::Symbol(n) if n == "x"));
    // each inner wrapper spans its pattern together with its body
    assert_eq!(inner1.span, sp(3, 11));
    let (py, inner2) = cst_lambda(inner1);
    assert!(matches!(&py.item, CSTPattern::Symbol(n) if n == "y"));
    assert_eq!(inner2.span, sp(5, 11));
    let (pz, body) = cst_lambda(inner2);
    assert!(matches!(&pz.item, CSTPattern::Symbol(n) if n == "z"));
    assert_eq!(cst_symbol_name(body), "x");
    assert_eq!(body.span, sp(10, 11));
}

fn twice_rule(span: Span) -> Spanned<AST> {
    // syntax: `twice x` rewrites to `f x`
    let sig = Spanned::new(
        ArgPat::Group(vec![
            Spanned::new(ArgPat::Keyword("twice".to_string()), sp(span.start, span.start + 1)),
            Spanned::new(ArgPat::Symbol("x".to_string()), sp(span.start + 1, span.start + 2)),
        ]),
        span,
    );
    let body = form(
        vec![sym("f", sp(span.start + 3, span.start + 4)), sym("x", sp(span.start + 5, span.start + 6))],
        sp(span.start + 3, span.start + 6),
    );
    syntax_def(sig, body, span)
}

#[test]
fn rule_registration_expands_later_forms() {
    // [syntax, twice arg] leaves [[], f arg]
    let invocation = form(
        vec![sym("twice", sp(20, 25)), sym("arg", sp(26, 29))],
        sp(20, 29),
    );
    let input = block(vec![twice_rule(sp(0, 10)), invocation], sp(0, 30));
    let out = desugar(input).expect("registered rule must expand");
    let items = cst_block(&out);
    assert_eq!(items.len(), 2);
    assert!(cst_block(&items[0]).is_empty());
    let (f, arg) = cst_call(&items[1]);
    assert_eq!(cst_symbol_name(f), "f");
    assert_eq!(cst_symbol_name(arg), "arg");
}

#[test]
fn rule_defined_after_use_stays_a_call() {
    // swapped, the form is desugared before the rule is in scope
    let invocation = form(
        vec![sym("twice", sp(0, 5)), sym("arg", sp(6, 9))],
        sp(0, 9),
    );
    let input = block(vec![invocation, twice_rule(sp(10, 20))], sp(0, 21));
    let out = desugar(input).expect("unmatched form is a plain call");
    let items = cst_block(&out);
    assert_eq!(items.len(), 2);
    let (tw, arg) = cst_call(&items[0]);
    assert_eq!(cst_symbol_name(tw), "twice");
    assert_eq!(cst_symbol_name(arg), "arg");
    assert!(cst_block(&items[1]).is_empty());
}

fn if_like_rule(names: [&str; 3], span: Span) -> Spanned<AST> {
    let sig = Spanned::new(
        ArgPat::Group(vec![
            Spanned::new(ArgPat::Keyword("if".to_string()), sp(span.start, span.start + 1)),
            Spanned::new(ArgPat::Symbol(names[0].to_string()), sp(span.start + 1, span.start + 2)),
            Spanned::new(ArgPat::Keyword("then".to_string()), sp(span.start + 2, span.start + 3)),
            Spanned::new(ArgPat::Symbol(names[1].to_string()), sp(span.start + 3, span.start + 4)),
            Spanned::new(ArgPat::Keyword("else".to_string()), sp(span.start + 4, span.start + 5)),
            Spanned::new(ArgPat::Symbol(names[2].to_string()), sp(span.start + 5, span.start + 6)),
        ]),
        span,
    );
    let body = sym(names[0], sp(span.start + 7, span.start + 8));
    syntax_def(sig, body, span)
}

#[test]
fn ambiguous_macros_are_refused() {
    let invocation = form(
        vec![
            sym("if", sp(40, 42)),
            sym("p", sp(43, 44)),
            sym("then", sp(45, 49)),
            sym("q", sp(50, 51)),
            sym("else", sp(52, 56)),
            sym("r", sp(57, 58)),
        ],
        sp(40, 58),
    );
    let input = block(
        vec![
            if_like_rule(["x", "y", "z"], sp(0, 10)),
            if_like_rule(["u", "v", "w"], sp(20, 30)),
            invocation,
        ],
        sp(0, 60),
    );
    let err: Syntax = desugar(input).expect_err("two full matches are ambiguous");
    match err.reason {
        Reason::AmbiguousMacro(spans) => {
            // both competing definitions are named, in definition order
            assert_eq!(spans, vec![sp(0, 10), sp(20, 30)]);
        }
        other => panic!("expected the ambiguity error, got {:?}", other),
    }
    // the error points at the whole form
    assert_eq!(err.span, sp(40, 58));
}

#[test]
fn nullary_macro_fires_on_bare_symbol() {
    // a rule whose whole signature is one pseudokeyword expands a bare symbol
    let sig = Spanned::new(ArgPat::Keyword("origin".to_string()), sp(0, 6));
    let body = Spanned::new(AST::Data(Data::Integer(42)), sp(8, 10));
    let def = syntax_def(sig, body, sp(0, 10));
    let uses = sym("origin", sp(12, 18));
    let input = block(vec![def, uses], sp(0, 19));
    let out = desugar(input).expect("nullary macro must fire");
    let items = cst_block(&out);
    assert_eq!(items.len(), 2);
    assert!(matches!(items[1].item, CST::Data(Data::Integer(42))));
}

#[test]
fn data_passes_through_unchanged() {
    let input = Spanned::new(AST::Data(Data::Boolean(true)), sp(3, 7));
    let out = desugar(input).expect("data must pass through");
    assert!(matches!(out.item, CST::Data(Data::Boolean(true))));
    assert_eq!(out.span, sp(3, 7));
}

#[test]
fn print_and_label_recurse() {
    let input = Spanned::new(
        AST::Print(Box::new(Spanned::new(
            AST::Label(
                "Tag".to_string(),
                Box::new(Spanned::new(AST::Data(Data::Unit), sp(6, 8))),
            ),
            sp(2, 8),
        ))),
        sp(0, 9),
    );
    let out = desugar(input).expect("print and label recurse");
    match &out.item {
        CST::Print(inner) => match &inner.item {
            CST::Label(n, v) => {
                assert_eq!(n, "Tag");
                assert!(matches!(v.item, CST::Data(Data::Unit)));
            }
            other => panic!("expected a label, got {:?}", other),
        },
        other => panic!("expected a print, got {:?}", other),
    }
}

#[test]
fn assignment_lowers_pattern_and_walks_expression() {
    let input = Spanned::new(
        AST::Assign {
            pattern: Box::new(Spanned::new(
                ASTPattern::Symbol("v".to_string()),
                sp(0, 1),
            )),
            expression: Box::new(sym("w", sp(4, 5))),
        },
        sp(0, 5),
    );
    let out = desugar(input).expect("assignment must desugar");
    match &out.item {
        CST::Assign {
            pattern,
            expression,
        } => {
            assert!(matches!(&pattern.item, CSTPattern::Symbol(n) if n == "v"));
            assert_eq!(cst_symbol_name(expression), "w");
        }
        other => panic!("expected an assignment, got {:?}", other),
    }
}

#[test]
fn chain_pattern_in_assignment_is_refused() {
    let chain = Spanned::new(
        ASTPattern::Chain(vec![
            Spanned::new(ASTPattern::Symbol("x".to_string()), sp(0, 1)),
            Spanned::new(ASTPattern::Symbol("y".to_string()), sp(2, 3)),
        ]),
        sp(0, 3),
    );
    let input = Spanned::new(
        AST::Assign {
            pattern: Box::new(chain),
            expression: Box::new(sym("w", sp(6, 7))),
        },
        sp(0, 7),
    );
    let err = desugar(input).expect_err("a chain cannot be assigned to");
    assert!(matches!(err.reason, Reason::UnliftablePattern));
    assert_eq!(err.span, sp(0, 3));
}

#[test]
fn misplaced_pattern_is_refused() {
    let input = Spanned::new(
        AST::Pattern(ASTPattern::Symbol("p".to_string())),
        sp(2, 3),
    );
    let err = desugar(input).expect_err("a pattern is no expression");
    assert!(matches!(err.reason, Reason::UnexpectedPattern));
    assert_eq!(err.span, sp(2, 3));
}

#[test]
fn misplaced_argument_pattern_is_refused() {
    let input = Spanned::new(AST::ArgPat(ArgPat::Keyword("k".to_string())), sp(4, 5));
    let err = desugar(input).expect_err("a signature is no expression");
    assert!(matches!(err.reason, Reason::UnexpectedArgPattern));
    assert_eq!(err.span, sp(4, 5));
}

#[test]
fn duplicate_binder_in_rule_is_refused() {
    let sig = Spanned::new(
        ArgPat::Group(vec![
            Spanned::new(ArgPat::Keyword("k".to_string()), sp(0, 1)),
            Spanned::new(ArgPat::Symbol("x".to_string()), sp(2, 3)),
            Spanned::new(ArgPat::Symbol("x".to_string()), sp(4, 5)),
        ]),
        sp(0, 5),
    );
    let input = syntax_def(sig, sym("x", sp(7, 8)), sp(0, 8));
    let err = desugar(input).expect_err("a binder may be bound once");
    match err.reason {
        Reason::DuplicateBinder(n) => assert_eq!(n, "x"),
        other => panic!("expected the duplicate-binder error, got {:?}", other),
    }
    assert_eq!(err.span, sp(0, 5));
}

#[test]
fn keywordless_rule_is_refused() {
    let sig = Spanned::new(
        ArgPat::Group(vec![Spanned::new(
            ArgPat::Symbol("x".to_string()),
            sp(1, 2),
        )]),
        sp(0, 3),
    );
    let input = syntax_def(sig, sym("x", sp(5, 6)), sp(0, 6));
    let err = desugar(input).expect_err("a rule needs a pseudokeyword");
    assert!(matches!(err.reason, Reason::KeywordlessMacro));
    assert_eq!(err.span, sp(0, 3));
}

#[test]
fn empty_form_is_refused() {
    let input = form(vec![], sp(0, 2));
    let err = desugar(input).expect_err("an empty form has no meaning");
    assert!(matches!(err.reason, Reason::EmptyForm));
}

#[test]
fn one_element_form_of_data_is_refused() {
    let input = form(
        vec![Spanned::new(AST::Data(Data::Integer(1)), sp(1, 2))],
        sp(0, 3),
    );
    let err = desugar(input).expect_err("a lone literal cannot be called");
    assert!(matches!(err.reason, Reason::UncallableForm));
    assert_eq!(err.span, sp(1, 2));
}

#[test]
fn runaway_expansion_hits_the_depth_limit() {
    // `loopy` rewrites to itself, forever
    let sig = Spanned::new(ArgPat::Keyword("loopy".to_string()), sp(0, 5));
    let body = sym("loopy", sp(7, 12));
    let def = syntax_def(sig, body, sp(0, 12));
    let uses = sym("loopy", sp(14, 19));
    let input = block(vec![def, uses], sp(0, 20));
    let err = desugar(input).expect_err("a self-producing rule must be stopped");
    assert!(matches!(err.reason, Reason::DepthLimit));
}

#[test]
fn rule_definition_value_is_an_empty_block() {
    // replacing the definition with an empty block leaves the same value
    let with_def = block(
        vec![
            twice_rule(sp(0, 10)),
            Spanned::new(AST::Data(Data::Integer(7)), sp(12, 13)),
        ],
        sp(0, 14),
    );
    let with_hole = block(
        vec![
            block(vec![], sp(0, 10)),
            Spanned::new(AST::Data(Data::Integer(7)), sp(12, 13)),
        ],
        sp(0, 14),
    );
    let a = desugar(with_def).expect("definition block desugars");
    let b = desugar(with_hole).expect("hole block desugars");
    assert_eq!(format!("{:?}", a), format!("{:?}", b));
}

#[test]
fn composition_equals_two_element_form() {
    let comp = Spanned::new(
        AST::Composition {
            argument: Box::new(sym("a", sp(0, 1))),
            function: Box::new(sym("f", sp(5, 6))),
        },
        sp(0, 6),
    );
    let as_form = form(vec![sym("f", sp(5, 6)), sym("a", sp(0, 1))], sp(0, 6));
    let x = desugar(comp).expect("composition desugars");
    let y = desugar(as_form).expect("form desugars");
    assert_eq!(format!("{:?}", x), format!("{:?}", y));
}

#[test]
fn macro_can_produce_another_macro_invocation() {
    // `outer x` rewrites to `twice x`, which rewrites to `f x`
    let outer_sig = Spanned::new(
        ArgPat::Group(vec![
            Spanned::new(ArgPat::Keyword("outer".to_string()), sp(30, 35)),
            Spanned::new(ArgPat::Symbol("x".to_string()), sp(36, 37)),
        ]),
        sp(30, 37),
    );
    let outer_body = form(
        vec![sym("twice", sp(40, 45)), sym("x", sp(46, 47))],
        sp(40, 47),
    );
    let input = block(
        vec![
            twice_rule(sp(0, 10)),
            syntax_def(outer_sig, outer_body, sp(30, 47)),
            form(vec![sym("outer", sp(50, 55)), sym("v", sp(56, 57))], sp(50, 57)),
        ],
        sp(0, 58),
    );
    let out = desugar(input).expect("nested expansion must work");
    let items = cst_block(&out);
    let (f, v) = cst_call(&items[2]);
    assert_eq!(cst_symbol_name(f), "f");
    assert_eq!(cst_symbol_name(v), "v");
}

#[test]
fn bare_symbol_without_rules_is_itself() {
    let out = desugar(sym("lonely", sp(2, 8))).expect("a bare symbol stands");
    assert_eq!(cst_symbol_name(&out), "lonely");
    assert_eq!(out.span, sp(2, 8));
}

#[test]
fn block_preserves_order() {
    let input = block(
        vec![
            Spanned::new(AST::Data(Data::Integer(1)), sp(0, 1)),
            Spanned::new(AST::Data(Data::Integer(2)), sp(2, 3)),
            Spanned::new(AST::Data(Data::Integer(3)), sp(4, 5)),
        ],
        sp(0, 5),
    );
    let out = desugar(input).expect("blocks desugar");
    let items = cst_block(&out);
    assert_eq!(items.len(), 3);
    for (k, item) in items.iter().enumerate() {
        assert!(matches!(item.item, CST::Data(Data::Integer(n)) if n == (k + 1) as i64));
    }
}

#[test]
fn nested_chain_in_lambda_fails_at_the_whole_pattern() {
    // the second argument is itself a chain, which cannot lower
    let inner_chain = Spanned::new(
        ASTPattern::Chain(vec![Spanned::new(
            ASTPattern::Symbol("b".to_string()),
            sp(3, 4),
        )]),
        sp(2, 5),
    );
    let chain = Spanned::new(
        ASTPattern::Chain(vec![
            Spanned::new(ASTPattern::Symbol("a".to_string()), sp(0, 1)),
            inner_chain,
        ]),
        sp(0, 5),
    );
    let node = Spanned::new(
        AST::Lambda {
            pattern: Box::new(chain),
            expression: Box::new(sym("a", sp(8, 9))),
        },
        sp(0, 9),
    );
    let err = desugar(node).expect_err("a nested chain cannot lower");
    assert!(matches!(err.reason, Reason::UnliftablePattern));
    // the error points at the whole argument pattern
    assert_eq!(err.span, sp(0, 5));
}
