//! The laws the desugarer obeys, stated over the model and proved once
//! for all inputs.

use vstd::prelude::*;

use crate::ast::{
    AstV, AstPatV, ArgPatV, ast_height, ast_seq_height, lemma_ast_height_pos,
    lemma_ast_seq_height_elem, lemma_ast_seq_height_drop_last,
};
use crate::cst::{CstV, lower_pat_v};
use crate::rule::RuleV;
use crate::span::{Span, Spanned, spec_combine, spec_join};
use crate::syntax::{ReasonV, SyntaxV};
use crate::transform::{
    WalkV, StepV, ItemsV, walk_v, form_v, call_v, block_v, block_items_v, comp_v, assign_v,
    lambda_v, rule_step_v, rule_new_v, curry_v, cands_upto, spans_of, wrap,
};

verus! {

/// Span preservation: whatever walking returns, the produced node carries
/// exactly the span of the node it came from.
pub proof fn lemma_walk_preserves_span(
    rules: Seq<Spanned<RuleV>>,
    fuel: nat,
    a: Spanned<AstV>,
)
    ensures
        walk_v(rules, fuel, a).result matches Ok(c) ==> c.span == a.span,
{
}

/// Composition law: `Composition { argument, function }` desugars exactly
/// as the two-element form `[function, argument]` does, as long as no
/// rule in scope matches that form; both yield the binary call.
pub proof fn lemma_composition_is_form(
    rules: Seq<Spanned<RuleV>>,
    fuel: nat,
    argument: Spanned<AstV>,
    function: Spanned<AstV>,
    span: Span,
)
    requires
        cands_upto(rules, seq![function, argument], rules.len() as int).len() == 0,
    ensures
        walk_v(
            rules,
            fuel,
            Spanned {
                item: AstV::Composition {
                    argument: Box::new(argument),
                    function: Box::new(function),
                },
                span,
            },
        ) == walk_v(rules, fuel, Spanned { item: AstV::Form(seq![function, argument]), span }),
{
    let f = seq![function, argument];
    assert(f.len() == 2);
    assert(f[0] == function);
    assert(f[1] == argument);
    let comp = walk_v(
        rules,
        fuel,
        Spanned {
            item: AstV::Composition { argument: Box::new(argument), function: Box::new(function) },
            span,
        },
    );
    let form = walk_v(rules, fuel, Spanned { item: AstV::Form(f), span });
    assert(form_v(rules, fuel, f) == call_v(rules, fuel, f));
    assert(comp.result == wrap(comp_v(rules, fuel, argument, function).result, span));
    assert(comp.rules == comp_v(rules, fuel, argument, function).rules);
    assert(form.result == wrap(form_v(rules, fuel, f).result, span));
    assert(comp_v(rules, fuel, argument, function) == call_v(rules, fuel, f));
    assert(comp == form);
}

/// How many lambda wrappers stand around a node before something else
/// begins.
pub open spec fn lambda_nesting(c: Spanned<CstV>) -> nat
    decreases c,
{
    match c.item {
        CstV::Lambda { expression, .. } => 1 + lambda_nesting(*expression),
        _ => 0,
    }
}

/// The node left after unwrapping `k` lambda wrappers.
pub open spec fn strip_lambdas(c: Spanned<CstV>, k: nat) -> Spanned<CstV>
    decreases k,
{
    if k == 0 {
        c
    } else {
        match c.item {
            CstV::Lambda { expression, .. } => strip_lambdas(*expression, (k - 1) as nat),
            _ => c,
        }
    }
}

/// Currying law: when every pattern of the argument list lowers, the
/// curried lambda holds exactly one wrapper per pattern, and unwrapping
/// them all uncovers exactly the walked body.
pub proof fn lemma_curry_nests(args: Seq<Spanned<AstPatV>>, acc: Spanned<CstV>, errspan: Span)
    ensures
        curry_v(args, acc, errspan) matches Ok(l) ==> lambda_nesting(l) == args.len()
            + lambda_nesting(acc) && strip_lambdas(l, args.len()) == strip_lambdas(
            acc,
            0,
        ) && strip_lambdas(l, args.len()) == acc,
    decreases args.len(),
{
    if args.len() == 0 {
    } else {
        match lower_pat_v(args.last()) {
            None => {},
            Some(cp) => {
                let wrapped = Spanned {
                    item: CstV::Lambda { pattern: Box::new(cp), expression: Box::new(acc) },
                    span: spec_combine(cp.span, acc.span),
                };
                lemma_curry_nests(args.drop_last(), wrapped, errspan);
                match curry_v(args.drop_last(), wrapped, errspan) {
                    Err(_) => {},
                    Ok(l) => {
                        assert(lambda_nesting(wrapped) == 1 + lambda_nesting(acc));
                        lemma_strip_peel(l, args.drop_last().len() as nat, acc);
                    },
                }
            },
        }
    }
}

/// Unwrapping `k + 1` wrappers from a node whose first `k` wrappers cover
/// one more lambda around `inner` uncovers `inner`.
proof fn lemma_strip_peel(l: Spanned<CstV>, k: nat, inner: Spanned<CstV>)
    requires
        ({
            let s = strip_lambdas(l, k);
            s.item matches CstV::Lambda { expression, .. } && *expression == inner
        }),
    ensures
        strip_lambdas(l, k + 1) == inner,
    decreases k,
{
    if k == 0 {
        assert(strip_lambdas(l, 0) == l);
        match l.item {
            CstV::Lambda { expression, .. } => {
                assert(strip_lambdas(l, 1) == strip_lambdas(*expression, 0nat));
                assert(strip_lambdas(*expression, 0nat) == *expression);
            },
            _ => {
                assert(false);
            },
        }
    } else {
        match l.item {
            CstV::Lambda { expression, .. } => {
                assert(strip_lambdas(l, k) == strip_lambdas(*expression, (k - 1) as nat));
                assert(strip_lambdas(l, k + 1) == strip_lambdas(*expression, k));
                lemma_strip_peel(*expression, (k - 1) as nat, inner);
            },
            _ => {
                assert(strip_lambdas(l, k) == l);
                assert(false);
            },
        }
    }
}


/// No macro definition stands anywhere in the tree.
pub open spec fn macro_free(a: Spanned<AstV>) -> bool
    decreases a,
{
    match a.item {
        AstV::Symbol(_) => true,
        AstV::Data(_) => true,
        AstV::Block(b) => macro_free_seq(b),
        AstV::Form(f) => macro_free_seq(f),
        AstV::Composition { argument, function } => macro_free(*argument) && macro_free(
            *function,
        ),
        AstV::Pattern(_) => true,
        AstV::ArgPat(_) => true,
        AstV::Syntax { .. } => false,
        AstV::Assign { expression, .. } => macro_free(*expression),
        AstV::Lambda { expression, .. } => macro_free(*expression),
        AstV::Print(e) => macro_free(*e),
        AstV::Label(_, e) => macro_free(*e),
    }
}

pub open spec fn macro_free_seq(s: Seq<Spanned<AstV>>) -> bool
    decreases s,
{
    s.len() == 0 || (macro_free(s[0]) && macro_free_seq(s.drop_first()))
}

/// Pure structural desugaring, with no rule scope at all: forms fold
/// left-associatively into calls, composition becomes a call, lambdas
/// curry right to left, everything else passes through; a macro
/// definition has the value of an empty block.
pub open spec fn simple_v(a: Spanned<AstV>) -> Result<Spanned<CstV>, SyntaxV>
    decreases ast_height(a), 3int,
        via simple_v_decreases
{
    match a.item {
        AstV::Symbol(_) => (match simple_call_v(seq![a]) {
            Ok(c) => Ok(Spanned { item: c, span: a.span }),
            Err(e) => Err(e),
        }),
        AstV::Data(d) => Ok(Spanned { item: CstV::Data(d), span: a.span }),
        AstV::Block(b) => (match simple_items_v(b) {
            Ok(items) => Ok(Spanned { item: CstV::Block(items), span: a.span }),
            Err(e) => Err(e),
        }),
        AstV::Form(f) => (match simple_call_v(f) {
            Ok(c) => Ok(Spanned { item: c, span: a.span }),
            Err(e) => Err(e),
        }),
        AstV::Composition { argument, function } => (match simple_v(*function) {
            Err(e) => Err(e),
            Ok(fc) => match simple_v(*argument) {
                Err(e) => Err(e),
                Ok(ac) => Ok(
                    Spanned {
                        item: CstV::Call { function: Box::new(fc), argument: Box::new(ac) },
                        span: a.span,
                    },
                ),
            },
        }),
        AstV::Pattern(_) => Err(SyntaxV { reason: ReasonV::UnexpectedPattern, span: a.span }),
        AstV::ArgPat(_) => Err(SyntaxV { reason: ReasonV::UnexpectedArgPattern, span: a.span }),
        AstV::Syntax { arg_pat, expression } => (match rule_new_v(*arg_pat, *expression) {
            Err(e) => Err(e),
            Ok(_) => Ok(Spanned { item: CstV::Block(Seq::empty()), span: a.span }),
        }),
        AstV::Assign { pattern, expression } => (match lower_pat_v(*pattern) {
            None => Err(SyntaxV { reason: ReasonV::UnliftablePattern, span: pattern.span }),
            Some(cp) => match simple_v(*expression) {
                Err(e) => Err(e),
                Ok(ec) => Ok(
                    Spanned {
                        item: CstV::Assign { pattern: Box::new(cp), expression: Box::new(ec) },
                        span: a.span,
                    },
                ),
            },
        }),
        AstV::Lambda { pattern, expression } => (match simple_v(*expression) {
            Err(e) => Err(e),
            Ok(ec) => {
                let args = match pattern.item {
                    AstPatV::Chain(c) => c,
                    _ => seq![*pattern],
                };
                match curry_v(args, ec, pattern.span) {
                    Err(e) => Err(e),
                    Ok(l) => Ok(Spanned { item: l.item, span: a.span }),
                }
            },
        }),
        AstV::Print(e) => (match simple_v(*e) {
            Err(err) => Err(err),
            Ok(ec) => Ok(Spanned { item: CstV::Print(Box::new(ec)), span: a.span }),
        }),
        AstV::Label(n, e) => (match simple_v(*e) {
            Err(err) => Err(err),
            Ok(ec) => Ok(Spanned { item: CstV::Label(n, Box::new(ec)), span: a.span }),
        }),
    }
}

#[via_fn]
proof fn simple_v_decreases(a: Spanned<AstV>) {
    match a.item {
        AstV::Symbol(_) => {
            assert(seq![a].drop_first() =~= Seq::<Spanned<AstV>>::empty());
            assert(seq![a].len() == 1);
            assert(seq![a][0] == a);
            assert(ast_seq_height(seq![a]) == ast_height(seq![a][0]) + ast_seq_height(
                seq![a].drop_first(),
            ));
        },
        _ => {},
    }
}

/// Pure structural desugaring of each block member.
pub open spec fn simple_items_v(b: Seq<Spanned<AstV>>) -> Result<Seq<Spanned<CstV>>, SyntaxV>
    decreases 1 + ast_seq_height(b), 1int,
        via simple_items_v_decreases
{
    if b.len() == 0 {
        Ok(Seq::empty())
    } else {
        match simple_v(b[0]) {
            Err(e) => Err(e),
            Ok(c) => match simple_items_v(b.drop_first()) {
                Err(e) => Err(e),
                Ok(items) => Ok(seq![c] + items),
            },
        }
    }
}

#[via_fn]
proof fn simple_items_v_decreases(b: Seq<Spanned<AstV>>) {
    if b.len() > 0 {
        lemma_ast_height_pos(b[0]);
        lemma_ast_seq_height_elem(b, 0);
    }
}

/// Pure structural folding of a plain call.
pub open spec fn simple_call_v(f: Seq<Spanned<AstV>>) -> Result<CstV, SyntaxV>
    decreases ast_seq_height(f), 0int,
        via simple_call_v_decreases
{
    if f.len() == 0 {
        Err(SyntaxV { reason: ReasonV::EmptyForm, span: Span { start: 0, end: 0 } })
    } else if f.len() == 1 {
        match f[0].item {
            AstV::Symbol(n) => Ok(CstV::Symbol(n)),
            _ => Err(SyntaxV { reason: ReasonV::UncallableForm, span: f[0].span }),
        }
    } else if f.len() == 2 {
        match simple_v(f[0]) {
            Err(e) => Err(e),
            Ok(fc) => match simple_v(f[1]) {
                Err(e) => Err(e),
                Ok(ac) => Ok(CstV::Call { function: Box::new(fc), argument: Box::new(ac) }),
            },
        }
    } else {
        match simple_v(f.last()) {
            Err(e) => Err(e),
            Ok(ac) => match simple_call_v(f.drop_last()) {
                Err(e) => Err(e),
                Ok(pcv) => Ok(
                    CstV::Call {
                        function: Box::new(
                            Spanned { item: pcv, span: spec_join(spans_of(f.drop_last())) },
                        ),
                        argument: Box::new(ac),
                    },
                ),
            },
        }
    }
}

#[via_fn]
proof fn simple_call_v_decreases(f: Seq<Spanned<AstV>>) {
    if f.len() == 2 {
        lemma_ast_seq_height_elem(f, 0);
        lemma_ast_seq_height_elem(f, 1);
    } else if f.len() >= 3 {
        lemma_ast_seq_height_drop_last(f);
        lemma_ast_height_pos(f.last());
        lemma_ast_seq_height_elem(f.drop_last(), 0);
        lemma_ast_height_pos(f.drop_last()[0]);
    }
}

/// Determinism on macro-free trees: with no definitions anywhere in the
/// tree, a walk from an empty scope never consults nor grows the rule
/// list, ignores the expansion budget entirely, and agrees with the pure
/// structural desugaring `simple_v`.
pub proof fn lemma_macro_free_walk(fuel: nat, a: Spanned<AstV>)
    requires
        macro_free(a),
    ensures
        walk_v(Seq::empty(), fuel, a) == (WalkV {
            result: simple_v(a),
            rules: Seq::<Spanned<RuleV>>::empty(),
        }),
    decreases ast_height(a), 3int,
{
    let no_rules = Seq::<Spanned<RuleV>>::empty();
    match a.item {
        AstV::Symbol(_) => {
            assert(seq![a].drop_first() =~= Seq::<Spanned<AstV>>::empty());
            assert(seq![a].len() == 1);
            assert(seq![a][0] == a);
            assert(ast_seq_height(seq![a]) == ast_height(seq![a][0]) + ast_seq_height(
                seq![a].drop_first(),
            ));
            assert(macro_free_seq(seq![a]) == (macro_free(seq![a][0]) && macro_free_seq(
                seq![a].drop_first(),
            )));
            assert(macro_free_seq(seq![a]));
            lemma_macro_free_call(fuel, seq![a]);
            assert(cands_upto(no_rules, seq![a], no_rules.len() as int).len() == 0);
            assert(form_v(no_rules, fuel, seq![a]) == call_v(no_rules, fuel, seq![a]));
            assert(call_v(no_rules, fuel, seq![a]) == (StepV {
                result: simple_call_v(seq![a]),
                rules: no_rules,
            }));
            assert(walk_v(no_rules, fuel, a).rules == no_rules);
            assert(walk_v(no_rules, fuel, a).result == wrap(simple_call_v(seq![a]), a.span));
            assert(simple_v(a) == (match simple_call_v(seq![a]) {
                Ok(c) => Ok::<Spanned<CstV>, SyntaxV>(Spanned { item: c, span: a.span }),
                Err(e) => Err(e),
            }));
        },
        AstV::Block(b) => {
            lemma_macro_free_items(fuel, b);
            assert(walk_v(no_rules, fuel, a).result == wrap(
                block_v(no_rules, fuel, b).result,
                a.span,
            ));
            assert(block_items_v(no_rules, fuel, b) == (ItemsV {
                result: simple_items_v(b),
                rules: no_rules,
            }));
            assert(block_v(no_rules, fuel, b).result == (match simple_items_v(b) {
                Ok(items) => Ok::<CstV, SyntaxV>(CstV::Block(items)),
                Err(e) => Err(e),
            }));
            assert(walk_v(no_rules, fuel, a).result == simple_v(a));
        },
        AstV::Form(f) => {
            lemma_macro_free_call(fuel, f);
            assert(form_v(no_rules, fuel, f) == call_v(no_rules, fuel, f));
            assert(walk_v(no_rules, fuel, a).result == simple_v(a));
        },
        AstV::Composition { argument, function } => {
            lemma_macro_free_walk(fuel, *function);
            assert(walk_v(no_rules, fuel, a).result == wrap(
                comp_v(no_rules, fuel, *argument, *function).result,
                a.span,
            ));
            match walk_v(no_rules, fuel, *function).result {
                Err(e) => {
                    assert(comp_v(no_rules, fuel, *argument, *function).result == Err::<
                        CstV,
                        SyntaxV,
                    >(e));
                },
                Ok(fc) => {
                    lemma_macro_free_walk(fuel, *argument);
                    match walk_v(no_rules, fuel, *argument).result {
                        Err(e) => {
                            assert(comp_v(no_rules, fuel, *argument, *function).result == Err::<
                                CstV,
                                SyntaxV,
                            >(e));
                        },
                        Ok(ac) => {
                            assert(comp_v(no_rules, fuel, *argument, *function).result == Ok::<
                                CstV,
                                SyntaxV,
                            >(CstV::Call { function: Box::new(fc), argument: Box::new(ac) }));
                        },
                    }
                },
            }
            assert(walk_v(no_rules, fuel, a).result == simple_v(a));
        },
        AstV::Assign { pattern, expression } => {
            assert(walk_v(no_rules, fuel, a).result == wrap(
                assign_v(no_rules, fuel, *pattern, *expression).result,
                a.span,
            ));
            match lower_pat_v(*pattern) {
                None => {
                    assert(assign_v(no_rules, fuel, *pattern, *expression).result == Err::<
                        CstV,
                        SyntaxV,
                    >(SyntaxV { reason: ReasonV::UnliftablePattern, span: pattern.span }));
                },
                Some(cp) => {
                    lemma_macro_free_walk(fuel, *expression);
                    match walk_v(no_rules, fuel, *expression).result {
                        Err(e) => {
                            assert(assign_v(no_rules, fuel, *pattern, *expression).result == Err::<
                                CstV,
                                SyntaxV,
                            >(e));
                        },
                        Ok(ec) => {
                            assert(assign_v(no_rules, fuel, *pattern, *expression).result == Ok::<
                                CstV,
                                SyntaxV,
                            >(CstV::Assign { pattern: Box::new(cp), expression: Box::new(ec) }));
                        },
                    }
                },
            }
            assert(walk_v(no_rules, fuel, a).result == simple_v(a));
        },
        AstV::Lambda { pattern, expression } => {
            lemma_macro_free_walk(fuel, *expression);
            assert(walk_v(no_rules, fuel, a).result == wrap(
                lambda_v(no_rules, fuel, *pattern, *expression).result,
                a.span,
            ));
            match walk_v(no_rules, fuel, *expression).result {
                Err(e) => {
                    assert(lambda_v(no_rules, fuel, *pattern, *expression).result == Err::<
                        CstV,
                        SyntaxV,
                    >(e));
                },
                Ok(ec) => {
                    let args = (match pattern.item {
                        AstPatV::Chain(c) => c,
                        _ => seq![*pattern],
                    });
                    match curry_v(args, ec, pattern.span) {
                        Err(e) => {
                            assert(lambda_v(no_rules, fuel, *pattern, *expression).result == Err::<
                                CstV,
                                SyntaxV,
                            >(e));
                        },
                        Ok(l) => {
                            assert(lambda_v(no_rules, fuel, *pattern, *expression).result == Ok::<
                                CstV,
                                SyntaxV,
                            >(l.item));
                        },
                    }
                },
            }
            assert(walk_v(no_rules, fuel, a).result == simple_v(a));
        },
        AstV::Print(e) => {
            lemma_macro_free_walk(fuel, *e);
            assert(walk_v(no_rules, fuel, a).result == simple_v(a));
        },
        AstV::Label(_, e) => {
            lemma_macro_free_walk(fuel, *e);
            assert(walk_v(no_rules, fuel, a).result == simple_v(a));
        },
        AstV::Data(_) => {
            assert(walk_v(no_rules, fuel, a).result == simple_v(a));
        },
        AstV::Pattern(_) => {
            assert(walk_v(no_rules, fuel, a).result == simple_v(a));
        },
        AstV::ArgPat(_) => {
            assert(walk_v(no_rules, fuel, a).result == simple_v(a));
        },
        AstV::Syntax { .. } => {
            assert(false);
        },
    }
}

/// Companion to `lemma_macro_free_walk` for block members.
proof fn lemma_macro_free_items(fuel: nat, b: Seq<Spanned<AstV>>)
    requires
        macro_free_seq(b),
    ensures
        block_items_v(Seq::empty(), fuel, b) == (ItemsV {
            result: simple_items_v(b),
            rules: Seq::<Spanned<RuleV>>::empty(),
        }),
    decreases 1 + ast_seq_height(b), 1int,
{
    if b.len() > 0 {
        lemma_ast_height_pos(b[0]);
        lemma_ast_seq_height_elem(b, 0);
        lemma_macro_free_walk(fuel, b[0]);
        match walk_v(Seq::<Spanned<RuleV>>::empty(), fuel, b[0]).result {
            Err(_) => {},
            Ok(_) => {
                lemma_macro_free_items(fuel, b.drop_first());
            },
        }
    }
}

/// Companion to `lemma_macro_free_walk` for the call builder.
proof fn lemma_macro_free_call(fuel: nat, f: Seq<Spanned<AstV>>)
    requires
        macro_free_seq(f),
    ensures
        call_v(Seq::empty(), fuel, f) == (StepV {
            result: simple_call_v(f),
            rules: Seq::<Spanned<RuleV>>::empty(),
        }),
    decreases ast_seq_height(f), 0int,
{
    let no_rules = Seq::<Spanned<RuleV>>::empty();
    if f.len() == 0 {
    } else if f.len() == 1 {
    } else if f.len() == 2 {
        lemma_ast_seq_height_elem(f, 0);
        lemma_ast_seq_height_elem(f, 1);
        assert(f.drop_first()[0] == f[1]);
        assert(macro_free(f[0]));
        assert(macro_free_seq(f.drop_first()) == (macro_free(f.drop_first()[0])
            && macro_free_seq(f.drop_first().drop_first())));
        assert(macro_free(f[1]));
        lemma_macro_free_walk(fuel, f[0]);
        match walk_v(no_rules, fuel, f[0]).result {
            Err(_) => {},
            Ok(_) => {
                lemma_macro_free_walk(fuel, f[1]);
            },
        }
    } else {
        lemma_ast_seq_height_drop_last(f);
        lemma_ast_height_pos(f.last());
        lemma_ast_seq_height_elem(f.drop_last(), 0);
        lemma_ast_height_pos(f.drop_last()[0]);
        lemma_macro_free_seq_last(f);
        lemma_macro_free_walk(fuel, f.last());
        match walk_v(no_rules, fuel, f.last()).result {
            Err(_) => {},
            Ok(_) => {
                lemma_macro_free_call(fuel, f.drop_last());
            },
        }
    }
}

/// A macro-free sequence is macro-free at its last member and at the
/// members before it.
proof fn lemma_macro_free_seq_last(f: Seq<Spanned<AstV>>)
    requires
        f.len() > 0,
        macro_free_seq(f),
    ensures
        macro_free(f.last()),
        macro_free_seq(f.drop_last()),
    decreases f.len(),
{
    if f.len() == 1 {
        assert(f.last() == f[0]);
        assert(f.drop_last() =~= Seq::<Spanned<AstV>>::empty());
    } else {
        lemma_macro_free_seq_last(f.drop_first());
        assert(f.drop_first().last() == f.last());
        assert(f.drop_last()[0] == f[0]);
        assert(f.drop_last().drop_first() =~= f.drop_first().drop_last());
    }
}


/// No `Form` and no bare symbol stands anywhere in the tree, so walking
/// it never consults the rules in scope.
pub open spec fn form_free(a: Spanned<AstV>) -> bool
    decreases a,
{
    match a.item {
        AstV::Symbol(_) => false,
        AstV::Data(_) => true,
        AstV::Block(b) => form_free_seq(b),
        AstV::Form(_) => false,
        AstV::Composition { argument, function } => form_free(*argument) && form_free(*function),
        AstV::Pattern(_) => true,
        AstV::ArgPat(_) => true,
        AstV::Syntax { .. } => true,
        AstV::Assign { expression, .. } => form_free(*expression),
        AstV::Lambda { expression, .. } => form_free(*expression),
        AstV::Print(e) => form_free(*e),
        AstV::Label(_, e) => form_free(*e),
    }
}

pub open spec fn form_free_seq(s: Seq<Spanned<AstV>>) -> bool
    decreases s,
{
    s.len() == 0 || (form_free(s[0]) && form_free_seq(s.drop_first()))
}

/// On a tree that never consults the rules, the walked value does not
/// depend on which rules are in scope (only the scope left behind does).
pub proof fn lemma_scope_blind_walk(
    r1: Seq<Spanned<RuleV>>,
    r2: Seq<Spanned<RuleV>>,
    fuel: nat,
    a: Spanned<AstV>,
)
    requires
        form_free(a),
    ensures
        walk_v(r1, fuel, a).result == walk_v(r2, fuel, a).result,
    decreases ast_height(a), 3int,
{
    match a.item {
        AstV::Block(b) => {
            lemma_scope_blind_items(r1, r2, fuel, b);
            assert(walk_v(r1, fuel, a).result == wrap(block_v(r1, fuel, b).result, a.span));
            assert(walk_v(r2, fuel, a).result == wrap(block_v(r2, fuel, b).result, a.span));
        },
        AstV::Composition { argument, function } => {
            lemma_scope_blind_walk(r1, r2, fuel, *function);
            assert(walk_v(r1, fuel, a).result == wrap(
                comp_v(r1, fuel, *argument, *function).result,
                a.span,
            ));
            assert(walk_v(r2, fuel, a).result == wrap(
                comp_v(r2, fuel, *argument, *function).result,
                a.span,
            ));
            match walk_v(r1, fuel, *function).result {
                Err(_) => {},
                Ok(_) => {
                    lemma_scope_blind_walk(walk_v(r1, fuel, *function).rules, walk_v(
                        r2,
                        fuel,
                        *function,
                    ).rules, fuel, *argument);
                },
            }
        },
        AstV::Syntax { arg_pat, expression } => {
            assert(walk_v(r1, fuel, a).result == wrap(
                rule_step_v(r1, *arg_pat, *expression).result,
                a.span,
            ));
            assert(walk_v(r2, fuel, a).result == wrap(
                rule_step_v(r2, *arg_pat, *expression).result,
                a.span,
            ));
        },
        AstV::Assign { pattern, expression } => {
            assert(walk_v(r1, fuel, a).result == wrap(
                assign_v(r1, fuel, *pattern, *expression).result,
                a.span,
            ));
            assert(walk_v(r2, fuel, a).result == wrap(
                assign_v(r2, fuel, *pattern, *expression).result,
                a.span,
            ));
            match lower_pat_v(*pattern) {
                None => {},
                Some(_) => {
                    lemma_scope_blind_walk(r1, r2, fuel, *expression);
                },
            }
        },
        AstV::Lambda { pattern, expression } => {
            lemma_scope_blind_walk(r1, r2, fuel, *expression);
            assert(walk_v(r1, fuel, a).result == wrap(
                lambda_v(r1, fuel, *pattern, *expression).result,
                a.span,
            ));
            assert(walk_v(r2, fuel, a).result == wrap(
                lambda_v(r2, fuel, *pattern, *expression).result,
                a.span,
            ));
        },
        AstV::Print(e) => {
            lemma_scope_blind_walk(r1, r2, fuel, *e);
        },
        AstV::Label(_, e) => {
            lemma_scope_blind_walk(r1, r2, fuel, *e);
        },
        _ => {},
    }
}

/// Companion to `lemma_scope_blind_walk` for block members.
proof fn lemma_scope_blind_items(
    r1: Seq<Spanned<RuleV>>,
    r2: Seq<Spanned<RuleV>>,
    fuel: nat,
    b: Seq<Spanned<AstV>>,
)
    requires
        form_free_seq(b),
    ensures
        ({
            let o1 = block_items_v(r1, fuel, b);
            let o2 = block_items_v(r2, fuel, b);
            o1.result == o2.result
        }),
    decreases 1 + ast_seq_height(b), 1int,
{
    if b.len() > 0 {
        lemma_ast_height_pos(b[0]);
        lemma_ast_seq_height_elem(b, 0);
        lemma_scope_blind_walk(r1, r2, fuel, b[0]);
        match walk_v(r1, fuel, b[0]).result {
            Err(_) => {},
            Ok(_) => {
                lemma_scope_blind_items(walk_v(r1, fuel, b[0]).rules, walk_v(
                    r2,
                    fuel,
                    b[0],
                ).rules, fuel, b.drop_first());
            },
        }
    }
}

/// Walking a block whose members are split in two halves walks the first
/// half, then the second from the scope the first one left.
pub proof fn lemma_block_items_append(
    rules: Seq<Spanned<RuleV>>,
    fuel: nat,
    s1: Seq<Spanned<AstV>>,
    s2: Seq<Spanned<AstV>>,
)
    ensures
        block_items_v(rules, fuel, s1 + s2) == ({
            let first = block_items_v(rules, fuel, s1);
            match first.result {
                Err(e) => ItemsV { result: Err(e), rules: first.rules },
                Ok(items1) => {
                    let second = block_items_v(first.rules, fuel, s2);
                    ItemsV {
                        result: match second.result {
                            Err(e) => Err(e),
                            Ok(items2) => Ok(items1 + items2),
                        },
                        rules: second.rules,
                    }
                },
            }
        }),
    decreases s1.len(),
{
    if s1.len() == 0 {
        assert(s1 + s2 =~= s2);
        assert(block_items_v(rules, fuel, s1).result == Ok::<Seq<Spanned<CstV>>, SyntaxV>(
            Seq::empty(),
        ));
        match block_items_v(rules, fuel, s2).result {
            Err(_) => {},
            Ok(items2) => {
                assert(Seq::<Spanned<CstV>>::empty() + items2 =~= items2);
            },
        }
    } else {
        assert((s1 + s2)[0] == s1[0]);
        assert((s1 + s2).len() > 0);
        assert((s1 + s2).drop_first() =~= s1.drop_first() + s2);
        match walk_v(rules, fuel, (s1 + s2)[0]).result {
            Err(_) => {},
            Ok(c) => {
                let mid = walk_v(rules, fuel, s1[0]).rules;
                lemma_block_items_append(mid, fuel, s1.drop_first(), s2);
                match block_items_v(mid, fuel, s1.drop_first()).result {
                    Err(_) => {},
                    Ok(items1) => {
                        match block_items_v(
                            block_items_v(mid, fuel, s1.drop_first()).rules,
                            fuel,
                            s2,
                        ).result {
                            Err(_) => {},
                            Ok(items2) => {
                                assert(seq![c] + (items1 + items2) =~= (seq![c] + items1)
                                    + items2);
                            },
                        }
                    },
                }
            },
        }
    }
}

/// Rule-definition idempotence at the value level: a macro definition's
/// own value is an empty block with the definition's span, exactly what
/// an empty block standing in its place yields.
pub proof fn lemma_rule_definition_value(
    rules: Seq<Spanned<RuleV>>,
    fuel: nat,
    arg_pat: Spanned<ArgPatV>,
    tree: Spanned<AstV>,
    span: Span,
)
    requires
        rule_new_v(arg_pat, tree) is Ok,
    ensures
        walk_v(
            rules,
            fuel,
            Spanned {
                item: AstV::Syntax { arg_pat: Box::new(arg_pat), expression: Box::new(tree) },
                span,
            },
        ).result == Ok::<Spanned<CstV>, SyntaxV>(
            Spanned { item: CstV::Block(Seq::empty()), span },
        ),
        walk_v(rules, fuel, Spanned { item: AstV::Block(Seq::empty()), span }).result == Ok::<
            Spanned<CstV>,
            SyntaxV,
        >(Spanned { item: CstV::Block(Seq::empty()), span }),
{
    let node = Spanned {
        item: AstV::Syntax { arg_pat: Box::new(arg_pat), expression: Box::new(tree) },
        span,
    };
    assert(walk_v(rules, fuel, node).result == wrap(
        rule_step_v(rules, arg_pat, tree).result,
        span,
    ));
    let blk = Spanned { item: AstV::Block(Seq::<Spanned<AstV>>::empty()), span };
    assert(walk_v(rules, fuel, blk).result == wrap(
        block_v(rules, fuel, Seq::<Spanned<AstV>>::empty()).result,
        span,
    ));
    assert(block_items_v(rules, fuel, Seq::<Spanned<AstV>>::empty()).result == Ok::<
        Seq<Spanned<CstV>>,
        SyntaxV,
    >(Seq::empty()));
}

/// Rule-definition idempotence inside a block: replacing a valid macro
/// definition with an empty block changes nothing about the block's
/// value, as long as the members after it never consult the rules.
pub proof fn lemma_rule_definition_idempotent(
    rules: Seq<Spanned<RuleV>>,
    fuel: nat,
    before: Seq<Spanned<AstV>>,
    arg_pat: Spanned<ArgPatV>,
    tree: Spanned<AstV>,
    dspan: Span,
    after: Seq<Spanned<AstV>>,
    span: Span,
)
    requires
        rule_new_v(arg_pat, tree) is Ok,
        form_free_seq(after),
    ensures
        ({
            let def = Spanned {
                item: AstV::Syntax { arg_pat: Box::new(arg_pat), expression: Box::new(tree) },
                span: dspan,
            };
            let hole = Spanned { item: AstV::Block(Seq::<Spanned<AstV>>::empty()), span: dspan };
            walk_v(
                rules,
                fuel,
                Spanned { item: AstV::Block(before + seq![def] + after), span },
            ).result == walk_v(
                rules,
                fuel,
                Spanned { item: AstV::Block(before + seq![hole] + after), span },
            ).result
        }),
{
    let def = Spanned {
        item: AstV::Syntax { arg_pat: Box::new(arg_pat), expression: Box::new(tree) },
        span: dspan,
    };
    let hole = Spanned { item: AstV::Block(Seq::<Spanned<AstV>>::empty()), span: dspan };
    let tail_d = seq![def] + after;
    let tail_h = seq![hole] + after;
    assert(before + seq![def] + after =~= before + tail_d);
    assert(before + seq![hole] + after =~= before + tail_h);
    lemma_block_items_append(rules, fuel, before, tail_d);
    lemma_block_items_append(rules, fuel, before, tail_h);
    let first = block_items_v(rules, fuel, before);
    match first.result {
        Err(_) => {},
        Ok(_) => {
            let mid = first.rules;
            lemma_rule_definition_value(mid, fuel, arg_pat, tree, dspan);
            assert(tail_d[0] == def);
            assert(tail_h[0] == hole);
            assert(tail_d.drop_first() =~= after);
            assert(tail_h.drop_first() =~= after);
            let rd = walk_v(mid, fuel, def).rules;
            let rh = walk_v(mid, fuel, hole).rules;
            lemma_scope_blind_items(rd, rh, fuel, after);
        },
    }
    assert(walk_v(rules, fuel, Spanned { item: AstV::Block(before + tail_d), span }).result
        == wrap(block_v(rules, fuel, before + tail_d).result, span));
    assert(walk_v(rules, fuel, Spanned { item: AstV::Block(before + tail_h), span }).result
        == wrap(block_v(rules, fuel, before + tail_h).result, span));
}


/// Determinism, stated on the budget alone: on a macro-free tree the
/// expansion budget can never be spent, so walks under any two budgets
/// agree completely.
pub proof fn lemma_macro_free_fuel_irrelevant(fuel1: nat, fuel2: nat, a: Spanned<AstV>)
    requires
        macro_free(a),
    ensures
        walk_v(Seq::empty(), fuel1, a) == walk_v(Seq::empty(), fuel2, a),
{
    lemma_macro_free_walk(fuel1, a);
    lemma_macro_free_walk(fuel2, a);
}

} // verus!



