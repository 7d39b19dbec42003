//! The desugaring walker and its mathematical model.
//!
//! `Transformer::walk` turns one loose tree into one tight tree, keeping an
//! ordered list of macro rules as it goes: every `Syntax` definition it
//! passes is appended, every `Form` (and every bare symbol) is first held
//! against the rules in scope.  The whole walk is modelled by the spec
//! functions below (`walk_v` and its companions); each executable method is
//! proved equal to its model.
//!
//! Two policies the model makes explicit:
//! - Macro expansion re-enters the walker, so a self-producing rule could
//!   recurse forever.  The walker therefore carries an expansion-depth
//!   budget, spent only when a rule fires; plain structural descent is
//!   never charged, so a tree with no macros desugars whatever the budget,
//!   and an over-deep expansion fails with a `DepthLimit` error.
//! - The rules' pseudokeywords are not gathered up front; matching alone
//!   decides whether a form is a macro invocation.

use vstd::prelude::*;

use crate::ast::{
    AST, ASTPattern, ArgPat, AstV, AstPatV, ArgPatV, ast_view, ast_seq_view, arg_pat_view, ast_height, ast_seq_height,
    lemma_ast_height_pos, lemma_ast_seq_height_elem, lemma_ast_seq_height_drop_last,
    lemma_ast_seq_view_len, lemma_ast_seq_view_index, lemma_ast_seq_view_push,
    dup_spanned_ast,
};
use crate::cst::{
    CST, CstV, CSTPattern, cst_view, cst_item_view, cst_seq_view, lower_pat_v, lower_pattern,
    lemma_cst_seq_view_push,
};
use crate::rule::{
    Rule, RuleV, Bindings, BindsV, rule_view, binds_view, bind_v, pat_wf, first_dup, binders_of,
    keywords_of, expand_v,
};
use crate::span::{Span, Spanned, spec_combine, spec_join};
use crate::syntax::{Reason, ReasonV, Syntax, SyntaxV, syntax_view};

verus! {

/// The model of a rule list.
pub open spec fn rules_view(rs: Seq<Spanned<Rule>>) -> Seq<Spanned<RuleV>> {
    rs.map_values(|r: Spanned<Rule>| Spanned { item: rule_view(r.item), span: r.span })
}

/// The model of the candidate list the form reducer gathers.
pub open spec fn cands_exec_view(v: Seq<(usize, Bindings)>) -> Seq<(int, BindsV)> {
    v.map_values(|pr: (usize, Bindings)| (pr.0 as int, binds_view(pr.1.pairs@)))
}

/// What walking a whole node yields: the spanned result and the rules in
/// scope afterwards.
pub struct WalkV {
    pub result: Result<Spanned<CstV>, SyntaxV>,
    pub rules: Seq<Spanned<RuleV>>,
}

/// What a lowering helper yields: the bare result and the rules in scope
/// afterwards.
pub struct StepV {
    pub result: Result<CstV, SyntaxV>,
    pub rules: Seq<Spanned<RuleV>>,
}

/// What walking the members of a block yields.
pub struct ItemsV {
    pub result: Result<Seq<Spanned<CstV>>, SyntaxV>,
    pub rules: Seq<Spanned<RuleV>>,
}

/// The model of a result of `walk`.
pub open spec fn res_view(r: Result<Spanned<CST>, Syntax>) -> Result<Spanned<CstV>, SyntaxV> {
    match r {
        Ok(c) => Ok(cst_view(c)),
        Err(e) => Err(syntax_view(e)),
    }
}

/// The model of a result of a lowering helper.
pub open spec fn step_view(r: Result<CST, Syntax>) -> Result<CstV, SyntaxV> {
    match r {
        Ok(c) => Ok(cst_item_view(c)),
        Err(e) => Err(syntax_view(e)),
    }
}

/// The spans of a form's members, in order.
pub open spec fn spans_of(f: Seq<Spanned<AstV>>) -> Seq<Span> {
    f.map_values(|x: Spanned<AstV>| x.span)
}

/// The bindings under which `r` consumes the whole form, when it does.
pub open spec fn full_match(r: RuleV, f: Seq<Spanned<AstV>>) -> Option<BindsV> {
    match bind_v(r.arg_pat, f) {
        Some(pr) => if pr.1.len() == 0 {
            Some(pr.0)
        } else {
            None
        },
        None => None,
    }
}

/// The rules among the first `n` that consume the whole form, as pairs of
/// rule index and the bindings they made, in definition order.
pub open spec fn cands_upto(
    rules: Seq<Spanned<RuleV>>,
    f: Seq<Spanned<AstV>>,
    n: int,
) -> Seq<(int, BindsV)>
    decreases n,
{
    if n <= 0 {
        Seq::empty()
    } else {
        cands_upto(rules, f, n - 1) + (match full_match(rules[n - 1].item, f) {
            Some(b) => seq![(n - 1, b)],
            None => Seq::<(int, BindsV)>::empty(),
        })
    }
}

/// Validating a macro definition: the first repeated binder name is
/// refused, then a signature with no pseudokeyword at all.
pub open spec fn rule_new_v(pat: Spanned<ArgPatV>, tree: Spanned<AstV>) -> Result<
    RuleV,
    SyntaxV,
> {
    match first_dup(binders_of(pat)) {
        Some(n) => Err(SyntaxV { reason: ReasonV::DuplicateBinder(n), span: pat.span }),
        None => {
            if keywords_of(pat).len() == 0 {
                Err(SyntaxV { reason: ReasonV::KeywordlessMacro, span: pat.span })
            } else {
                Ok(RuleV { arg_pat: pat, tree })
            }
        },
    }
}

/// Currying: wraps `acc` in one lambda per pattern, last pattern
/// innermost, each wrapper spanning its pattern and its body together.  A
/// pattern that will not lower fails at `errspan`.
pub open spec fn curry_v(
    args: Seq<Spanned<AstPatV>>,
    acc: Spanned<CstV>,
    errspan: Span,
) -> Result<Spanned<CstV>, SyntaxV>
    decreases args.len(),
{
    if args.len() == 0 {
        Ok(acc)
    } else {
        match lower_pat_v(args.last()) {
            None => Err(SyntaxV { reason: ReasonV::UnliftablePattern, span: errspan }),
            Some(cp) => curry_v(
                args.drop_last(),
                Spanned {
                    item: CstV::Lambda { pattern: Box::new(cp), expression: Box::new(acc) },
                    span: spec_combine(cp.span, acc.span),
                },
                errspan,
            ),
        }
    }
}

/// The model of walking one node: the result carries the node's own span.
pub open spec fn walk_v(rules: Seq<Spanned<RuleV>>, fuel: nat, a: Spanned<AstV>) -> WalkV
    decreases fuel, ast_height(a), 3int,
        via walk_v_decreases
{
    match a.item {
        AstV::Symbol(_) => {
            let st = form_v(rules, fuel, seq![a]);
            WalkV { result: wrap(st.result, a.span), rules: st.rules }
        },
        AstV::Data(d) => WalkV {
            result: Ok(Spanned { item: CstV::Data(d), span: a.span }),
            rules,
        },
        AstV::Block(b) => {
            let st = block_v(rules, fuel, b);
            WalkV { result: wrap(st.result, a.span), rules: st.rules }
        },
        AstV::Form(f) => {
            let st = form_v(rules, fuel, f);
            WalkV { result: wrap(st.result, a.span), rules: st.rules }
        },
        AstV::Composition { argument, function } => {
            let st = comp_v(rules, fuel, *argument, *function);
            WalkV { result: wrap(st.result, a.span), rules: st.rules }
        },
        AstV::Pattern(_) => WalkV {
            result: Err(SyntaxV { reason: ReasonV::UnexpectedPattern, span: a.span }),
            rules,
        },
        AstV::ArgPat(_) => WalkV {
            result: Err(SyntaxV { reason: ReasonV::UnexpectedArgPattern, span: a.span }),
            rules,
        },
        AstV::Syntax { arg_pat, expression } => {
            let st = rule_step_v(rules, *arg_pat, *expression);
            WalkV { result: wrap(st.result, a.span), rules: st.rules }
        },
        AstV::Assign { pattern, expression } => {
            let st = assign_v(rules, fuel, *pattern, *expression);
            WalkV { result: wrap(st.result, a.span), rules: st.rules }
        },
        AstV::Lambda { pattern, expression } => {
            let st = lambda_v(rules, fuel, *pattern, *expression);
            WalkV { result: wrap(st.result, a.span), rules: st.rules }
        },
        AstV::Print(e) => {
            let we = walk_v(rules, fuel, *e);
            match we.result {
                Err(err) => WalkV { result: Err(err), rules: we.rules },
                Ok(ec) => WalkV {
                    result: Ok(
                        Spanned { item: CstV::Print(Box::new(ec)), span: a.span },
                    ),
                    rules: we.rules,
                },
            }
        },
        AstV::Label(n, e) => {
            let we = walk_v(rules, fuel, *e);
            match we.result {
                Err(err) => WalkV { result: Err(err), rules: we.rules },
                Ok(ec) => WalkV {
                    result: Ok(
                        Spanned { item: CstV::Label(n, Box::new(ec)), span: a.span },
                    ),
                    rules: we.rules,
                },
            }
        },
    }
}

/// Re-attaches a node span to a helper's bare result.
pub open spec fn wrap(r: Result<CstV, SyntaxV>, span: Span) -> Result<Spanned<CstV>, SyntaxV> {
    match r {
        Ok(c) => Ok(Spanned { item: c, span }),
        Err(e) => Err(e),
    }
}

#[via_fn]
proof fn walk_v_decreases(rules: Seq<Spanned<RuleV>>, fuel: nat, a: Spanned<AstV>) {
    match a.item {
        AstV::Symbol(_) => {
            assert(seq![a].drop_first() =~= Seq::<Spanned<AstV>>::empty());
            assert(seq![a].len() == 1);
            assert(seq![a][0] == a);
            assert(ast_seq_height(seq![a]) == ast_height(seq![a][0]) + ast_seq_height(
                seq![a].drop_first(),
            ));
            assert(ast_seq_height(seq![a]) == ast_height(a));
        },
        _ => {},
    }
}

/// The model of lowering a composition: the function side is walked
/// first, then the argument, and the two become one binary call.
pub open spec fn comp_v(
    rules: Seq<Spanned<RuleV>>,
    fuel: nat,
    argument: Spanned<AstV>,
    function: Spanned<AstV>,
) -> StepV
    decreases fuel, 1 + ast_height(argument) + ast_height(function), 2int,
{
    let wf = walk_v(rules, fuel, function);
    match wf.result {
        Err(e) => StepV { result: Err(e), rules: wf.rules },
        Ok(fc) => {
            let wa = walk_v(wf.rules, fuel, argument);
            match wa.result {
                Err(e) => StepV { result: Err(e), rules: wa.rules },
                Ok(ac) => StepV {
                    result: Ok(
                        CstV::Call { function: Box::new(fc), argument: Box::new(ac) },
                    ),
                    rules: wa.rules,
                },
            }
        },
    }
}

/// The model of lowering a block: members walked in order.
pub open spec fn block_v(rules: Seq<Spanned<RuleV>>, fuel: nat, b: Seq<Spanned<AstV>>) -> StepV
    decreases fuel, 1 + ast_seq_height(b), 2int,
{
    let bi = block_items_v(rules, fuel, b);
    StepV {
        result: match bi.result {
            Ok(items) => Ok(CstV::Block(items)),
            Err(e) => Err(e),
        },
        rules: bi.rules,
    }
}

/// The model of a rule definition: the validated rule is appended to the
/// scope and an empty block is left as the definition's value.
pub open spec fn rule_step_v(
    rules: Seq<Spanned<RuleV>>,
    arg_pat: Spanned<ArgPatV>,
    tree: Spanned<AstV>,
) -> StepV {
    match rule_new_v(arg_pat, tree) {
        Err(e) => StepV { result: Err(e), rules },
        Ok(rv) => StepV {
            result: Ok(CstV::Block(Seq::empty())),
            rules: rules.push(Spanned { item: rv, span: arg_pat.span }),
        },
    }
}

/// The model of lowering an assignment: the pattern is lowered first,
/// failing at its own span, then the expression is walked.
pub open spec fn assign_v(
    rules: Seq<Spanned<RuleV>>,
    fuel: nat,
    pattern: Spanned<AstPatV>,
    expression: Spanned<AstV>,
) -> StepV
    decreases fuel, 1 + ast_height(expression), 2int,
{
    match lower_pat_v(pattern) {
        None => StepV {
            result: Err(SyntaxV { reason: ReasonV::UnliftablePattern, span: pattern.span }),
            rules,
        },
        Some(cp) => {
            let we = walk_v(rules, fuel, expression);
            match we.result {
                Err(e) => StepV { result: Err(e), rules: we.rules },
                Ok(ec) => StepV {
                    result: Ok(
                        CstV::Assign { pattern: Box::new(cp), expression: Box::new(ec) },
                    ),
                    rules: we.rules,
                },
            }
        },
    }
}

/// The model of lowering a lambda: the body is walked, then a `Chain`
/// pattern is treated as an argument list and curried right to left; any
/// pattern that will not lower fails at the whole pattern's span.
pub open spec fn lambda_v(
    rules: Seq<Spanned<RuleV>>,
    fuel: nat,
    pattern: Spanned<AstPatV>,
    expression: Spanned<AstV>,
) -> StepV
    decreases fuel, 1 + ast_height(expression), 2int,
{
    let we = walk_v(rules, fuel, expression);
    match we.result {
        Err(e) => StepV { result: Err(e), rules: we.rules },
        Ok(ec) => {
            let args = match pattern.item {
                AstPatV::Chain(c) => c,
                _ => seq![pattern],
            };
            match curry_v(args, ec, pattern.span) {
                Err(e) => StepV { result: Err(e), rules: we.rules },
                Ok(l) => StepV { result: Ok(l.item), rules: we.rules },
            }
        },
    }
}

/// The model of walking each member of a block, in order, threading the
/// rule list through.
pub open spec fn block_items_v(
    rules: Seq<Spanned<RuleV>>,
    fuel: nat,
    b: Seq<Spanned<AstV>>,
) -> ItemsV
    decreases fuel, 1 + ast_seq_height(b), 1int,
        via block_items_v_decreases
{
    if b.len() == 0 {
        ItemsV { result: Ok(Seq::empty()), rules }
    } else {
        let w = walk_v(rules, fuel, b[0]);
        match w.result {
            Err(e) => ItemsV { result: Err(e), rules: w.rules },
            Ok(c) => {
                let rest = block_items_v(w.rules, fuel, b.drop_first());
                match rest.result {
                    Err(e) => ItemsV { result: Err(e), rules: rest.rules },
                    Ok(items) => ItemsV {
                        result: Ok(seq![c] + items),
                        rules: rest.rules,
                    },
                }
            },
        }
    }
}

#[via_fn]
proof fn block_items_v_decreases(rules: Seq<Spanned<RuleV>>, fuel: nat, b: Seq<Spanned<AstV>>) {
    if b.len() > 0 {
        lemma_ast_height_pos(b[0]);
        lemma_ast_seq_height_elem(b, 0);
    }
}

/// The model of reducing a form: all fully matching rules are gathered;
/// none means a plain call, exactly one fires and its expansion is walked
/// again on a smaller budget, several is an ambiguity error naming every
/// matching rule's span.
pub open spec fn form_v(rules: Seq<Spanned<RuleV>>, fuel: nat, f: Seq<Spanned<AstV>>) -> StepV
    decreases fuel, ast_seq_height(f), 1int,
{
    let cs = cands_upto(rules, f, rules.len() as int);
    if cs.len() == 0 {
        call_v(rules, fuel, f)
    } else if cs.len() == 1 {
        if fuel == 0 {
            StepV {
                result: Err(
                    SyntaxV { reason: ReasonV::DepthLimit, span: spec_join(spans_of(f)) },
                ),
                rules,
            }
        } else {
            let w = walk_v(rules, (fuel - 1) as nat, expand_v(rules[cs[0].0].item.tree, cs[0].1));
            StepV {
                result: match w.result {
                    Ok(c) => Ok(c.item),
                    Err(e) => Err(e),
                },
                rules: w.rules,
            }
        }
    } else {
        StepV {
            result: Err(
                SyntaxV {
                    reason: ReasonV::AmbiguousMacro(
                        cs.map_values(|pr: (int, BindsV)| rules[pr.0].span),
                    ),
                    span: spec_join(spans_of(f)),
                },
            ),
            rules,
        }
    }
}

/// The model of folding a plain call: a lone symbol stands for itself, a
/// longer form nests left-associatively, every synthetic prefix node
/// spanning the members it covers.
pub open spec fn call_v(rules: Seq<Spanned<RuleV>>, fuel: nat, f: Seq<Spanned<AstV>>) -> StepV
    decreases fuel, ast_seq_height(f), 0int,
        via call_v_decreases
{
    if f.len() == 0 {
        StepV {
            result: Err(
                SyntaxV { reason: ReasonV::EmptyForm, span: Span { start: 0, end: 0 } },
            ),
            rules,
        }
    } else if f.len() == 1 {
        match f[0].item {
            AstV::Symbol(n) => StepV { result: Ok(CstV::Symbol(n)), rules },
            _ => StepV {
                result: Err(
                    SyntaxV { reason: ReasonV::UncallableForm, span: f[0].span },
                ),
                rules,
            },
        }
    } else if f.len() == 2 {
        let w1 = walk_v(rules, fuel, f[0]);
        match w1.result {
            Err(e) => StepV { result: Err(e), rules: w1.rules },
            Ok(fc) => {
                let w2 = walk_v(w1.rules, fuel, f[1]);
                match w2.result {
                    Err(e) => StepV { result: Err(e), rules: w2.rules },
                    Ok(ac) => StepV {
                        result: Ok(
                            CstV::Call { function: Box::new(fc), argument: Box::new(ac) },
                        ),
                        rules: w2.rules,
                    },
                }
            },
        }
    } else {
        let wa = walk_v(rules, fuel, f.last());
        match wa.result {
            Err(e) => StepV { result: Err(e), rules: wa.rules },
            Ok(ac) => {
                let pc = call_v(wa.rules, fuel, f.drop_last());
                match pc.result {
                    Err(e) => StepV { result: Err(e), rules: pc.rules },
                    Ok(pcv) => StepV {
                        result: Ok(
                            CstV::Call {
                                function: Box::new(
                                    Spanned {
                                        item: pcv,
                                        span: spec_join(spans_of(f.drop_last())),
                                    },
                                ),
                                argument: Box::new(ac),
                            },
                        ),
                        rules: pc.rules,
                    },
                }
            },
        }
    }
}

#[via_fn]
proof fn call_v_decreases(rules: Seq<Spanned<RuleV>>, fuel: nat, f: Seq<Spanned<AstV>>) {
    if f.len() == 2 {
        lemma_ast_seq_height_elem(f, 0);
        lemma_ast_seq_height_elem(f, 1);
    } else if f.len() >= 3 {
        lemma_ast_seq_height_drop_last(f);
        lemma_ast_height_pos(f.last());
        lemma_ast_seq_height_elem(f.drop_last(), 0);
        lemma_ast_height_pos(f.drop_last()[0]);
    }
}


/// All candidate indices point into the first `n` rules.
pub proof fn lemma_cands_upto_bounds(
    rules: Seq<Spanned<RuleV>>,
    f: Seq<Spanned<AstV>>,
    n: int,
)
    ensures
        forall|k: int|
            0 <= k < cands_upto(rules, f, n).len() ==> 0 <= #[trigger] cands_upto(
                rules,
                f,
                n,
            )[k].0 < n,
    decreases n,
{
    if n > 0 {
        lemma_cands_upto_bounds(rules, f, n - 1);
        let pre = cands_upto(rules, f, n - 1);
        assert forall|k: int|
            0 <= k < cands_upto(rules, f, n).len() implies 0 <= #[trigger] cands_upto(
            rules,
            f,
            n,
        )[k].0 < n by {
            if k < pre.len() {
                assert(cands_upto(rules, f, n)[k] == pre[k]);
            }
        }
    }
}

/// How many expansions may nest before the walker gives up.
pub const EXPANSION_DEPTH: u64 = 256;

/// Desugars one loose tree with a fresh rule scope.
pub fn desugar(ast: Spanned<AST>) -> (r: Result<Spanned<CST>, Syntax>)
    ensures
        res_view(r) == walk_v(Seq::empty(), EXPANSION_DEPTH as nat, ast_view(ast)).result,
{
    let mut transformer = Transformer::new();
    let cst = transformer.walk(ast);
    cst
}

/// Applies compile-time transformations to the loose tree: macro
/// expansion against the rules met so far, and the structural lowerings.
#[derive(Debug)]
pub struct Transformer {
    pub rules: Vec<Spanned<Rule>>,
    pub depth: u64,
}

impl Transformer {
    /// The rules in scope, as the model sees them.
    pub open spec fn rules_v(self) -> Seq<Spanned<RuleV>> {
        rules_view(self.rules@)
    }

    /// Every rule in scope went through `Rule::new`: its signature binds
    /// each variable once and holds a pseudokeyword.
    pub open spec fn wf(self) -> bool {
        forall|i: int|
            0 <= i < self.rules@.len() ==> pat_wf(
                arg_pat_view(#[trigger] self.rules@[i].item.arg_pat),
            )
    }

    /// A transformer with no rules in scope and a full expansion budget.
    pub fn new() -> (t: Transformer)
        ensures
            t.rules_v() == Seq::<Spanned<RuleV>>::empty(),
            t.depth == EXPANSION_DEPTH,
            t.wf(),
    {
        let t = Transformer { rules: Vec::new(), depth: EXPANSION_DEPTH };
        proof {
            assert(t.rules_v() =~= Seq::<Spanned<RuleV>>::empty());
        }
        t
    }

    /// Desugars one loose tree into a tight one; the result keeps the
    /// input's span.  Rules defined inside the tree stay in scope.
    pub fn walk(&mut self, ast: Spanned<AST>) -> (r: Result<Spanned<CST>, Syntax>)
        requires
            old(self).wf(),
        ensures
            final(self).wf(),
            final(self).depth == old(self).depth,
            ({
                let o = walk_v(old(self).rules_v(), old(self).depth as nat, ast_view(ast));
                res_view(r) == o.result && final(self).rules_v() == o.rules
            }),
        decreases old(self).depth, ast_height(ast_view(ast)), 3int,
    {
        let span = ast.span;
        match ast.item {
            AST::Symbol(n) => {
                let node = Spanned { item: AST::Symbol(n), span };
                proof {
                    assert(ast_view(node) == ast_view(Spanned { item: ast.item, span }));
                }
                match self.symbol(node) {
                    Err(e) => Err(e),
                    Ok(c) => Ok(Spanned { item: c, span }),
                }
            },
            AST::Data(d) => Ok(Spanned { item: CST::Data(d), span }),
            AST::Block(b) => match self.block(b) {
                Err(e) => Err(e),
                Ok(c) => Ok(Spanned { item: c, span }),
            },
            AST::Form(f) => match self.form(f) {
                Err(e) => Err(e),
                Ok(c) => Ok(Spanned { item: c, span }),
            },
            AST::Composition { argument, function } => match self.composition(
                *argument,
                *function,
            ) {
                Err(e) => Err(e),
                Ok(c) => Ok(Spanned { item: c, span }),
            },
            AST::Pattern(_) => Err(Syntax::error(Reason::UnexpectedPattern, &span)),
            AST::ArgPat(_) => Err(Syntax::error(Reason::UnexpectedArgPattern, &span)),
            AST::Syntax { arg_pat, expression } => match self.rule(*arg_pat, *expression) {
                Err(e) => Err(e),
                Ok(c) => Ok(Spanned { item: c, span }),
            },
            AST::Assign { pattern, expression } => match self.assign(*pattern, *expression) {
                Err(e) => Err(e),
                Ok(c) => Ok(Spanned { item: c, span }),
            },
            AST::Lambda { pattern, expression } => match self.lambda(*pattern, *expression) {
                Err(e) => Err(e),
                Ok(c) => Ok(Spanned { item: c, span }),
            },
            AST::Print(e) => match self.walk(*e) {
                Err(err) => Err(err),
                Ok(ec) => Ok(Spanned { item: CST::Print(Box::new(ec)), span }),
            },
            AST::Label(n, e) => match self.walk(*e) {
                Err(err) => Err(err),
                Ok(ec) => Ok(Spanned { item: CST::Label(n, Box::new(ec)), span }),
            },
        }
    }

    /// A bare symbol runs through the form reducer as a one-element form,
    /// so that it can invoke a rule whose signature is one pseudokeyword.
    pub fn symbol(&mut self, ast: Spanned<AST>) -> (r: Result<CST, Syntax>)
        requires
            old(self).wf(),
        ensures
            final(self).wf(),
            final(self).depth == old(self).depth,
            ({
                let o = form_v(old(self).rules_v(), old(self).depth as nat, seq![ast_view(ast)]);
                step_view(r) == o.result && final(self).rules_v() == o.rules
            }),
        decreases old(self).depth, ast_height(ast_view(ast)), 2int,
    {
        let ghost av = ast_view(ast);
        let mut v: Vec<Spanned<AST>> = Vec::new();
        v.push(ast);
        proof {
            assert(v@ =~= seq![ast]);
            assert(v@[0] == ast);
            assert(v@.drop_first() =~= Seq::<Spanned<AST>>::empty());
            assert(ast_seq_view(v@) == seq![ast_view(v@[0])] + ast_seq_view(v@.drop_first()));
            assert(ast_seq_view(v@) =~= seq![av]);
            assert(seq![av].drop_first() =~= Seq::<Spanned<AstV>>::empty());
            assert(ast_seq_height(seq![av]) == ast_height(seq![av][0]) + ast_seq_height(
                seq![av].drop_first(),
            ));
            assert(ast_seq_height(seq![av]) == ast_height(av));
        }
        self.form(v)
    }

    /// Desugars a composition `argument |> function` into one binary call
    /// of the function to the argument.
    pub fn composition(&mut self, argument: Spanned<AST>, function: Spanned<AST>) -> (r: Result<
        CST,
        Syntax,
    >)
        requires
            old(self).wf(),
        ensures
            final(self).wf(),
            final(self).depth == old(self).depth,
            ({
                let o = comp_v(
                    old(self).rules_v(),
                    old(self).depth as nat,
                    ast_view(argument),
                    ast_view(function),
                );
                step_view(r) == o.result && final(self).rules_v() == o.rules
            }),
        decreases old(self).depth, 1 + ast_height(ast_view(argument)) + ast_height(
            ast_view(function),
        ), 2int,
    {
        let fc = match self.walk(function) {
            Err(e) => {
                return Err(e);
            },
            Ok(c) => c,
        };
        let ac = match self.walk(argument) {
            Err(e) => {
                return Err(e);
            },
            Ok(c) => c,
        };
        Ok(CST::call(fc, ac))
    }

    /// Desugars an assignment: the pattern is lowered at its own span,
    /// then the bound expression is walked.
    pub fn assign(&mut self, p: Spanned<ASTPattern>, e: Spanned<AST>) -> (r: Result<CST, Syntax>)
        requires
            old(self).wf(),
        ensures
            final(self).wf(),
            final(self).depth == old(self).depth,
            ({
                let o = assign_v(
                    old(self).rules_v(),
                    old(self).depth as nat,
                    crate::ast::pat_view(p),
                    ast_view(e),
                );
                step_view(r) == o.result && final(self).rules_v() == o.rules
            }),
        decreases old(self).depth, 1 + ast_height(ast_view(e)), 2int,
    {
        let p_span = p.span;
        let cp = match lower_pattern(&p) {
            None => {
                return Err(Syntax::error(Reason::UnliftablePattern, &p_span));
            },
            Some(c) => c,
        };
        let ec = match self.walk(e) {
            Err(err) => {
                return Err(err);
            },
            Ok(c) => c,
        };
        Ok(CST::assign(cp, ec))
    }

    /// Registers a macro definition and leaves an empty block behind as
    /// its value.
    pub fn rule(&mut self, arg_pat: Spanned<ArgPat>, tree: Spanned<AST>) -> (r: Result<
        CST,
        Syntax,
    >)
        requires
            old(self).wf(),
        ensures
            final(self).wf(),
            final(self).depth == old(self).depth,
            ({
                let o = rule_step_v(old(self).rules_v(), arg_pat_view(arg_pat), ast_view(tree));
                step_view(r) == o.result && final(self).rules_v() == o.rules
            }),
    {
        let patterns_span = arg_pat.span;
        let ghost pv = arg_pat_view(arg_pat);
        let made = match Rule::new(arg_pat, tree) {
            Err(e) => {
                return Err(e);
            },
            Ok(rule) => rule,
        };
        self.rules.push(Spanned { item: made, span: patterns_span });
        proof {
            assert(final(self).rules_v() =~= old(self).rules_v().push(
                Spanned {
                    item: RuleV { arg_pat: pv, tree: ast_view(tree) },
                    span: patterns_span,
                },
            ));
            assert(cst_seq_view(Seq::<Spanned<CST>>::empty()) =~= Seq::<Spanned<CstV>>::empty());
        }
        Ok(CST::Block(Vec::new()))
    }

    /// Desugars a lambda: the body first, then one concrete lambda per
    /// pattern of a `Chain`, curried right to left, each wrapper spanning
    /// its pattern together with its body.
    #[verifier::loop_isolation(false)]
    pub fn lambda(&mut self, p: Spanned<ASTPattern>, e: Spanned<AST>) -> (r: Result<CST, Syntax>)
        requires
            old(self).wf(),
        ensures
            final(self).wf(),
            final(self).depth == old(self).depth,
            ({
                let o = lambda_v(
                    old(self).rules_v(),
                    old(self).depth as nat,
                    crate::ast::pat_view(p),
                    ast_view(e),
                );
                step_view(r) == o.result && final(self).rules_v() == o.rules
            }),
        decreases old(self).depth, 1 + ast_height(ast_view(e)), 2int,
    {
        let ghost pv = crate::ast::pat_view(p);
        let p_span = p.span;
        let arguments: Vec<Spanned<ASTPattern>> = match p.item {
            ASTPattern::Chain(c) => c,
            other => {
                let mut v: Vec<Spanned<ASTPattern>> = Vec::new();
                v.push(Spanned { item: other, span: p_span });
                v
            },
        };
        let ghost argsv = (match pv.item {
            AstPatV::Chain(c) => c,
            _ => seq![pv],
        });
        proof {
            if !(pv.item is Chain) {
                assert(arguments@ =~= seq![Spanned { item: p.item, span: p_span }]);
                assert(arguments@[0] == Spanned { item: p.item, span: p_span });
                assert(arguments@.drop_first() =~= Seq::<Spanned<ASTPattern>>::empty());
                assert(crate::ast::pat_seq_view(arguments@) == seq![
                    crate::ast::pat_view(arguments@[0]),
                ] + crate::ast::pat_seq_view(arguments@.drop_first()));
                assert(crate::ast::pat_seq_view(arguments@) =~= argsv);
            }
        }
        let mut expression: Spanned<CST> = match self.walk(e) {
            Err(err) => {
                return Err(err);
            },
            Ok(c) => c,
        };
        let ghost e0 = cst_view(expression);
        let mut k: usize = arguments.len();
        proof {
            crate::ast::lemma_pat_seq_view_len(arguments@);
            assert(crate::ast::pat_seq_view(arguments@).take(k as int) =~= crate::ast::pat_seq_view(
                arguments@,
            ));
        }
        while k > 0
            invariant
                k <= arguments@.len(),
                crate::ast::pat_seq_view(arguments@) == argsv,
                curry_v(argsv, e0, p_span) == curry_v(
                    argsv.take(k as int),
                    cst_view(expression),
                    p_span,
                ),
            decreases k,
        {
            k = k - 1;
            proof {
                crate::ast::lemma_pat_seq_view_len(arguments@);
                crate::ast::lemma_pat_seq_view_index(arguments@, k as int);
                assert(argsv.take(k + 1).last() == argsv[k as int]);
                assert(argsv.take(k + 1).drop_last() =~= argsv.take(k as int));
            }
            let cp = match lower_pattern(&arguments[k]) {
                None => {
                    return Err(Syntax::error(Reason::UnliftablePattern, &p_span));
                },
                Some(c) => c,
            };
            let combined = Span::combine(&cp.span, &expression.span);
            expression = Spanned { item: CST::lambda(cp, expression), span: combined };
        }
        proof {
            assert(argsv.take(0int) =~= Seq::<Spanned<AstPatV>>::empty());
        }
        Ok(expression.item)
    }

    /// Desugars each member of a block in order; rules defined by one
    /// member are in scope for the members after it.
    #[verifier::loop_isolation(false)]
    pub fn block(&mut self, b: Vec<Spanned<AST>>) -> (r: Result<CST, Syntax>)
        requires
            old(self).wf(),
        ensures
            final(self).wf(),
            final(self).depth == old(self).depth,
            ({
                let o = block_v(old(self).rules_v(), old(self).depth as nat, ast_seq_view(b@));
                step_view(r) == o.result && final(self).rules_v() == o.rules
            }),
        decreases old(self).depth, 1 + ast_seq_height(ast_seq_view(b@)), 2int,
    {
        let ghost fuel: nat = self.depth as nat;
        let ghost rv0 = self.rules_v();
        let ghost bv0 = ast_seq_view(b@);
        let ghost whole = block_items_v(rv0, fuel, bv0);
        let mut b = b;
        let mut expressions: Vec<Spanned<CST>> = Vec::new();
        proof {
            assert(cst_seq_view(expressions@) =~= Seq::<Spanned<CstV>>::empty());
            if whole.result is Ok {
                assert(Seq::<Spanned<CstV>>::empty() + whole.result->Ok_0 =~= whole.result->Ok_0);
            }
        }
        while b.len() > 0
            invariant
                old(self).wf(),
                self.wf(),
                self.depth == old(self).depth,
                fuel == self.depth as nat,
                whole == block_items_v(rv0, fuel, bv0),
                ast_seq_height(ast_seq_view(b@)) <= ast_seq_height(bv0),
                ({
                    let rest = block_items_v(self.rules_v(), fuel, ast_seq_view(b@));
                    whole.rules == rest.rules && whole.result == (match rest.result {
                        Ok(items) => Ok(cst_seq_view(expressions@) + items),
                        Err(e) => Err(e),
                    })
                }),
            decreases b@.len(),
        {
            let ghost b_pre = b@;
            let ghost bv = ast_seq_view(b@);
            let ghost prefix = cst_seq_view(expressions@);
            proof {
                lemma_ast_seq_view_len(b@);
                lemma_ast_seq_view_index(b@, 0);
            }
            let e = b.remove(0);
            proof {
                assert(b@ =~= b_pre.drop_first()) by {
                    assert(b@ == b_pre.remove(0));
                    assert(b_pre.remove(0) =~= b_pre.drop_first());
                }
                assert(ast_seq_view(b@) =~= bv.drop_first()) by {
                    lemma_ast_seq_view_len(b@);
                    lemma_ast_seq_view_len(b_pre);
                    assert forall|w: int| 0 <= w < b@.len() implies ast_seq_view(b@)[w] == bv
                        .drop_first()[w] by {
                        lemma_ast_seq_view_index(b@, w);
                        lemma_ast_seq_view_index(b_pre, w + 1);
                    }
                }
                assert(ast_view(e) == bv[0]);
                lemma_ast_seq_height_elem(bv, 0);
                assert(ast_height(ast_view(e)) <= ast_seq_height(bv0));
            }
            let w = match self.walk(e) {
                Err(err) => {
                    return Err(err);
                },
                Ok(c) => c,
            };
            proof {
                lemma_cst_seq_view_push(expressions@, w);
            }
            expressions.push(w);
            proof {
                let rest_now = block_items_v(self.rules_v(), fuel, ast_seq_view(b@));
                if rest_now.result is Ok {
                    assert((prefix + seq![cst_view(w)]) + rest_now.result->Ok_0 =~= prefix + (
                    seq![cst_view(w)] + rest_now.result->Ok_0));
                    assert(prefix.push(cst_view(w)) =~= prefix + seq![cst_view(w)]);
                }
            }
        }
        proof {
            assert(ast_seq_view(b@) =~= Seq::<Spanned<AstV>>::empty());
            let rest = block_items_v(self.rules_v(), fuel, ast_seq_view(b@));
            assert(rest.result == Ok::<Seq<Spanned<CstV>>, SyntaxV>(Seq::empty()));
            assert(cst_seq_view(expressions@) + Seq::<Spanned<CstV>>::empty() =~= cst_seq_view(
                expressions@,
            ));
        }
        Ok(CST::Block(expressions))
    }

    /// Folds a flat call left-associatively: `(a b c d)` becomes
    /// `(((a b) c) d)`, every synthetic prefix node spanning the members
    /// it covers.
    #[verifier::loop_isolation(false)]
    pub fn call(&mut self, f: Vec<Spanned<AST>>) -> (r: Result<CST, Syntax>)
        requires
            old(self).wf(),
        ensures
            final(self).wf(),
            final(self).depth == old(self).depth,
            ({
                let o = call_v(old(self).rules_v(), old(self).depth as nat, ast_seq_view(f@));
                step_view(r) == o.result && final(self).rules_v() == o.rules
            }),
        decreases old(self).depth, ast_seq_height(ast_seq_view(f@)), 0int,
    {
        let ghost f0 = f@;
        let ghost fv = ast_seq_view(f@);
        proof {
            lemma_ast_seq_view_len(f@);
        }
        let mut f = f;
        if f.len() == 0 {
            Err(Syntax::error(Reason::EmptyForm, &Span { start: 0, end: 0 }))
        } else if f.len() == 1 {
            proof {
                lemma_ast_seq_view_index(f@, 0);
            }
            let e = match f.pop() {
                Some(x) => x,
                None => {
                    return Err(Syntax::error(Reason::EmptyForm, &Span { start: 0, end: 0 }));
                },
            };
            match e.item {
                AST::Symbol(n) => Ok(CST::Symbol(n)),
                _ => Err(Syntax::error(Reason::UncallableForm, &e.span)),
            }
        } else if f.len() == 2 {
            proof {
                lemma_ast_seq_view_index(f@, 0);
                lemma_ast_seq_view_index(f@, 1);
                lemma_ast_seq_height_elem(fv, 0);
                lemma_ast_seq_height_elem(fv, 1);
            }
            let arg = match f.pop() {
                Some(x) => x,
                None => {
                    return Err(Syntax::error(Reason::EmptyForm, &Span { start: 0, end: 0 }));
                },
            };
            let fun = match f.pop() {
                Some(x) => x,
                None => {
                    return Err(Syntax::error(Reason::EmptyForm, &Span { start: 0, end: 0 }));
                },
            };
            let fc = match self.walk(fun) {
                Err(e) => {
                    return Err(e);
                },
                Ok(c) => c,
            };
            let ac = match self.walk(arg) {
                Err(e) => {
                    return Err(e);
                },
                Ok(c) => c,
            };
            Ok(CST::call(fc, ac))
        } else {
            proof {
                lemma_ast_seq_view_index(f@, f@.len() - 1);
                lemma_ast_seq_height_drop_last(fv);
                lemma_ast_height_pos(fv.last());
                lemma_ast_seq_height_elem(fv.drop_last(), 0);
                lemma_ast_height_pos(fv.drop_last()[0]);
            }
            let arg = match f.pop() {
                Some(x) => x,
                None => {
                    return Err(Syntax::error(Reason::EmptyForm, &Span { start: 0, end: 0 }));
                },
            };
            proof {
                assert(ast_view(arg) == fv.last());
                assert(ast_seq_view(f@) =~= fv.drop_last()) by {
                    lemma_ast_seq_view_len(f@);
                    assert forall|w: int| 0 <= w < f@.len() implies ast_seq_view(f@)[w] == fv
                        .drop_last()[w] by {
                        lemma_ast_seq_view_index(f@, w);
                        lemma_ast_seq_view_index(f0, w);
                        assert(f@[w] == f0[w]);
                    }
                }
            }
            let ac = match self.walk(arg) {
                Err(e) => {
                    return Err(e);
                },
                Ok(c) => c,
            };
            let ghost pv = ast_seq_view(f@);
            let mut sps: Vec<Span> = Vec::new();
            let mut k: usize = 0;
            proof {
                assert(sps@ =~= spans_of(pv).take(0int));
            }
            while k < f.len()
                invariant
                    k <= f@.len(),
                    pv == ast_seq_view(f@),
                    sps@ == spans_of(pv).take(k as int),
                decreases f@.len() - k,
            {
                proof {
                    lemma_ast_seq_view_len(f@);
                    lemma_ast_seq_view_index(f@, k as int);
                    assert(spans_of(pv)[k as int] == pv[k as int].span);
                    assert(spans_of(pv).take(k as int).push(pv[k as int].span) =~= spans_of(
                        pv,
                    ).take(k + 1));
                }
                let sp = f[k].span;
                sps.push(sp);
                k = k + 1;
            }
            proof {
                lemma_ast_seq_view_len(f@);
                assert(spans_of(pv).take(pv.len() as int) =~= spans_of(pv));
            }
            let f_span = Span::join(&sps);
            let pref = match self.call(f) {
                Err(e) => {
                    return Err(e);
                },
                Ok(c) => c,
            };
            Ok(CST::call(Spanned { item: pref, span: f_span }, ac))
        }
    }

    /// Reduces a flat juxtaposition: every rule in scope is held against
    /// the whole form; none matching makes a plain call, one fires and
    /// its expansion is walked again on a smaller budget, several is an
    /// ambiguity error naming every matching rule's span.
    #[verifier::loop_isolation(false)]
    pub fn form(&mut self, form: Vec<Spanned<AST>>) -> (r: Result<CST, Syntax>)
        requires
            old(self).wf(),
        ensures
            final(self).wf(),
            final(self).depth == old(self).depth,
            ({
                let o = form_v(old(self).rules_v(), old(self).depth as nat, ast_seq_view(form@));
                step_view(r) == o.result && final(self).rules_v() == o.rules
            }),
        decreases old(self).depth, ast_seq_height(ast_seq_view(form@)), 1int,
    {
        let ghost fv = ast_seq_view(form@);
        let ghost rv = self.rules_v();
        proof {
            lemma_ast_seq_view_len(form@);
        }
        let mut cands: Vec<(usize, Bindings)> = Vec::new();
        let mut i: usize = 0;
        proof {
            assert(cands_exec_view(cands@) =~= cands_upto(rv, fv, 0int));
        }
        while i < self.rules.len()
            invariant
                old(self).wf(),
                i <= self.rules@.len(),
                self == old(self),
                fv == ast_seq_view(form@),
                rv == self.rules_v(),
                cands_exec_view(cands@) == cands_upto(rv, fv, i as int),
            decreases self.rules@.len() - i,
        {
            let mut rev: Vec<Spanned<AST>> = Vec::new();
            let mut j: usize = form.len();
            proof {
                assert(fv.skip(form@.len() as int) =~= Seq::<Spanned<AstV>>::empty());
                assert(ast_seq_view(rev@) =~= Seq::<Spanned<AstV>>::empty());
                assert(Seq::<Spanned<AstV>>::empty().reverse() =~= Seq::<Spanned<AstV>>::empty());
                assert(ast_seq_view(rev@) =~= fv.skip(form@.len() as int).reverse());
            }
            while j > 0
                invariant
                    j <= form@.len(),
                    fv == ast_seq_view(form@),
                    ast_seq_view(rev@) == fv.skip(j as int).reverse(),
                decreases j,
            {
                j = j - 1;
                proof {
                    lemma_ast_seq_view_len(form@);
                    lemma_ast_seq_view_index(form@, j as int);
                }
                let d = dup_spanned_ast(&form[j]);
                proof {
                    lemma_ast_seq_view_push(rev@, d);
                    assert(fv.skip(j as int).reverse() =~= fv.skip(j + 1).reverse().push(
                        fv[j as int],
                    ));
                }
                rev.push(d);
            }
            proof {
                assert(fv.skip(0int) =~= fv);
                assert(ast_seq_view(rev@).reverse() =~= fv);
                assert(rules_view(self.rules@)[i as int] == Spanned {
                    item: rule_view(self.rules@[i as int].item),
                    span: self.rules@[i as int].span,
                });
            }
            let bound = self.rules[i].item.bind(&mut rev);
            match bound {
                Some(bs) => {
                    if rev.len() == 0 {
                        proof {
                            lemma_ast_seq_view_len(rev@);
                            assert(ast_seq_view(rev@).reverse().len() == 0);
                            assert(full_match(rv[i as int].item, fv) == Some(
                                binds_view(bs.pairs@),
                            ));
                            assert(cands_exec_view(cands@.push((i, bs))) =~= cands_upto(
                                rv,
                                fv,
                                i as int,
                            ) + seq![(i as int, binds_view(bs.pairs@))]);
                            assert(cands_upto(rv, fv, i + 1) == cands_upto(rv, fv, i as int) + seq![
                                (i as int, binds_view(bs.pairs@)),
                            ]);
                        }
                        cands.push((i, bs));
                    } else {
                        proof {
                            lemma_ast_seq_view_len(rev@);
                            assert(ast_seq_view(rev@).reverse().len() > 0);
                            assert(full_match(rv[i as int].item, fv) is None);
                            assert(cands_upto(rv, fv, i + 1) =~= cands_upto(rv, fv, i as int));
                        }
                    }
                },
                None => {
                    proof {
                        assert(full_match(rv[i as int].item, fv) is None);
                        assert(cands_upto(rv, fv, i + 1) =~= cands_upto(rv, fv, i as int));
                    }
                },
            }
            i = i + 1;
        }
        let ghost cs = cands_upto(rv, fv, rv.len() as int);
        proof {
            assert(rv.len() == self.rules@.len());
            assert(cands_exec_view(cands@) == cs);
            assert(cands@.len() == cs.len());
        }
        if cands.len() == 0 {
            self.call(form)
        } else if cands.len() == 1 {
            proof {
                lemma_cands_upto_bounds(rv, fv, rv.len() as int);
                assert(cs[0] == cands_exec_view(cands@)[0]);
            }
            if self.depth == 0 {
                let sp = Self::joined_span(&form);
                proof {
                    assert(spans_of(ast_seq_view(form@)) == spans_of(fv));
                }
                Err(Syntax::error(Reason::DepthLimit, &sp))
            } else {
                let idx = cands[0].0;
                proof {
                    assert(idx as int == cs[0].0);
                    assert(0 <= idx && (idx as int) < self.rules@.len());
                    assert(rules_view(self.rules@)[idx as int].item == rule_view(
                        self.rules@[idx as int].item,
                    ));
                    assert(binds_view(cands@[0].1.pairs@) == cs[0].1);
                }
                let expanded = self.rules[idx].item.expand(&cands[0].1);
                proof {
                    assert(ast_view(expanded) == expand_v(rv[cs[0].0].item.tree, cs[0].1));
                }
                self.depth = self.depth - 1;
                let w = self.walk(expanded);
                self.depth = self.depth + 1;
                match w {
                    Ok(c) => Ok(c.item),
                    Err(e) => Err(e),
                }
            }
        } else {
            proof {
                lemma_cands_upto_bounds(rv, fv, rv.len() as int);
            }
            let ghost cspans = cs.map_values(|pr: (int, BindsV)| rv[pr.0].span);
            let mut sps_r: Vec<Span> = Vec::new();
            let mut k: usize = 0;
            proof {
                assert(sps_r@ =~= cspans.take(0int));
            }
            while k < cands.len()
                invariant
                    old(self).wf(),
                    self == old(self),
                    k <= cands@.len(),
                    rv == self.rules_v(),
                    cs == cands_exec_view(cands@),
                    cspans == cs.map_values(|pr: (int, BindsV)| rv[pr.0].span),
                    forall|w: int| 0 <= w < cs.len() ==> 0 <= #[trigger] cs[w].0 < rv.len(),
                    sps_r@ == cspans.take(k as int),
                decreases cands@.len() - k,
            {
                proof {
                    assert(cs[k as int] == cands_exec_view(cands@)[k as int]);
                    assert(cs[k as int].0 == cands@[k as int].0 as int);
                    assert(cspans[k as int] == rv[cs[k as int].0].span);
                    assert(rules_view(self.rules@)[cands@[k as int].0 as int].span == self.rules@[
                        cands@[k as int].0 as int
                    ].span);
                    assert(cspans.take(k as int).push(cspans[k as int]) =~= cspans.take(k + 1));
                }
                let idx = cands[k].0;
                sps_r.push(self.rules[idx].span);
                k = k + 1;
            }
            proof {
                assert(cspans.take(cands@.len() as int) =~= cspans);
            }
            let sp = Self::joined_span(&form);
            Err(Syntax::error(Reason::AmbiguousMacro(sps_r), &sp))
        }
    }

    /// The smallest span covering a form's members.
    #[verifier::loop_isolation(false)]
    fn joined_span(form: &Vec<Spanned<AST>>) -> (s: Span)
        ensures
            s == spec_join(spans_of(ast_seq_view(form@))),
    {
        let ghost pv = ast_seq_view(form@);
        proof {
            lemma_ast_seq_view_len(form@);
        }
        let mut sps: Vec<Span> = Vec::new();
        let mut k: usize = 0;
        proof {
            assert(sps@ =~= spans_of(pv).take(0int));
        }
        while k < form.len()
            invariant
                k <= form@.len(),
                pv == ast_seq_view(form@),
                pv.len() == form@.len(),
                sps@ == spans_of(pv).take(k as int),
            decreases form@.len() - k,
        {
            proof {
                lemma_ast_seq_view_index(form@, k as int);
                assert(spans_of(pv)[k as int] == pv[k as int].span);
                assert(spans_of(pv).take(k as int).push(pv[k as int].span) =~= spans_of(pv).take(
                    k + 1,
                ));
            }
            let sp = form[k].span;
            sps.push(sp);
            k = k + 1;
        }
        proof {
            assert(spans_of(pv).take(pv.len() as int) =~= spans_of(pv));
        }
        Span::join(&sps)
    }
}

} // verus!
