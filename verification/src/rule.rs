//! Macro rules: validation, signature matching and template expansion.
//!
//! A rule pairs a signature (`ArgPat`) with a template tree.  `Rule::new`
//! admits a signature only when it binds each variable once and holds at
//! least one pseudokeyword; `Rule::bind` matches the signature against a
//! token queue, consuming in source order from the back of a reversed
//! vector; `Rule::expand` substitutes bound trees into the template.

use vstd::prelude::*;

use crate::ast::{
    AST, ASTPattern, ArgPat, AstV, AstPatV, ArgPatV, ast_view, ast_seq_view, arg_pat_view,
    arg_pat_seq_view, dup_spanned_ast, dup_spanned_pat, dup_spanned_arg_pat, dup_pat_item,
    dup_arg_pat_item, lemma_ast_seq_view_len, lemma_ast_seq_view_index, lemma_ast_seq_view_push,
    lemma_arg_pat_seq_view_len, lemma_arg_pat_seq_view_index,
};
use crate::span::Spanned;
use crate::syntax::{Reason, ReasonV, Syntax, SyntaxV, syntax_view};

verus! {

/// Ghost model of a set of variable bindings: names paired with the
/// trees they bound, in binding order.
pub type BindsV = Seq<(Seq<char>, Spanned<AstV>)>;

/// The binder names a signature introduces, in matching order.
pub open spec fn binders_of(p: Spanned<ArgPatV>) -> Seq<Seq<char>>
    decreases p,
{
    match p.item {
        ArgPatV::Keyword(_) => Seq::empty(),
        ArgPatV::Symbol(n) => seq![n],
        ArgPatV::Group(g) => binders_of_seq(g),
    }
}

pub open spec fn binders_of_seq(ps: Seq<Spanned<ArgPatV>>) -> Seq<Seq<char>>
    decreases ps,
{
    if ps.len() == 0 {
        Seq::empty()
    } else {
        binders_of(ps[0]) + binders_of_seq(ps.drop_first())
    }
}

/// The pseudokeywords a signature matches literally, in matching order.
pub open spec fn keywords_of(p: Spanned<ArgPatV>) -> Seq<Seq<char>>
    decreases p,
{
    match p.item {
        ArgPatV::Keyword(n) => seq![n],
        ArgPatV::Symbol(_) => Seq::empty(),
        ArgPatV::Group(g) => keywords_of_seq(g),
    }
}

pub open spec fn keywords_of_seq(ps: Seq<Spanned<ArgPatV>>) -> Seq<Seq<char>>
    decreases ps,
{
    if ps.len() == 0 {
        Seq::empty()
    } else {
        keywords_of(ps[0]) + keywords_of_seq(ps.drop_first())
    }
}

/// No name occurs twice.
pub open spec fn distinct_names(s: Seq<Seq<char>>) -> bool {
    forall|i: int, j: int| 0 <= i < j < s.len() ==> s[i] != s[j]
}

/// The first name that occurs again later in the sequence.
pub open spec fn first_dup(s: Seq<Seq<char>>) -> Option<Seq<char>>
    decreases s,
{
    if s.len() == 0 {
        None
    } else if s.drop_first().contains(s[0]) {
        Some(s[0])
    } else {
        first_dup(s.drop_first())
    }
}

/// A signature the walker will accept: each variable bound once, and at
/// least one pseudokeyword to invoke the rule by.
pub open spec fn pat_wf(p: Spanned<ArgPatV>) -> bool {
    &&& distinct_names(binders_of(p))
    &&& keywords_of(p).len() > 0
}

/// Matching a signature against tokens in source order: on success, the
/// bindings made and the tokens left over.
pub open spec fn bind_v(p: Spanned<ArgPatV>, toks: Seq<Spanned<AstV>>) -> Option<
    (BindsV, Seq<Spanned<AstV>>),
>
    decreases p,
{
    match p.item {
        ArgPatV::Keyword(k) => {
            if toks.len() > 0 && toks[0].item == AstV::Symbol(k) {
                Some((Seq::empty(), toks.drop_first()))
            } else {
                None
            }
        },
        ArgPatV::Symbol(n) => {
            if toks.len() > 0 {
                Some((seq![(n, toks[0])], toks.drop_first()))
            } else {
                None
            }
        },
        ArgPatV::Group(g) => bind_seq_v(g, toks),
    }
}

/// Matching each member of a group in order, threading the leftover
/// tokens through and concatenating the bindings.
pub open spec fn bind_seq_v(ps: Seq<Spanned<ArgPatV>>, toks: Seq<Spanned<AstV>>) -> Option<
    (BindsV, Seq<Spanned<AstV>>),
>
    decreases ps,
{
    if ps.len() == 0 {
        Some((Seq::empty(), toks))
    } else {
        match bind_v(ps[0], toks) {
            None => None,
            Some(pr) => match bind_seq_v(ps.drop_first(), pr.1) {
                None => None,
                Some(pr2) => Some((pr.0 + pr2.0, pr2.1)),
            },
        }
    }
}

/// The tree bound to `n`, when one is: the first binding wins.
pub open spec fn lookup_v(b: BindsV, n: Seq<char>) -> Option<Spanned<AstV>>
    decreases b,
{
    if b.len() == 0 {
        None
    } else if b[0].0 == n {
        Some(b[0].1)
    } else {
        lookup_v(b.drop_first(), n)
    }
}

/// Substituting bound trees for bound names in a template.  A symbol the
/// bindings know is replaced whole, span and all, by the tree it bound;
/// binding patterns and signatures inside the template stay untouched.
pub open spec fn expand_v(t: Spanned<AstV>, b: BindsV) -> Spanned<AstV>
    decreases t,
{
    match t.item {
        AstV::Symbol(n) => match lookup_v(b, n) {
            Some(w) => w,
            None => t,
        },
        AstV::Data(_) => t,
        AstV::Block(s) => Spanned { item: AstV::Block(expand_seq_v(s, b)), span: t.span },
        AstV::Form(s) => Spanned { item: AstV::Form(expand_seq_v(s, b)), span: t.span },
        AstV::Composition { argument, function } => Spanned {
            item: AstV::Composition {
                argument: Box::new(expand_v(*argument, b)),
                function: Box::new(expand_v(*function, b)),
            },
            span: t.span,
        },
        AstV::Pattern(_) => t,
        AstV::ArgPat(_) => t,
        AstV::Syntax { arg_pat, expression } => Spanned {
            item: AstV::Syntax { arg_pat, expression: Box::new(expand_v(*expression, b)) },
            span: t.span,
        },
        AstV::Assign { pattern, expression } => Spanned {
            item: AstV::Assign { pattern, expression: Box::new(expand_v(*expression, b)) },
            span: t.span,
        },
        AstV::Lambda { pattern, expression } => Spanned {
            item: AstV::Lambda { pattern, expression: Box::new(expand_v(*expression, b)) },
            span: t.span,
        },
        AstV::Print(e) => Spanned { item: AstV::Print(Box::new(expand_v(*e, b))), span: t.span },
        AstV::Label(n, e) => Spanned {
            item: AstV::Label(n, Box::new(expand_v(*e, b))),
            span: t.span,
        },
    }
}

pub open spec fn expand_seq_v(s: Seq<Spanned<AstV>>, b: BindsV) -> Seq<Spanned<AstV>>
    decreases s,
{
    if s.len() == 0 {
        Seq::empty()
    } else {
        seq![expand_v(s[0], b)] + expand_seq_v(s.drop_first(), b)
    }
}

/// One macro definition: a validated signature and the template it
/// rewrites an invocation to.
#[derive(Debug)]
pub struct Rule {
    pub arg_pat: Spanned<ArgPat>,
    pub tree: Spanned<AST>,
}

/// Ghost model of a macro definition.
pub struct RuleV {
    pub arg_pat: Spanned<ArgPatV>,
    pub tree: Spanned<AstV>,
}

/// The model of a macro definition.
pub open spec fn rule_view(r: Rule) -> RuleV {
    RuleV { arg_pat: arg_pat_view(r.arg_pat), tree: ast_view(r.tree) }
}

/// The bindings a successful match produced.
#[derive(Debug)]
pub struct Bindings {
    pub pairs: Vec<(String, Spanned<AST>)>,
}

/// The model of a set of bindings.
pub open spec fn binds_view(pairs: Seq<(String, Spanned<AST>)>) -> BindsV {
    pairs.map_values(|pr: (String, Spanned<AST>)| (pr.0@, ast_view(pr.1)))
}

// Concatenation distributes over the in-order gatherings.
pub proof fn lemma_binders_of_seq_snoc(ps: Seq<Spanned<ArgPatV>>, p: Spanned<ArgPatV>)
    ensures
        binders_of_seq(ps.push(p)) == binders_of_seq(ps) + binders_of(p),
    decreases ps,
{
    if ps.len() == 0 {
        assert(ps.push(p).drop_first() =~= Seq::empty());
        assert(ps.push(p)[0] == p);
        assert(binders_of_seq(ps.push(p)) == binders_of(p) + binders_of_seq(
            ps.push(p).drop_first(),
        ));
        assert(binders_of_seq(ps.push(p)) =~= binders_of_seq(ps) + binders_of(p));
    } else {
        lemma_binders_of_seq_snoc(ps.drop_first(), p);
        assert(ps.push(p).drop_first() =~= ps.drop_first().push(p));
        assert(ps.push(p)[0] == ps[0]);
        assert(binders_of_seq(ps.push(p)) == binders_of(ps[0]) + binders_of_seq(
            ps.drop_first().push(p),
        ));
        assert(binders_of_seq(ps) == binders_of(ps[0]) + binders_of_seq(ps.drop_first()));
        assert(binders_of_seq(ps.push(p)) =~= binders_of_seq(ps) + binders_of(p));
    }
}

pub proof fn lemma_keywords_of_seq_snoc(ps: Seq<Spanned<ArgPatV>>, p: Spanned<ArgPatV>)
    ensures
        keywords_of_seq(ps.push(p)) == keywords_of_seq(ps) + keywords_of(p),
    decreases ps,
{
    if ps.len() == 0 {
        assert(ps.push(p).drop_first() =~= Seq::empty());
        assert(ps.push(p)[0] == p);
        assert(keywords_of_seq(ps.push(p)) == keywords_of(p) + keywords_of_seq(
            ps.push(p).drop_first(),
        ));
        assert(keywords_of_seq(ps.push(p)) =~= keywords_of_seq(ps) + keywords_of(p));
    } else {
        lemma_keywords_of_seq_snoc(ps.drop_first(), p);
        assert(ps.push(p).drop_first() =~= ps.drop_first().push(p));
        assert(ps.push(p)[0] == ps[0]);
        assert(keywords_of_seq(ps.push(p)) == keywords_of(ps[0]) + keywords_of_seq(
            ps.drop_first().push(p),
        ));
        assert(keywords_of_seq(ps) == keywords_of(ps[0]) + keywords_of_seq(ps.drop_first()));
        assert(keywords_of_seq(ps.push(p)) =~= keywords_of_seq(ps) + keywords_of(p));
    }
}

/// Group matching restarted after a matched prefix.
pub proof fn lemma_bind_seq_snoc(
    ps: Seq<Spanned<ArgPatV>>,
    p: Spanned<ArgPatV>,
    toks: Seq<Spanned<AstV>>,
)
    ensures
        bind_seq_v(ps.push(p), toks) == (match bind_seq_v(ps, toks) {
            None => None,
            Some(pr) => match bind_v(p, pr.1) {
                None => None,
                Some(pr2) => Some((pr.0 + pr2.0, pr2.1)),
            },
        }),
    decreases ps,
{
    let e = Seq::<(Seq<char>, Spanned<AstV>)>::empty();
    if ps.len() == 0 {
        assert(ps.push(p)[0] == p);
        assert(ps.push(p).drop_first() =~= Seq::<Spanned<ArgPatV>>::empty());
        assert(bind_seq_v(ps, toks) == Some((e, toks)));
        match bind_v(p, toks) {
            None => {
                assert(bind_seq_v(ps.push(p), toks) is None);
            },
            Some(pr2) => {
                assert(bind_seq_v(ps.push(p).drop_first(), pr2.1) == Some((e, pr2.1)));
                assert(bind_seq_v(ps.push(p), toks) == Some((pr2.0 + e, pr2.1)));
                assert(pr2.0 + e =~= pr2.0);
                assert(e + pr2.0 =~= pr2.0);
            },
        }
    } else {
        assert(ps.push(p)[0] == ps[0]);
        assert(ps.push(p).drop_first() =~= ps.drop_first().push(p));
        match bind_v(ps[0], toks) {
            None => {
                assert(bind_seq_v(ps.push(p), toks) is None);
                assert(bind_seq_v(ps, toks) is None);
            },
            Some(pr) => {
                lemma_bind_seq_snoc(ps.drop_first(), p, pr.1);
                assert(bind_seq_v(ps, toks) == (match bind_seq_v(ps.drop_first(), pr.1) {
                    None => None,
                    Some(prr) => Some((pr.0 + prr.0, prr.1)),
                }));
                assert(bind_seq_v(ps.push(p), toks) == (match bind_seq_v(
                    ps.drop_first().push(p),
                    pr.1,
                ) {
                    None => None,
                    Some(prr) => Some((pr.0 + prr.0, prr.1)),
                }));
                match bind_seq_v(ps.drop_first(), pr.1) {
                    None => {},
                    Some(prr) => {
                        match bind_v(p, prr.1) {
                            None => {},
                            Some(pr2) => {
                                assert(pr.0 + (prr.0 + pr2.0) =~= (pr.0 + prr.0) + pr2.0);
                            },
                        }
                    },
                }
            },
        }
    }

}

/// Looking a name up skips any prefix that does not hold it.
pub proof fn lemma_lookup_skip(b: BindsV, n: Seq<char>, i: int)
    requires
        0 <= i <= b.len(),
        forall|k: int| 0 <= k < i ==> b[k].0 != n,
    ensures
        lookup_v(b, n) == lookup_v(b.skip(i), n),
    decreases i,
{
    if i > 0 {
        lemma_lookup_skip(b.drop_first(), n, i - 1);
        assert(b.drop_first().skip(i - 1) =~= b.skip(i));
    } else {
        assert(b.skip(0) =~= b);
    }
}

/// Duplicate search skips any prefix whose names never recur.
pub proof fn lemma_first_dup_skip(s: Seq<Seq<char>>, i: int)
    requires
        0 <= i <= s.len(),
        forall|a: int, k: int| 0 <= a < i && a < k < s.len() ==> s[a] != s[k],
    ensures
        first_dup(s) == first_dup(s.skip(i)),
    decreases i,
{
    if i > 0 {
        assert(!s.drop_first().contains(s[0])) by {
            if s.drop_first().contains(s[0]) {
                let w = choose|w: int| 0 <= w < s.drop_first().len() && s.drop_first()[w] == s[0];
                assert(s[w + 1] == s[0]);
            }
        }
        lemma_first_dup_skip(s.drop_first(), i - 1);
        assert(s.drop_first().skip(i - 1) =~= s.skip(i));
    } else {
        assert(s.skip(0) =~= s);
    }
}

/// No duplicate is found exactly when the names are distinct.
pub proof fn lemma_first_dup_none(s: Seq<Seq<char>>)
    ensures
        first_dup(s) is None <==> distinct_names(s),
    decreases s,
{
    if s.len() > 0 {
        lemma_first_dup_none(s.drop_first());
        if first_dup(s) is None {
            assert forall|i: int, j: int| 0 <= i < j < s.len() implies s[i] != s[j] by {
                if i == 0 {
                    assert(s.drop_first()[j - 1] == s[j]);
                    if s[i] == s[j] {
                        assert(s.drop_first().contains(s[0]));
                    }
                } else {
                    assert(s.drop_first()[i - 1] == s[i]);
                    assert(s.drop_first()[j - 1] == s[j]);
                    assert(distinct_names(s.drop_first()));
                }
            }
        }
        if distinct_names(s) {
            assert forall|i: int, j: int| 0 <= i < j < s.drop_first().len() implies s.drop_first()[i]
                != s.drop_first()[j] by {
                assert(s.drop_first()[i] == s[i + 1]);
                assert(s.drop_first()[j] == s[j + 1]);
            }
            assert(distinct_names(s.drop_first()));
            if s.drop_first().contains(s[0]) {
                let w = choose|w: int|
                    0 <= w < s.drop_first().len() && s.drop_first()[w] == s[0];
                assert(s[w + 1] == s[0]);
            }
        }
    }
}

/// Reversal after dropping the newest token is dropping the first
/// logical token after reversal.
pub proof fn lemma_rev_drop_last(v: Seq<Spanned<AST>>)
    requires
        v.len() > 0,
    ensures
        ast_seq_view(v.drop_last()).reverse() == ast_seq_view(v).reverse().drop_first(),
{
    lemma_ast_seq_view_len(v);
    lemma_ast_seq_view_len(v.drop_last());
    assert forall|i: int|
        0 <= i < v.len() - 1 implies ast_seq_view(v.drop_last()).reverse()[i] == ast_seq_view(
        v,
    ).reverse().drop_first()[i] by {
        lemma_ast_seq_view_index(v.drop_last(), v.len() - 2 - i);
        lemma_ast_seq_view_index(v, v.len() - 2 - i);
        assert(v.drop_last()[v.len() - 2 - i] == v[v.len() - 2 - i]);
    }
    assert(ast_seq_view(v.drop_last()).reverse() =~= ast_seq_view(v).reverse().drop_first());
}

/// The first logical token is the newest one of the reversed queue.
pub proof fn lemma_rev_head(v: Seq<Spanned<AST>>)
    requires
        v.len() > 0,
    ensures
        ast_seq_view(v).reverse().len() == v.len(),
        ast_seq_view(v).reverse()[0] == ast_view(v.last()),
{
    lemma_ast_seq_view_len(v);
    lemma_ast_seq_view_index(v, v.len() - 1);
}

impl Rule {
    /// A rule from a signature and a template.  The signature must bind
    /// each variable name once and hold at least one pseudokeyword;
    /// otherwise the offending defect is reported at the signature's span.
    pub fn new(arg_pat: Spanned<ArgPat>, tree: Spanned<AST>) -> (r: Result<Rule, Syntax>)
        ensures
            match first_dup(binders_of(arg_pat_view(arg_pat))) {
                Some(n) => r matches Err(e) && syntax_view(e) == (SyntaxV {
                    reason: ReasonV::DuplicateBinder(n),
                    span: arg_pat.span,
                }),
                None => {
                    if keywords_of(arg_pat_view(arg_pat)).len() == 0 {
                        r matches Err(e) && syntax_view(e) == (SyntaxV {
                            reason: ReasonV::KeywordlessMacro,
                            span: arg_pat.span,
                        })
                    } else {
                        r matches Ok(rule) && rule_view(rule) == (RuleV {
                            arg_pat: arg_pat_view(arg_pat),
                            tree: ast_view(tree),
                        })
                    }
                },
            },
            r is Ok <==> pat_wf(arg_pat_view(arg_pat)),
    {
        proof {
            lemma_first_dup_none(binders_of(arg_pat_view(arg_pat)));
        }
        let names = binders(&arg_pat);
        if let Some(n) = find_dup(&names) {
            return Err(Syntax::error(Reason::DuplicateBinder(n), &arg_pat.span));
        }
        let kws = Self::keywords(&arg_pat);
        if kws.len() == 0 {
            proof {
                assert(keywords_of(arg_pat_view(arg_pat)).len() == 0);
            }
            return Err(Syntax::error(Reason::KeywordlessMacro, &arg_pat.span));
        }
        Ok(Rule { arg_pat, tree })
    }

    /// The pseudokeywords the signature matches literally, in matching
    /// order; a name may repeat when the signature repeats it.
    pub fn keywords(arg_pat: &Spanned<ArgPat>) -> (r: Vec<String>)
        ensures
            r@.map_values(|s: String| s@) == keywords_of(arg_pat_view(*arg_pat)),
    {
        let mut out: Vec<String> = Vec::new();
        push_keywords(arg_pat, &mut out);
        proof {
            assert(Seq::<String>::empty().map_values(|s: String| s@) =~= Seq::<Seq<char>>::empty());
            assert(Seq::<Seq<char>>::empty() + keywords_of(arg_pat_view(*arg_pat)) =~= keywords_of(
                arg_pat_view(*arg_pat),
            ));
        }
        out
    }

    /// Matches this rule's signature against the queue, popping matched
    /// tokens from the back (the queue holds the form reversed, so tokens
    /// leave in source order).  `None` means the signature does not apply;
    /// on a match, the queue keeps exactly the unmatched tail.
    pub fn bind(&self, toks: &mut Vec<Spanned<AST>>) -> (r: Option<Bindings>)
        ensures
            match bind_v(arg_pat_view(self.arg_pat), ast_seq_view(old(toks)@).reverse()) {
                None => r is None,
                Some(pr) => r matches Some(bs) && binds_view(bs.pairs@) == pr.0 && ast_seq_view(
                    final(toks)@,
                ).reverse() == pr.1,
            },
    {
        bind_pat(&self.arg_pat, toks)
    }

    /// The template with every bound name replaced by the tree it bound.
    pub fn expand(&self, bindings: &Bindings) -> (r: Spanned<AST>)
        ensures
            ast_view(r) == expand_v(ast_view(self.tree), binds_view(bindings.pairs@)),
    {
        expand_node(&self.tree, bindings)
    }
}

/// Gathers the signature's pseudokeywords onto `acc`, in matching order.
#[verifier::loop_isolation(false)]
fn push_keywords(p: &Spanned<ArgPat>, acc: &mut Vec<String>)
    ensures
        final(acc)@.map_values(|s: String| s@) == old(acc)@.map_values(|s: String| s@)
            + keywords_of(arg_pat_view(*p)),
    decreases *p,
{
    match &p.item {
        ArgPat::Keyword(n) => {
            let ghost before = acc@;
            acc.push(n.clone());
            proof {
                assert(acc@.map_values(|s: String| s@) =~= before.map_values(|s: String| s@)
                    + keywords_of(arg_pat_view(*p)));
            }
        },
        ArgPat::Symbol(_) => {
            proof {
                assert(acc@.map_values(|s: String| s@) =~= old(acc)@.map_values(|s: String| s@)
                    + keywords_of(arg_pat_view(*p)));
            }
        },
        ArgPat::Group(g) => {
            let ghost gv = arg_pat_seq_view(g@);
            let ghost before = old(acc)@.map_values(|s: String| s@);
            let mut i: usize = 0;
            while i < g.len()
                invariant
                    i <= g@.len(),
                    gv == arg_pat_seq_view(g@),
                    acc@.map_values(|s: String| s@) == before + keywords_of_seq(
                        gv.take(i as int),
                    ),
                decreases g@.len() - i,
            {
                proof {
                    assert(decreases_to!(p.item => p.item->Group_0));
                    assert(p.item->Group_0 == *g);
                    assert(decreases_to!(*g => g@));
                    assert(decreases_to!(g@ => g@[i as int]));
                    assert(decreases_to!(*p => g@[i as int]));
                }
                push_keywords(&g[i], acc);
                proof {
                    lemma_arg_pat_seq_view_len(g@);
                    lemma_arg_pat_seq_view_index(g@, i as int);
                    lemma_keywords_of_seq_snoc(gv.take(i as int), gv[i as int]);
                    assert(gv.take(i as int).push(gv[i as int]) =~= gv.take(i + 1));
                    assert((before + keywords_of_seq(gv.take(i as int))) + keywords_of(
                        gv[i as int],
                    ) =~= before + keywords_of_seq(gv.take(i + 1)));
                }
                i = i + 1;
            }
            proof {
                assert(gv.take(gv.len() as int) =~= gv);
                lemma_arg_pat_seq_view_len(g@);
            }
        },
    }
}

/// Gathers the signature's binder names, in matching order.
#[verifier::loop_isolation(false)]
fn push_binders(p: &Spanned<ArgPat>, acc: &mut Vec<String>)
    ensures
        final(acc)@.map_values(|s: String| s@) == old(acc)@.map_values(|s: String| s@)
            + binders_of(arg_pat_view(*p)),
    decreases *p,
{
    match &p.item {
        ArgPat::Symbol(n) => {
            let ghost before = acc@;
            acc.push(n.clone());
            proof {
                assert(acc@.map_values(|s: String| s@) =~= before.map_values(|s: String| s@)
                    + binders_of(arg_pat_view(*p)));
            }
        },
        ArgPat::Keyword(_) => {
            proof {
                assert(acc@.map_values(|s: String| s@) =~= old(acc)@.map_values(|s: String| s@)
                    + binders_of(arg_pat_view(*p)));
            }
        },
        ArgPat::Group(g) => {
            let ghost gv = arg_pat_seq_view(g@);
            let ghost before = old(acc)@.map_values(|s: String| s@);
            let mut i: usize = 0;
            while i < g.len()
                invariant
                    i <= g@.len(),
                    gv == arg_pat_seq_view(g@),
                    acc@.map_values(|s: String| s@) == before + binders_of_seq(gv.take(i as int)),
                decreases g@.len() - i,
            {
                proof {
                    assert(decreases_to!(p.item => p.item->Group_0));
                    assert(p.item->Group_0 == *g);
                    assert(decreases_to!(*g => g@));
                    assert(decreases_to!(g@ => g@[i as int]));
                    assert(decreases_to!(*p => g@[i as int]));
                }
                push_binders(&g[i], acc);
                proof {
                    lemma_arg_pat_seq_view_len(g@);
                    lemma_arg_pat_seq_view_index(g@, i as int);
                    lemma_binders_of_seq_snoc(gv.take(i as int), gv[i as int]);
                    assert(gv.take(i as int).push(gv[i as int]) =~= gv.take(i + 1));
                    assert((before + binders_of_seq(gv.take(i as int))) + binders_of(gv[i as int])
                        =~= before + binders_of_seq(gv.take(i + 1)));
                }
                i = i + 1;
            }
            proof {
                assert(gv.take(gv.len() as int) =~= gv);
                lemma_arg_pat_seq_view_len(g@);
            }
        },
    }
}

/// The signature's binder names, in matching order.
fn binders(p: &Spanned<ArgPat>) -> (r: Vec<String>)
    ensures
        r@.map_values(|s: String| s@) == binders_of(arg_pat_view(*p)),
{
    let mut out: Vec<String> = Vec::new();
    push_binders(p, &mut out);
    proof {
        assert(Seq::<String>::empty().map_values(|s: String| s@) =~= Seq::<Seq<char>>::empty());
        assert(Seq::<Seq<char>>::empty() + binders_of(arg_pat_view(*p)) =~= binders_of(
            arg_pat_view(*p),
        ));
    }
    out
}

/// The first name of `v` that occurs again later, when one does.
fn find_dup(v: &Vec<String>) -> (r: Option<String>)
    ensures
        match first_dup(v@.map_values(|s: String| s@)) {
            None => r is None,
            Some(n) => r matches Some(x) && x@ == n,
        },
{
    let ghost sv = v@.map_values(|s: String| s@);
    let mut i: usize = 0;
    while i < v.len()
        invariant
            i <= v@.len(),
            sv == v@.map_values(|s: String| s@),
            forall|a: int, k: int| 0 <= a < i && a < k < sv.len() ==> sv[a] != sv[k],
        decreases v@.len() - i,
    {
        let mut j: usize = i + 1;
        while j < v.len()
            invariant
                i < j,
                i < v@.len(),
                j <= v@.len(),
                sv == v@.map_values(|s: String| s@),
                forall|a: int, k: int| 0 <= a < i && a < k < sv.len() ==> sv[a] != sv[k],
                forall|k: int| i < k < j ==> sv[i as int] != sv[k],
            decreases v@.len() - j,
        {
            if v[j].eq(&v[i]) {
                proof {
                    lemma_first_dup_skip(sv, i as int);
                    assert(sv.skip(i as int)[0] == sv[i as int]);
                    assert(sv.skip(i as int).drop_first() =~= sv.skip(i + 1));
                    assert(sv.skip(i + 1)[j - i - 1] == sv[j as int]);
                    assert(sv.skip(i as int).drop_first().contains(sv.skip(i as int)[0]));
                }
                return Some(v[i].clone());
            }
            j = j + 1;
        }
        proof {
            assert forall|k: int| i < k < sv.len() implies sv[i as int] != sv[k] by {}
        }
        i = i + 1;
    }
    proof {
        lemma_first_dup_skip(sv, sv.len() as int);
        assert(sv.skip(sv.len() as int) =~= Seq::<Seq<char>>::empty());
    }
    None
}

/// Matches one signature node against the reversed queue.
#[verifier::loop_isolation(false)]
fn bind_pat(p: &Spanned<ArgPat>, toks: &mut Vec<Spanned<AST>>) -> (r: Option<Bindings>)
    ensures
        match bind_v(arg_pat_view(*p), ast_seq_view(old(toks)@).reverse()) {
            None => r is None,
            Some(pr) => r matches Some(bs) && binds_view(bs.pairs@) == pr.0 && ast_seq_view(
                final(toks)@,
            ).reverse() == pr.1,
        },
    decreases *p,
{
    let ghost logical = ast_seq_view(old(toks)@).reverse();
    proof {
        lemma_ast_seq_view_len(old(toks)@);
    }
    match &p.item {
        ArgPat::Keyword(k) => {
            match toks.pop() {
                None => None,
                Some(tok) => {
                    proof {
                        lemma_rev_head(old(toks)@);
                        lemma_rev_drop_last(old(toks)@);
                    }
                    match tok.item {
                        AST::Symbol(n) => {
                            if n.eq(k) {
                                proof {
                                    assert(logical[0].item == AstV::Symbol(k@));
                                    assert(binds_view(Seq::<(String, Spanned<AST>)>::empty()) =~= Seq::<
                                        (Seq<char>, Spanned<AstV>),
                                    >::empty());
                                }
                                Some(Bindings { pairs: Vec::new() })
                            } else {
                                proof {
                                    assert(logical[0].item != AstV::Symbol(k@));
                                }
                                None
                            }
                        },
                        _ => {
                            proof {
                                assert(!(logical[0].item is Symbol));
                            }
                            None
                        },
                    }
                },
            }
        },
        ArgPat::Symbol(x) => {
            match toks.pop() {
                None => None,
                Some(tok) => {
                    proof {
                        lemma_rev_head(old(toks)@);
                        lemma_rev_drop_last(old(toks)@);
                    }
                    let ghost tv = ast_view(tok);
                    let mut pairs: Vec<(String, Spanned<AST>)> = Vec::new();
                    pairs.push((x.clone(), tok));
                    proof {
                        assert(binds_view(pairs@) =~= seq![(x@, tv)]);
                    }
                    Some(Bindings { pairs })
                },
            }
        },
        ArgPat::Group(g) => {
            let ghost gv = arg_pat_seq_view(g@);
            let mut acc: Vec<(String, Spanned<AST>)> = Vec::new();
            let mut i: usize = 0;
            proof {
                assert(gv.take(0int) =~= Seq::<Spanned<ArgPatV>>::empty());
                assert(binds_view(acc@) =~= Seq::<(Seq<char>, Spanned<AstV>)>::empty());
            }
            while i < g.len()
                invariant
                    i <= g@.len(),
                    gv == arg_pat_seq_view(g@),
                    logical == ast_seq_view(old(toks)@).reverse(),
                    bind_seq_v(gv.take(i as int), logical) == Some(
                        (binds_view(acc@), ast_seq_view(toks@).reverse()),
                    ),
                decreases g@.len() - i,
            {
                proof {
                    assert(decreases_to!(p.item => p.item->Group_0));
                    assert(p.item->Group_0 == *g);
                    assert(decreases_to!(*g => g@));
                    assert(decreases_to!(g@ => g@[i as int]));
                    assert(decreases_to!(*p => g@[i as int]));
                    lemma_arg_pat_seq_view_len(g@);
                    lemma_arg_pat_seq_view_index(g@, i as int);
                }
                let ghost acc_before = binds_view(acc@);
                let step = bind_pat(&g[i], toks);
                proof {
                    lemma_bind_seq_snoc(gv.take(i as int), gv[i as int], logical);
                    assert(gv.take(i as int).push(gv[i as int]) =~= gv.take(i + 1));
                }
                match step {
                    None => {
                        proof {
                            assert(bind_seq_v(gv.take(i + 1), logical) is None);
                            lemma_bind_seq_prefix_none(gv, logical, i + 1);
                        }
                        return None;
                    },
                    Some(mut bs) => {
                        let ghost got = binds_view(bs.pairs@);
                        acc.append(&mut bs.pairs);
                        proof {
                            assert(binds_view(acc@) =~= acc_before + got);
                        }
                        i = i + 1;
                    },
                }
            }
            proof {
                lemma_arg_pat_seq_view_len(g@);
                assert(gv.take(gv.len() as int) =~= gv);
            }
            Some(Bindings { pairs: acc })
        },
    }
}

/// A group that fails on a prefix fails whole.
pub proof fn lemma_bind_seq_prefix_none(
    ps: Seq<Spanned<ArgPatV>>,
    toks: Seq<Spanned<AstV>>,
    i: int,
)
    requires
        0 <= i <= ps.len(),
        bind_seq_v(ps.take(i), toks) is None,
    ensures
        bind_seq_v(ps, toks) is None,
    decreases i,
{
    if i == 0 {
        assert(ps.take(0int).len() == 0);
        assert(false);
    } else {
        if ps.len() == 0 {
            assert(false);
        } else {
            assert(ps.take(i)[0] == ps[0]);
            match bind_v(ps[0], toks) {
                None => {},
                Some(pr) => {
                    assert(ps.take(i).drop_first() =~= ps.drop_first().take(i - 1));
                    lemma_bind_seq_prefix_none(ps.drop_first(), pr.1, i - 1);
                },
            }
        }
    }
}

/// The index of the first binding for `n`, when one is.
fn lookup(b: &Bindings, n: &String) -> (r: Option<usize>)
    ensures
        match lookup_v(binds_view(b.pairs@), n@) {
            None => r is None,
            Some(w) => r matches Some(i) && i < b.pairs@.len() && ast_view(b.pairs@[i as int].1)
                == w,
        },
{
    let ghost bv = binds_view(b.pairs@);
    let mut i: usize = 0;
    while i < b.pairs.len()
        invariant
            i <= b.pairs@.len(),
            bv == binds_view(b.pairs@),
            forall|k: int| 0 <= k < i ==> bv[k].0 != n@,
        decreases b.pairs@.len() - i,
    {
        if b.pairs[i].0.eq(n) {
            proof {
                lemma_lookup_skip(bv, n@, i as int);
                assert(bv.skip(i as int)[0] == bv[i as int]);
            }
            return Some(i);
        }
        i = i + 1;
    }
    proof {
        lemma_lookup_skip(bv, n@, bv.len() as int);
        assert(bv.skip(bv.len() as int) =~= Seq::<(Seq<char>, Spanned<AstV>)>::empty());
    }
    None
}

/// Substitutes bound trees into one template node.
fn expand_node(t: &Spanned<AST>, b: &Bindings) -> (r: Spanned<AST>)
    ensures
        ast_view(r) == expand_v(ast_view(*t), binds_view(b.pairs@)),
    decreases *t,
{
    let span = t.span;
    match &t.item {
        AST::Symbol(n) => {
            match lookup(b, n) {
                Some(i) => dup_spanned_ast(&b.pairs[i].1),
                None => Spanned { item: AST::Symbol(n.clone()), span },
            }
        },
        AST::Data(d) => Spanned { item: AST::Data(*d), span },
        AST::Block(s) => Spanned { item: AST::Block(expand_vec(s, b)), span },
        AST::Form(s) => Spanned { item: AST::Form(expand_vec(s, b)), span },
        AST::Composition { argument, function } => Spanned {
            item: AST::Composition {
                argument: Box::new(expand_node(argument, b)),
                function: Box::new(expand_node(function, b)),
            },
            span,
        },
        AST::Pattern(p) => Spanned { item: AST::Pattern(dup_pat_item(p)), span },
        AST::ArgPat(p) => Spanned { item: AST::ArgPat(dup_arg_pat_item(p)), span },
        AST::Syntax { arg_pat, expression } => Spanned {
            item: AST::Syntax {
                arg_pat: Box::new(dup_spanned_arg_pat(arg_pat)),
                expression: Box::new(expand_node(expression, b)),
            },
            span,
        },
        AST::Assign { pattern, expression } => Spanned {
            item: AST::Assign {
                pattern: Box::new(dup_spanned_pat(pattern)),
                expression: Box::new(expand_node(expression, b)),
            },
            span,
        },
        AST::Lambda { pattern, expression } => Spanned {
            item: AST::Lambda {
                pattern: Box::new(dup_spanned_pat(pattern)),
                expression: Box::new(expand_node(expression, b)),
            },
            span,
        },
        AST::Print(e) => Spanned { item: AST::Print(Box::new(expand_node(e, b))), span },
        AST::Label(n, e) => Spanned {
            item: AST::Label(n.clone(), Box::new(expand_node(e, b))),
            span,
        },
    }
}

/// Substitutes bound trees into each member of a template sequence.
fn expand_vec(v: &Vec<Spanned<AST>>, b: &Bindings) -> (r: Vec<Spanned<AST>>)
    ensures
        ast_seq_view(r@) == expand_seq_v(ast_seq_view(v@), binds_view(b.pairs@)),
    decreases v@,
{
    let ghost bv = binds_view(b.pairs@);
    let mut r: Vec<Spanned<AST>> = Vec::new();
    let mut i: usize = 0;
    proof {
        lemma_ast_seq_view_len(v@);
    }
    while i < v.len()
        invariant
            i <= v@.len(),
            bv == binds_view(b.pairs@),
            ast_seq_view(r@) == expand_seq_v(ast_seq_view(v@).take(i as int), bv),
        decreases v@.len() - i,
    {
        proof {
            assert(decreases_to!(v@ => v@[i as int]));
        }
        let d = expand_node(&v[i], b);
        proof {
            lemma_ast_seq_view_len(v@);
            lemma_ast_seq_view_index(v@, i as int);
            lemma_ast_seq_view_push(r@, d);
            lemma_expand_seq_snoc(ast_seq_view(v@).take(i as int), ast_seq_view(v@)[i as int], bv);
            assert(ast_seq_view(v@).take(i as int).push(ast_seq_view(v@)[i as int])
                =~= ast_seq_view(v@).take(i + 1));
        }
        r.push(d);
        i = i + 1;
    }
    proof {
        lemma_ast_seq_view_len(v@);
        assert(ast_seq_view(v@).take(v@.len() as int) =~= ast_seq_view(v@));
    }
    r
}

/// Substitution over a sequence grown at its end.
pub proof fn lemma_expand_seq_snoc(s: Seq<Spanned<AstV>>, x: Spanned<AstV>, b: BindsV)
    ensures
        expand_seq_v(s.push(x), b) == expand_seq_v(s, b).push(expand_v(x, b)),
    decreases s,
{
    if s.len() == 0 {
        assert(s.push(x).drop_first() =~= Seq::empty());
        assert(s.push(x)[0] == x);
        assert(expand_seq_v(s.push(x), b) == seq![expand_v(x, b)] + expand_seq_v(
            s.push(x).drop_first(),
            b,
        ));
        assert(expand_seq_v(s.push(x), b) =~= expand_seq_v(s, b).push(expand_v(x, b)));
    } else {
        lemma_expand_seq_snoc(s.drop_first(), x, b);
        assert(s.push(x).drop_first() =~= s.drop_first().push(x));
        assert(s.push(x)[0] == s[0]);
        assert(expand_seq_v(s.push(x), b) == seq![expand_v(s[0], b)] + expand_seq_v(
            s.drop_first().push(x),
            b,
        ));
        assert(expand_seq_v(s, b) == seq![expand_v(s[0], b)] + expand_seq_v(s.drop_first(), b));
        assert(expand_seq_v(s.push(x), b) =~= expand_seq_v(s, b).push(expand_v(x, b)));
    }
}

} // verus!
