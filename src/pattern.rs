use std::sync::Arc;

use vstd::prelude::*;

use crate::s_expr::{lemma_trees, op_kind, PlanTree, RelOpKind, SExpr};

verus! {

/// A template over plan shapes: a wildcard that captures any subtree, or an
/// operator kind with one pattern per child.
#[derive(Debug)]
pub enum Pattern {
    Leaf,
    Node { kind: RelOpKind, children: Vec<Pattern> },
}

/// Whether `p` matches the plan tree `t` at its root.
pub open spec fn pattern_matches(p: Pattern, t: PlanTree) -> bool
    decreases p,
{
    match p {
        Pattern::Leaf => true,
        Pattern::Node { kind, children } => {
            &&& op_kind(t.plan) == kind
            &&& children.len() == t.children.len()
            &&& forall|i: int|
                0 <= i < children.len() ==> pattern_matches(#[trigger] children@[i], t.children[i])
        },
    }
}

/// The subtrees that the wildcards of `p` capture in `e`, left to right.
pub open spec fn captures(p: Pattern, e: Arc<SExpr>) -> Seq<Arc<SExpr>>
    decreases p,
{
    match p {
        Pattern::Leaf => seq![e],
        Pattern::Node { children, .. } => captures_of(children@, e.children@, children.len() as int),
    }
}

/// The captures of the first `n` patterns of `ps` on the nodes of `es`.
pub open spec fn captures_of(ps: Seq<Pattern>, es: Seq<Arc<SExpr>>, n: int) -> Seq<Arc<SExpr>>
    decreases ps, n,
{
    if n <= 0 || n > ps.len() || n > es.len() {
        Seq::empty()
    } else {
        captures_of(ps, es, n - 1) + captures(ps[n - 1], es[n - 1])
    }
}

/// The matches of `p` in the tree rooted at `e`, in pre-order: each is the
/// path of child indexes to the matched node and its captures.
pub open spec fn all_matches(p: Pattern, e: Arc<SExpr>) -> Seq<(Seq<usize>, Seq<Arc<SExpr>>)>
    decreases e,
{
    root_match(p, e) + child_matches(p, e.children@, e.children.len() as int)
}

/// The match of `p` at the root of `e` itself, if any.
pub open spec fn root_match(p: Pattern, e: Arc<SExpr>) -> Seq<(Seq<usize>, Seq<Arc<SExpr>>)> {
    if pattern_matches(p, e@) {
        seq![(Seq::<usize>::empty(), captures(p, e))]
    } else {
        Seq::empty()
    }
}

/// The matches in the first `n` subtrees of `cs`, each path led by its child index.
pub open spec fn child_matches(p: Pattern, cs: Seq<Arc<SExpr>>, n: int) -> Seq<
    (Seq<usize>, Seq<Arc<SExpr>>),
>
    decreases cs, n,
{
    if n <= 0 || n > cs.len() {
        Seq::empty()
    } else {
        child_matches(p, cs, n - 1) + prefixed(seq![(n - 1) as usize], all_matches(p, cs[n - 1]))
    }
}

/// `ms` with `path` put in front of each match's path.
pub open spec fn prefixed(path: Seq<usize>, ms: Seq<(Seq<usize>, Seq<Arc<SExpr>>)>) -> Seq<
    (Seq<usize>, Seq<Arc<SExpr>>),
> {
    ms.map_values(|m: (Seq<usize>, Seq<Arc<SExpr>>)| (path + m.0, m.1))
}

proof fn lemma_prefixed_concat(
    path: Seq<usize>,
    a: Seq<(Seq<usize>, Seq<Arc<SExpr>>)>,
    b: Seq<(Seq<usize>, Seq<Arc<SExpr>>)>,
)
    ensures
        prefixed(path, a + b) == prefixed(path, a) + prefixed(path, b),
{
    assert(prefixed(path, a + b) =~= prefixed(path, a) + prefixed(path, b));
}

proof fn lemma_prefixed_twice(path: Seq<usize>, i: usize, ms: Seq<(Seq<usize>, Seq<Arc<SExpr>>)>)
    ensures
        prefixed(path, prefixed(seq![i], ms)) == prefixed(path.push(i), ms),
{
    assert forall|k: int| 0 <= k < ms.len() implies prefixed(path, prefixed(seq![i], ms))[k]
        == prefixed(path.push(i), ms)[k] by {
        assert(path + (seq![i] + ms[k].0) =~= path.push(i) + ms[k].0);
    }
    assert(prefixed(path, prefixed(seq![i], ms)) =~= prefixed(path.push(i), ms));
}

/// One match: the path to the matched node and the captured subtrees.
#[derive(Debug)]
pub struct Match {
    pub path: Vec<usize>,
    pub bindings: Vec<Arc<SExpr>>,
}

pub open spec fn match_view(m: Match) -> (Seq<usize>, Seq<Arc<SExpr>>) {
    (m.path@, m.bindings@)
}

pub open spec fn matches_view(ms: Seq<Match>) -> Seq<(Seq<usize>, Seq<Arc<SExpr>>)> {
    ms.map_values(|m: Match| match_view(m))
}

fn copy_path(v: &Vec<usize>) -> (r: Vec<usize>)
    ensures
        r@ == v@,
{
    let mut r: Vec<usize> = Vec::new();
    let mut i: usize = 0;
    while i < v.len()
        invariant
            i <= v.len(),
            r@ == v@.subrange(0, i as int),
        decreases v.len() - i,
    {
        r.push(v[i]);
        i += 1;
        proof {
            assert(r@ =~= v@.subrange(0, i as int));
        }
    }
    proof {
        assert(r@ =~= v@);
    }
    r
}

/// Matches `p` against the root of `e`, returning the captures on success.
#[verifier::loop_isolation(false)]
pub fn match_pattern(p: &Pattern, e: &Arc<SExpr>) -> (r: Option<Vec<Arc<SExpr>>>)
    ensures
        r is Some <==> pattern_matches(*p, e@),
        r is Some ==> r->0@ == captures(*p, *e),
    decreases p,
{
    match p {
        Pattern::Leaf => {
            let mut v: Vec<Arc<SExpr>> = Vec::new();
            v.push(e.clone());
            proof {
                assert(v@ =~= seq![*e]);
            }
            Some(v)
        },
        Pattern::Node { kind, children } => {
            proof {
                lemma_trees(e.children@);
            }
            if e.plan.kind() != *kind || children.len() != e.children.len() {
                return None;
            }
            let mut out: Vec<Arc<SExpr>> = Vec::new();
            let mut i: usize = 0;
            while i < children.len()
                invariant
                    i <= children.len(),
                    out@ == captures_of(children@, e.children@, i as int),
                    forall|j: int| 0 <= j < i ==> pattern_matches(#[trigger] children@[j], e@.children[j]),
                decreases children.len() - i,
            {
                match match_pattern(&children[i], &e.children[i]) {
                    Some(mut c) => {
                        out.append(&mut c);
                    },
                    None => {
                        return None;
                    },
                }
                i += 1;
            }
            Some(out)
        },
    }
}

#[verifier::loop_isolation(false)]
fn collect_matches(p: &Pattern, e: &Arc<SExpr>, path: &mut Vec<usize>, out: &mut Vec<Match>)
    ensures
        final(path)@ == old(path)@,
        matches_view(final(out)@) == matches_view(old(out)@) + prefixed(old(path)@, all_matches(*p, *e)),
    decreases e,
{
    let ghost out0 = matches_view(out@);
    let ghost path0 = path@;
    let ghost here = root_match(*p, *e);
    match match_pattern(p, e) {
        Some(bindings) => {
            out.push(Match { path: copy_path(path), bindings });
        },
        None => {},
    }
    proof {
        assert(prefixed(path0, here) =~= seq![(path0, captures(*p, *e))].subrange(0, here.len() as int));
        assert(matches_view(out@) =~= out0 + prefixed(path0, here));
    }
    let mut i: usize = 0;
    while i < e.children.len()
        invariant
            i <= e.children.len(),
            path@ == path0,
            matches_view(out@) == out0 + prefixed(path0, here) + prefixed(
                path0,
                child_matches(*p, e.children@, i as int),
            ),
        decreases e.children.len() - i,
    {
        let ghost before = matches_view(out@);
        path.push(i);
        collect_matches(p, &e.children[i], path, out);
        path.pop();
        proof {
            assert(path@ =~= path0);
            lemma_prefixed_twice(path0, i, all_matches(*p, e.children@[i as int]));
            lemma_prefixed_concat(
                path0,
                child_matches(*p, e.children@, i as int),
                prefixed(seq![i], all_matches(*p, e.children@[i as int])),
            );
            assert(child_matches(*p, e.children@, i + 1) == child_matches(*p, e.children@, i as int)
                + prefixed(seq![i], all_matches(*p, e.children@[i as int])));
        }
        i += 1;
    }
    proof {
        lemma_prefixed_concat(path0, here, child_matches(*p, e.children@, e.children.len() as int));
    }
}

/// Finds every match of a pattern in a plan tree.
pub struct PatternExtractor {}

impl PatternExtractor {
    pub fn create() -> (r: PatternExtractor) {
        PatternExtractor {  }
    }

    /// All matches of `pattern` in the tree rooted at `e`, in pre-order.
    pub fn extract(&self, pattern: &Pattern, e: &Arc<SExpr>) -> (r: Vec<Match>)
        ensures
            matches_view(r@) == all_matches(*pattern, *e),
    {
        let mut out: Vec<Match> = Vec::new();
        let mut path: Vec<usize> = Vec::new();
        collect_matches(pattern, e, &mut path, &mut out);
        proof {
            assert(matches_view(out@) =~= Seq::empty() + prefixed(Seq::empty(), all_matches(*pattern, *e)));
            assert forall|k: int| 0 <= k < all_matches(*pattern, *e).len() implies
                prefixed(Seq::empty(), all_matches(*pattern, *e))[k] == all_matches(*pattern, *e)[k] by {
                assert(Seq::<usize>::empty() + all_matches(*pattern, *e)[k].0 =~= all_matches(*pattern, *e)[k].0);
            }
            assert(prefixed(Seq::empty(), all_matches(*pattern, *e)) =~= all_matches(*pattern, *e));
        }
        out
    }
}

/// Extraction is a function of the pattern and the tree: two extractions
/// on the same pair give the same matches in the same order.
pub proof fn lemma_extract_deterministic(
    pattern: Pattern,
    e: Arc<SExpr>,
    first: Seq<Match>,
    second: Seq<Match>,
)
    requires
        matches_view(first) == all_matches(pattern, e),
        matches_view(second) == all_matches(pattern, e),
    ensures
        matches_view(first) == matches_view(second),
{
}

} // verus!
