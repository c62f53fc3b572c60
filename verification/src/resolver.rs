//! Walking a forest of sources down to its lang files.

use vstd::prelude::*;
use crate::extract::{all_nearer, depth, sources_view, SourceView, TranslationSource};

verus! {

/// How many lang files stand at the front of `pending` before the first source that is
/// none.
pub open spec fn leading_leaves(pending: Seq<SourceView>) -> nat
    decreases pending.len(),
{
    if pending.len() > 0 && pending[0] is LangJson {
        1 + leading_leaves(pending.drop_first())
    } else {
        0
    }
}

/// Whether every one of `sources` is a lang file.
pub open spec fn all_lang_files(sources: Seq<SourceView>) -> bool {
    forall|i: int| 0 <= i < sources.len() ==> #[trigger] sources[i] is LangJson
}

proof fn lemma_leading_leaves_bound(pending: Seq<SourceView>)
    ensures
        leading_leaves(pending) <= pending.len(),
        all_lang_files(pending.take(leading_leaves(pending) as int)),
        leading_leaves(pending) < pending.len() ==> !(pending[leading_leaves(pending) as int] is LangJson),
    decreases pending.len(),
{
    if pending.len() > 0 && pending[0] is LangJson {
        let rest = pending.drop_first();
        lemma_leading_leaves_bound(rest);
        let k = leading_leaves(rest) as int;
        assert forall|i: int| 0 <= i < k + 1 implies #[trigger] pending.take(k + 1)[i] is LangJson by {
            if i > 0 {
                assert(pending.take(k + 1)[i] == rest.take(k)[i - 1]);
            }
        }
        if k + 1 < pending.len() {
            assert(pending[k + 1] == rest[k]);
        }
    }
}

/// The lang files at and below `source`, met depth first, where `children` tells what a
/// look into each source shows.
pub open spec fn lang_files_below(
    children: spec_fn(SourceView) -> Seq<SourceView>,
    source: SourceView,
) -> Seq<SourceView>
    decreases depth(source), 1nat, 0nat,
{
    if source is LangJson {
        seq![source]
    } else {
        lang_files_among(children, children(source), depth(source))
    }
}

/// The lang files at and below those of `sources` that lie less deep than `bound`, one
/// source after the other.
pub open spec fn lang_files_among(
    children: spec_fn(SourceView) -> Seq<SourceView>,
    sources: Seq<SourceView>,
    bound: nat,
) -> Seq<SourceView>
    decreases bound, 0nat, sources.len(),
{
    if sources.len() == 0 {
        Seq::empty()
    } else {
        let first = if depth(sources[0]) < bound {
            lang_files_below(children, sources[0])
        } else {
            Seq::empty()
        };
        first + lang_files_among(children, sources.drop_first(), bound)
    }
}

/// The lang files that `roots` lead to: those at and below each root, met depth first,
/// the roots in their order.
pub open spec fn reachable_lang_files(
    children: spec_fn(SourceView) -> Seq<SourceView>,
    roots: Seq<SourceView>,
) -> Seq<SourceView> {
    lang_files_among(children, roots, 3)
}

proof fn lemma_lang_files_among_concat(
    children: spec_fn(SourceView) -> Seq<SourceView>,
    front: Seq<SourceView>,
    back: Seq<SourceView>,
    bound: nat,
)
    ensures
        lang_files_among(children, front + back, bound) == lang_files_among(children, front, bound)
            + lang_files_among(children, back, bound),
    decreases front.len(),
{
    if front.len() == 0 {
        assert(front + back =~= back);
    } else {
        assert((front + back).drop_first() =~= front.drop_first() + back);
        lemma_lang_files_among_concat(children, front.drop_first(), back, bound);
    }
}

proof fn lemma_lang_files_among_bound(
    children: spec_fn(SourceView) -> Seq<SourceView>,
    sources: Seq<SourceView>,
    low: nat,
    high: nat,
)
    requires
        all_nearer(sources, low),
        low <= high,
    ensures
        lang_files_among(children, sources, low) == lang_files_among(children, sources, high),
    decreases sources.len(),
{
    if sources.len() > 0 {
        assert(depth(sources[0]) < low);
        assert forall|i: int| 0 <= i < sources.drop_first().len() implies depth(
            #[trigger] sources.drop_first()[i],
        ) < low by {
            assert(sources.drop_first()[i] == sources[i + 1]);
        }
        lemma_lang_files_among_bound(children, sources.drop_first(), low, high);
    }
}

proof fn lemma_lang_files_among_leaves(
    children: spec_fn(SourceView) -> Seq<SourceView>,
    sources: Seq<SourceView>,
)
    requires
        all_lang_files(sources),
    ensures
        lang_files_among(children, sources, 3) == sources,
    decreases sources.len(),
{
    if sources.len() > 0 {
        assert(sources[0] is LangJson);
        assert forall|i: int| 0 <= i < sources.drop_first().len() implies #[trigger] sources.drop_first()[i] is LangJson by {
            assert(sources.drop_first()[i] == sources[i + 1]);
        }
        lemma_lang_files_among_leaves(children, sources.drop_first());
        assert(lang_files_below(children, sources[0]) == seq![sources[0]]);
        assert(lang_files_among(children, sources, 3) == lang_files_below(children, sources[0])
            + lang_files_among(children, sources.drop_first(), 3));
        assert(seq![sources[0]] + sources.drop_first() =~= sources);
    }
}

/// One round of the walk loses no lang file and changes no order: the lang files found,
/// followed by those that the work list still leads to, are the same before and after
/// the round. A round moves the lang files at the front of the work list to the lang
/// files found, and puts the children of the source behind them in its place. The
/// children have to lie less deep than their source, as those that `find_children` gives
/// do.
pub proof fn lemma_round_keeps_lang_files(
    children: spec_fn(SourceView) -> Seq<SourceView>,
    pending: Seq<SourceView>,
    leaves: Seq<SourceView>,
)
    requires
        leading_leaves(pending) < pending.len(),
        all_nearer(
            children(pending[leading_leaves(pending) as int]),
            depth(pending[leading_leaves(pending) as int]),
        ),
    ensures
        ({
            let lead = leading_leaves(pending) as int;
            (leaves + pending.take(lead)) + reachable_lang_files(
                children,
                children(pending[lead]) + pending.skip(lead + 1),
            ) == leaves + reachable_lang_files(children, pending)
        }),
{
    lemma_leading_leaves_bound(pending);
    let lead = leading_leaves(pending) as int;
    let container = pending[lead];
    let kids = children(container);
    let rest = pending.skip(lead + 1);
    let tail = pending.skip(lead);
    assert(pending =~= pending.take(lead) + tail);
    lemma_lang_files_among_concat(children, pending.take(lead), tail, 3);
    lemma_lang_files_among_leaves(children, pending.take(lead));
    assert(tail.drop_first() =~= rest);
    assert(tail[0] == container);
    assert(lang_files_among(children, tail, 3) == lang_files_below(children, container)
        + lang_files_among(children, rest, 3));
    assert(lang_files_below(children, container) == lang_files_among(
        children,
        kids,
        depth(container),
    ));
    lemma_lang_files_among_bound(children, kids, depth(container), 3);
    lemma_lang_files_among_concat(children, kids, rest, 3);
    assert((leaves + pending.take(lead)) + (lang_files_among(children, kids, 3) + lang_files_among(
        children,
        rest,
        3,
    )) =~= leaves + (pending.take(lead) + (lang_files_among(children, kids, 3) + lang_files_among(
        children,
        rest,
        3,
    ))));
}

/// When the work list holds lang files only, the walk is over: the lang files found,
/// with those of the work list behind them, are all that the roots led to.
pub proof fn lemma_last_round_ends_the_walk(
    children: spec_fn(SourceView) -> Seq<SourceView>,
    pending: Seq<SourceView>,
    leaves: Seq<SourceView>,
)
    requires
        leading_leaves(pending) == pending.len(),
    ensures
        leaves + pending.take(leading_leaves(pending) as int) == leaves + reachable_lang_files(
            children,
            pending,
        ),
{
    lemma_leading_leaves_bound(pending);
    assert(pending.take(pending.len() as int) =~= pending);
    lemma_lang_files_among_leaves(children, pending);
}

/// Walks a forest of sources down to its lang files.
///
/// The resolver keeps a work list and the lang files found so far. It does no reading
/// itself: `next_container` hands out the source to look into, and `supply` takes what was
/// found there. Children go to the front of the work list in their order, so the
/// children of a source are all looked into before the source that stands behind it.
pub struct SourceResolver {
    /// The work list, its front at the end.
    stack: Vec<TranslationSource>,
    found: Vec<TranslationSource>,
}

impl SourceResolver {
    #[verifier::type_invariant]
    spec fn well_formed(self) -> bool {
        all_lang_files(sources_view(self.found@))
    }

    /// The work list, front first.
    pub closed spec fn pending(&self) -> Seq<SourceView> {
        sources_view(self.stack@).reverse()
    }

    /// The lang files found so far, in the order in which they were met.
    pub closed spec fn leaves(&self) -> Seq<SourceView> {
        sources_view(self.found@)
    }

    /// A resolver whose work list holds `roots` in their order.
    pub fn new(roots: Vec<TranslationSource>) -> (resolver: SourceResolver)
        ensures
            resolver.pending() == sources_view(roots@),
            resolver.leaves() == Seq::<SourceView>::empty(),
    {
        let mut roots = roots;
        let ghost all = sources_view(roots@);
        let mut stack: Vec<TranslationSource> = Vec::new();
        assert(sources_view(stack@).reverse() + sources_view(roots@) =~= all);
        while roots.len() > 0
            invariant
                sources_view(roots@) + sources_view(stack@).reverse() == all,
            decreases roots.len(),
        {
            let ghost rest = roots@;
            let ghost piled = stack@;
            match roots.pop() {
                Some(root) => {
                    stack.push(root);
                    assert(sources_view(roots@) + sources_view(stack@).reverse() =~= sources_view(
                        rest,
                    ) + sources_view(piled).reverse());
                },
                None => {},
            }
        }
        let found: Vec<TranslationSource> = Vec::new();
        assert(sources_view(roots@) + sources_view(stack@).reverse() =~= sources_view(
            stack@,
        ).reverse());
        assert(sources_view(found@) =~= Seq::<SourceView>::empty());
        SourceResolver { stack, found }
    }

    /// The next source to look into, taken off the work list, or `None` when the work
    /// list holds no more.
    ///
    /// The lang files that stand at the front of the work list are moved to the lang
    /// files found; the first source behind them is handed out.
    pub fn next_container(&mut self) -> (source: Option<TranslationSource>)
        ensures
            ({
                let pending = old(self).pending();
                let lead = leading_leaves(pending) as int;
                &&& lead <= pending.len()
                &&& final(self).leaves() == old(self).leaves() + pending.take(lead)
                &&& match source {
                    Some(container) => {
                        &&& lead < pending.len()
                        &&& container@ == pending[lead]
                        &&& !(container@ is LangJson)
                        &&& final(self).pending() == pending.skip(lead + 1)
                    },
                    None => lead == pending.len() && final(self).pending() == Seq::<SourceView>::empty(),
                }
            }),
    {
        proof {
            use_type_invariant(&*self);
            lemma_leading_leaves_bound(self.pending());
        }
        let ghost pending = self.pending();
        let ghost leaves = self.leaves();
        let ghost lead = leading_leaves(pending) as int;
        let mut taken = SourceResolver { stack: Vec::new(), found: Vec::new() };
        std::mem::swap(self, &mut taken);
        let SourceResolver { mut stack, mut found } = taken;
        let mut moved: usize = 0;
        let mut source: Option<TranslationSource> = None;
        assert(pending.len() == stack@.len() == stack.len());
        assert(pending.skip(0) =~= pending);
        assert(leaves + pending.take(0) =~= leaves);
        while stack.len() > 0
            invariant_except_break
                source is None,
                stack@.len() == pending.len() - moved,
                sources_view(stack@).reverse() == pending.skip(moved as int),
            invariant
                moved <= lead <= pending.len() <= usize::MAX,
                all_lang_files(pending.take(lead)),
                lead < pending.len() ==> !(pending[lead] is LangJson),
                sources_view(found@) == leaves + pending.take(moved as int),
                all_lang_files(leaves),
            ensures
                moved == lead,
                sources_view(found@) == leaves + pending.take(lead),
                match source {
                    Some(container) => {
                        &&& lead < pending.len()
                        &&& container@ == pending[lead]
                        &&& sources_view(stack@).reverse() == pending.skip(lead + 1)
                    },
                    None => lead == pending.len() && stack@.len() == 0,
                },
            decreases stack.len(),
        {
            let ghost piled = stack@;
            let ghost kept = found@;
            let top = stack.pop();
            assert(top is Some);
            let top = top.unwrap();
            assert(top@ == pending[moved as int]) by {
                assert(sources_view(piled).reverse()[0] == top@);
                assert(pending.skip(moved as int)[0] == pending[moved as int]);
            }
            assert(sources_view(stack@).reverse() =~= pending.skip(moved + 1)) by {
                assert(sources_view(stack@).reverse() =~= sources_view(piled).reverse().skip(1));
            }
            let leaf = match &top {
                TranslationSource::LangJson { .. } => true,
                _ => false,
            };
            if leaf {
                assert(moved < lead) by {
                    if moved == lead {
                        assert(!(pending[lead] is LangJson));
                    }
                }
                found.push(top);
                assert(sources_view(found@) =~= leaves + pending.take(moved + 1)) by {
                    assert(sources_view(found@) =~= sources_view(kept).push(top@));
                }
                moved += 1;
            } else {
                assert(moved == lead) by {
                    if moved < lead {
                        assert(pending.take(lead)[moved as int] is LangJson);
                    }
                }
                source = Some(top);
                break ;
            }
        }
        proof {
            if source is None {
                assert(sources_view(stack@).reverse().len() == 0);
                assert(sources_view(stack@).reverse() =~= Seq::<SourceView>::empty());
            }
            assert(all_lang_files(sources_view(found@))) by {
                assert forall|i: int| 0 <= i < sources_view(found@).len() implies #[trigger] sources_view(
                    found@,
                )[i] is LangJson by {
                    if i >= leaves.len() {
                        assert(sources_view(found@)[i] == pending.take(lead)[i - leaves.len()]);
                    } else {
                        assert(sources_view(found@)[i] == leaves[i]);
                    }
                }
            }
        }
        *self = SourceResolver { stack, found };
        source
    }

    /// Puts `children` at the front of the work list, in their order.
    pub fn supply(&mut self, children: Vec<TranslationSource>)
        ensures
            final(self).pending() == sources_view(children@) + old(self).pending(),
            final(self).leaves() == old(self).leaves(),
    {
        proof {
            use_type_invariant(&*self);
        }
        let ghost pending = self.pending();
        let ghost all = sources_view(children@);
        let mut children = children;
        let mut taken = SourceResolver { stack: Vec::new(), found: Vec::new() };
        std::mem::swap(self, &mut taken);
        let SourceResolver { mut stack, found } = taken;
        assert(sources_view(children@) + sources_view(stack@).reverse() =~= all + pending);
        while children.len() > 0
            invariant
                sources_view(children@) + sources_view(stack@).reverse() == all + pending,
            decreases children.len(),
        {
            let ghost rest = children@;
            let ghost piled = stack@;
            match children.pop() {
                Some(child) => {
                    stack.push(child);
                    assert(sources_view(children@) + sources_view(stack@).reverse() =~= sources_view(
                        rest,
                    ) + sources_view(piled).reverse());
                },
                None => {},
            }
        }
        assert(sources_view(children@) + sources_view(stack@).reverse() =~= sources_view(
            stack@,
        ).reverse());
        *self = SourceResolver { stack, found };
    }

    /// The lang files found, in the order in which they were met.
    pub fn into_leaves(self) -> (leaves: Vec<TranslationSource>)
        ensures
            sources_view(leaves@) == self.leaves(),
            all_lang_files(sources_view(leaves@)),
    {
        proof {
            use_type_invariant(&self);
        }
        self.found
    }
}

} // verus!
