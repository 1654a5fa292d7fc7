use vstd::multiset::Multiset;
use vstd::prelude::*;
use vstd::seq_lib::lemma_multiset_commutative;

use crate::element::ElementRef;

verus! {

/// The handles of a list of children, as reported for one node.
pub open spec fn handles_of(kids: Seq<(ElementRef, bool)>) -> Seq<ElementRef> {
    kids.map_values(|k: (ElementRef, bool)| k.0)
}

/// The children of a list that were reported showing, in list order.
pub open spec fn showing_of(kids: Seq<(ElementRef, bool)>) -> Seq<ElementRef>
    decreases kids.len(),
{
    if kids.len() == 0 {
        seq![]
    } else {
        let rest = showing_of(kids.drop_last());
        if kids.last().1 {
            rest.push(kids.last().0)
        } else {
            rest
        }
    }
}

/// Depth-first walk of a remote subtree with an explicit work stack.
///
/// The caller owns the remote calls: it asks `next_node` which node to expand,
/// fetches that node's children and each child's visibility, and hands them to
/// `visit_children`. Every child is queued for descent whatever its
/// visibility; only the children reported showing are collected. The walk is
/// over when the stack is empty. No step recurses, so the native call depth
/// does not grow with the depth of the tree.
pub struct Walker {
    stack: Vec<ElementRef>,
    found: Vec<ElementRef>,
}

impl Walker {
    /// Nodes still to be expanded; the last one is expanded next.
    pub closed spec fn pending(&self) -> Seq<ElementRef> {
        self.stack@
    }

    /// Showing nodes collected so far, in the order they were reported.
    pub closed spec fn found(&self) -> Seq<ElementRef> {
        self.found@
    }

    pub fn new(root: ElementRef) -> (w: Walker)
        ensures
            w.pending() == seq![root],
            w.found() == Seq::<ElementRef>::empty(),
    {
        let mut stack: Vec<ElementRef> = Vec::new();
        stack.push(root);
        Walker { stack, found: Vec::new() }
    }

    /// Takes the node to expand next off the stack, or `None` once the walk is over.
    pub fn next_node(&mut self) -> (r: Option<ElementRef>)
        ensures
            old(self).pending().len() == 0 ==> r is None && *final(self) == *old(self),
            old(self).pending().len() > 0 ==> r == Some(old(self).pending().last())
                && final(self).pending() == old(self).pending().drop_last()
                && final(self).found() == old(self).found(),
    {
        if self.stack.len() == 0 {
            None
        } else {
            self.stack.pop()
        }
    }

    /// Records the children of the node last taken: each is queued for
    /// descent, and the showing ones are collected.
    pub fn visit_children(&mut self, kids: Vec<(ElementRef, bool)>)
        ensures
            final(self).pending() == old(self).pending() + handles_of(kids@),
            final(self).found() == old(self).found() + showing_of(kids@),
    {
        let mut i: usize = 0;
        while i < kids.len()
            invariant
                i <= kids.len(),
                self.stack@ == old(self).stack@ + handles_of(kids@.subrange(0, i as int)),
                self.found@ == old(self).found@ + showing_of(kids@.subrange(0, i as int)),
            decreases kids.len() - i,
        {
            let ghost before = kids@.subrange(0, i as int);
            assert(kids@.subrange(0, i + 1).drop_last() =~= before);
            assert(handles_of(kids@.subrange(0, i + 1)) =~= handles_of(before).push(kids@[i as int].0));
            let child = &kids[i].0;
            self.stack.push(child.duplicate());
            if kids[i].1 {
                self.found.push(child.duplicate());
            }
            i = i + 1;
        }
        assert(kids@.subrange(0, kids.len() as int) =~= kids@);
    }

    pub fn is_finished(&self) -> (r: bool)
        ensures
            r == (self.pending().len() == 0),
    {
        self.stack.len() == 0
    }

    /// The collected handles.
    pub fn into_found(self) -> (r: Vec<ElementRef>)
        ensures
            r@ == self.found(),
    {
        self.found
    }
}

/// A finite subtree as the remote side reports it: a node's handle, whether it
/// is showing, and its children in order.
pub struct Tree {
    pub elem: ElementRef,
    pub showing: bool,
    pub children: Seq<Tree>,
}

/// What a node's children look like to the walker.
pub open spec fn entries(f: Seq<Tree>) -> Seq<(ElementRef, bool)> {
    f.map_values(|t: Tree| (t.elem, t.showing))
}

/// The handles of the roots of a list of subtrees.
pub open spec fn roots_of(f: Seq<Tree>) -> Seq<ElementRef> {
    f.map_values(|t: Tree| t.elem)
}

/// A walker whose stack holds the roots of `stack` is told by `next_node` to
/// expand the top tree; answering with that tree's children through
/// `visit_children` leaves it holding the roots of the next stack of
/// `walk_forest`, and collecting what `walk_forest` collects in that step.
pub proof fn lemma_walker_follows_tree(stack: Seq<Tree>)
    requires
        stack.len() > 0,
    ensures
        roots_of(stack).last() == stack.last().elem,
        roots_of(stack).drop_last() + handles_of(entries(stack.last().children)) == roots_of(
            stack.drop_last() + stack.last().children,
        ),
{
    let kids = stack.last().children;
    assert(handles_of(entries(kids)) =~= roots_of(kids));
    assert(roots_of(stack).drop_last() + roots_of(kids) =~= roots_of(stack.drop_last() + kids));
}

/// Number of nodes in a list of subtrees.
pub open spec fn forest_size(f: Seq<Tree>) -> nat
    decreases f,
{
    if f.len() == 0 {
        0
    } else {
        forest_size(f.drop_last()) + 1 + forest_size(f.last().children)
    }
}

/// The showing nodes of a list of subtrees, each root of the list included.
pub open spec fn showing_in(f: Seq<Tree>) -> Multiset<ElementRef>
    decreases f,
{
    if f.len() == 0 {
        Multiset::empty()
    } else {
        let t = f.last();
        let own = if t.showing {
            Multiset::singleton(t.elem)
        } else {
            Multiset::empty()
        };
        showing_in(f.drop_last()).add(own).add(showing_in(t.children))
    }
}

/// The showing strict descendants of the subtrees on a stack: what is still
/// to be collected once those subtrees' roots have been recorded.
pub open spec fn showing_below(stack: Seq<Tree>) -> Multiset<ElementRef>
    decreases stack.len(),
{
    if stack.len() == 0 {
        Multiset::empty()
    } else {
        showing_below(stack.drop_last()).add(showing_in(stack.last().children))
    }
}

/// The handles collected by a walker that is driven to the end, where each
/// node it takes off the stack is answered with that node's children.
/// Starting from a root, the walk is `walk_forest(seq![root], seq![])`.
pub open spec fn walk_forest(stack: Seq<Tree>, found: Seq<ElementRef>) -> Seq<ElementRef>
    decreases forest_size(stack),
    via walk_forest_decreases
{
    if stack.len() == 0 {
        found
    } else {
        let t = stack.last();
        walk_forest(stack.drop_last() + t.children, found + showing_of(entries(t.children)))
    }
}

#[via_fn]
proof fn walk_forest_decreases(stack: Seq<Tree>, found: Seq<ElementRef>) {
    if stack.len() > 0 {
        lemma_step_shrinks(stack);
    }
}

proof fn lemma_size_concat(a: Seq<Tree>, b: Seq<Tree>)
    ensures
        forest_size(a + b) == forest_size(a) + forest_size(b),
    decreases b.len(),
{
    if b.len() == 0 {
        assert(a + b =~= a);
    } else {
        assert((a + b).drop_last() =~= a + b.drop_last());
        assert((a + b).last() == b.last());
        lemma_size_concat(a, b.drop_last());
    }
}

/// One step of the walk (expand the top node, queue its children) strictly
/// shrinks the number of nodes left in the pending subtrees, so the walk ends
/// on every finite tree.
pub proof fn lemma_step_shrinks(stack: Seq<Tree>)
    requires
        stack.len() > 0,
    ensures
        forest_size(stack.drop_last() + stack.last().children) < forest_size(stack),
{
    lemma_size_concat(stack.drop_last(), stack.last().children);
}

proof fn lemma_below_concat(a: Seq<Tree>, b: Seq<Tree>)
    ensures
        showing_below(a + b) =~= showing_below(a).add(showing_below(b)),
    decreases b.len(),
{
    if b.len() == 0 {
        assert(a + b =~= a);
    } else {
        assert((a + b).drop_last() =~= a + b.drop_last());
        assert((a + b).last() == b.last());
        lemma_below_concat(a, b.drop_last());
    }
}

proof fn lemma_showing_split(kids: Seq<Tree>)
    ensures
        showing_in(kids) =~= showing_of(entries(kids)).to_multiset().add(showing_below(kids)),
    decreases kids.len(),
{
    broadcast use vstd::seq_lib::group_to_multiset_ensures;

    if kids.len() == 0 {
        assert(showing_of(entries(kids)) =~= Seq::<ElementRef>::empty());
        assert(showing_of(entries(kids)).to_multiset().len() == 0);
    } else {
        let rest = kids.drop_last();
        assert(entries(kids).drop_last() =~= entries(rest));
        lemma_showing_split(rest);
    }
}

proof fn lemma_walk_forest(stack: Seq<Tree>, found: Seq<ElementRef>)
    ensures
        walk_forest(stack, found).to_multiset() =~= found.to_multiset().add(showing_below(stack)),
    decreases forest_size(stack),
{
    if stack.len() > 0 {
        let t = stack.last();
        let next = stack.drop_last() + t.children;
        let more = showing_of(entries(t.children));
        lemma_step_shrinks(stack);
        lemma_walk_forest(next, found + more);
        lemma_multiset_commutative(found, more);
        lemma_below_concat(stack.drop_last(), t.children);
        lemma_showing_split(t.children);
    }
}

/// Walking a finite tree from its root collects exactly its showing strict
/// descendants, each as often as it occurs, whatever order the stack imposes.
/// Invisible nodes are not collected, but their subtrees are still walked.
pub proof fn lemma_walk_collects_showing(root: Tree)
    ensures
        walk_forest(seq![root], seq![]).to_multiset() =~= showing_in(root.children),
{
    broadcast use vstd::seq_lib::group_to_multiset_ensures;

    let start = seq![root];
    lemma_walk_forest(start, seq![]);
    assert(start.drop_last() =~= Seq::<Tree>::empty());
    assert(showing_below(start.drop_last()) =~= Multiset::empty());
    assert(showing_below(start) =~= showing_in(root.children));
    vstd::multiset::lemma_multiset_empty_len(Seq::<ElementRef>::empty().to_multiset());
}

} // verus!
