//! The authenticated map's tree and its depth-first iterator.
use vstd::prelude::*;

verus! {

/// A child of a fork: the subtree together with its digest.
pub struct Link<K, V> {
    pub node: Node<K, V>,
    pub digest: Vec<u8>,
}

/// A node of the map: one entry, or a fork of up to two subtrees
/// (index 0 on the left, index 1 on the right).
pub enum Node<K, V> {
    Leaf(K, V),
    Fork(Option<Box<Link<K, V>>>, Option<Box<Link<K, V>>>),
}

impl<K, V> Link<K, V> {
    /// The number of entries under this link, if it fits in a `usize`.
    pub fn entry_count(&self) -> (r: Option<usize>)
        ensures
            r matches Some(n) ==> n == node_entries(self.node).len(),
            r is None ==> node_entries(self.node).len() > usize::MAX,
        decreases self,
    {
        self.node.entry_count()
    }
}

impl<K, V> Node<K, V> {
    /// The number of entries in this subtree, if it fits in a `usize`.
    pub fn entry_count(&self) -> (r: Option<usize>)
        ensures
            r matches Some(n) ==> n == node_entries(*self).len(),
            r is None ==> node_entries(*self).len() > usize::MAX,
        decreases self,
    {
        match self {
            Node::Leaf(_, _) => Some(1),
            Node::Fork(l, r) => {
                let a: usize = match l {
                    None => 0,
                    Some(link) => match link.entry_count() {
                        None => {
                            return None;
                        },
                        Some(n) => n,
                    },
                };
                let b: usize = match r {
                    None => 0,
                    Some(link) => match link.entry_count() {
                        None => {
                            return None;
                        },
                        Some(n) => n,
                    },
                };
                a.checked_add(b)
            },
        }
    }
}

/// The entries of an optional subtree, left to right.
pub open spec fn link_entries<K, V>(l: Option<Box<Link<K, V>>>) -> Seq<(K, V)>
    decreases l,
{
    match l {
        None => Seq::empty(),
        Some(b) => node_entries(b.node),
    }
}

/// The entries of a subtree, left to right.
pub open spec fn node_entries<K, V>(n: Node<K, V>) -> Seq<(K, V)>
    decreases n,
{
    match n {
        Node::Leaf(k, v) => seq![(k, v)],
        Node::Fork(l, r) => link_entries(l) + link_entries(r),
    }
}

/// The number of edges on the longest path from an optional child link
/// down to a leaf, counting the link itself.
pub open spec fn link_height<K, V>(l: Option<Box<Link<K, V>>>) -> nat
    decreases l,
{
    match l {
        None => 0,
        Some(b) => 1 + node_height(b.node),
    }
}

/// The number of edges on the longest path from a node down to a leaf.
pub open spec fn node_height<K, V>(n: Node<K, V>) -> nat
    decreases n,
{
    match n {
        Node::Leaf(_, _) => 0,
        Node::Fork(l, r) => if link_height(l) >= link_height(r) {
            link_height(l)
        } else {
            link_height(r)
        },
    }
}

/// How much traversal work an optional subtree still takes.
spec fn link_weight<K, V>(l: Option<Box<Link<K, V>>>) -> nat
    decreases l,
{
    match l {
        None => 0,
        Some(b) => node_weight(b.node),
    }
}

/// How much traversal work a subtree still takes: every fork is popped twice.
spec fn node_weight<K, V>(n: Node<K, V>) -> nat
    decreases n,
{
    match n {
        Node::Leaf(_, _) => 1,
        Node::Fork(l, r) => 3 + link_weight(l) + link_weight(r),
    }
}

/// The entries still owed by a node on the work stack: a fork in phase 1
/// has had its left side explored.
pub open spec fn pending_entries<K, V>(n: Node<K, V>, phase: usize) -> Seq<(K, V)> {
    match n {
        Node::Leaf(k, v) => seq![(k, v)],
        Node::Fork(_, r) => if phase == 0 {
            node_entries(n)
        } else {
            link_entries(r)
        },
    }
}

spec fn pending_weight<K, V>(n: Node<K, V>, phase: usize) -> nat {
    match n {
        Node::Leaf(_, _) => 1,
        Node::Fork(_, r) => if phase == 0 {
            node_weight(n)
        } else {
            1 + link_weight(r)
        },
    }
}

/// The entries still owed by a work stack, from its top down.
pub open spec fn stack_entries<K, V>(s: Seq<(&Node<K, V>, usize)>) -> Seq<(K, V)>
    decreases s.len(),
{
    if s.len() == 0 {
        Seq::empty()
    } else {
        pending_entries(*s.last().0, s.last().1) + stack_entries(s.drop_last())
    }
}

spec fn stack_weight<K, V>(s: Seq<(&Node<K, V>, usize)>) -> nat
    decreases s.len(),
{
    if s.len() == 0 {
        0
    } else {
        pending_weight(*s.last().0, s.last().1) + stack_weight(s.drop_last())
    }
}

/// Iteration is deterministic: two iterators started on the same tree owe
/// the same entries in the same order.
pub proof fn lemma_iteration_deterministic<K, V>(root: Node<K, V>, a: Iter<K, V>, b: Iter<K, V>)
    requires
        a@ == node_entries(root),
        b@ == node_entries(root),
    ensures
        a@ == b@,
{
}

/// A depth-first iterator over the entries of a tree, left before right,
/// that knows how many entries are left.
pub struct Iter<'a, K, V> {
    stack: Vec<(&'a Node<K, V>, usize)>,
    total: usize,
    index: usize,
    height: Ghost<nat>,
}

impl<'a, K, V> View for Iter<'a, K, V> {
    type V = Seq<(K, V)>;

    /// The entries not yet yielded, in the order they will come.
    closed spec fn view(&self) -> Seq<(K, V)> {
        stack_entries(self.stack@)
    }
}

impl<'a, K, V> Iter<'a, K, V> {
    pub closed spec fn wf(&self) -> bool {
        &&& self.index <= self.total
        &&& self@.len() == self.total - self.index
        &&& forall|i: int| 0 <= i < self.stack@.len() ==> #[trigger] self.stack@[i].1 <= 1
        &&& forall|i: int|
            0 <= i < self.stack@.len() ==> node_height(*(#[trigger] self.stack@[i]).0) + i
                <= self.height@
        &&& self.stack@.len() <= self.height@ + 1
    }

    /// The height of the tree being traversed.
    pub closed spec fn height_bound(&self) -> nat {
        self.height@
    }

    /// The number of (node, phase) pairs on the work stack.
    pub closed spec fn stack_depth(&self) -> nat {
        self.stack@.len()
    }

    /// Starts a traversal of the tree under `root`, which holds `total` entries.
    pub fn new(root: &'a Node<K, V>, total: usize) -> (r: Self)
        requires
            total == node_entries(*root).len(),
        ensures
            r.wf(),
            r@ == node_entries(*root),
            r.height_bound() == node_height(*root),
            r.stack_depth() <= r.height_bound() + 1,
    {
        let r = Iter { stack: vec![(root, 0)], total, index: 0, height: Ghost(node_height(*root)) };
        proof {
            let s = r.stack@;
            assert(s.len() == 1 && s.last() == (root, 0usize));
            assert(s.drop_last() =~= Seq::<(&Node<K, V>, usize)>::empty());
            assert(pending_entries(*root, 0) == node_entries(*root));
            assert(stack_entries(s.drop_last()) == Seq::<(K, V)>::empty());
            assert(stack_entries(s) == pending_entries(*root, 0) + stack_entries(s.drop_last()));
            assert(r@ =~= node_entries(*root) + Seq::<(K, V)>::empty());
        }
        r
    }

    /// Starts a traversal of the tree under `root`, counting its entries
    /// first; `None` where they are more than a `usize` holds.
    pub fn over(root: &'a Node<K, V>) -> (r: Option<Self>)
        ensures
            r matches Some(it) ==> it.wf() && it@ == node_entries(*root) && it.height_bound()
                == node_height(*root),
            r is None ==> node_entries(*root).len() > usize::MAX,
    {
        match root.entry_count() {
            None => None,
            Some(total) => Some(Iter::new(root, total)),
        }
    }

    /// The number of entries left.
    pub fn len(&self) -> (r: usize)
        requires
            self.wf(),
        ensures
            r == self@.len(),
    {
        self.total - self.index
    }

    /// Exact bounds on the number of entries left.
    pub fn size_hint(&self) -> (r: (usize, Option<usize>))
        requires
            self.wf(),
        ensures
            r.0 == self@.len(),
            r.1 == Some(self@.len() as usize),
    {
        let size = self.total - self.index;
        (size, Some(size))
    }

    /// Yields every entry not yet yielded, in order, and leaves the
    /// iterator exhausted.
    pub fn collect_remaining(&mut self) -> (r: Vec<(&'a K, &'a V)>)
        requires
            old(self).wf(),
        ensures
            final(self).wf(),
            final(self).height_bound() == old(self).height_bound(),
            final(self)@.len() == 0,
            r@.len() == old(self)@.len(),
            forall|i: int| 0 <= i < r@.len() ==> (*r@[i].0, *r@[i].1) == old(self)@[i],
    {
        let mut out: Vec<(&'a K, &'a V)> = Vec::new();
        while self.len() > 0
            invariant
                self.wf(),
                self.height_bound() == old(self).height_bound(),
                out@.len() + self@.len() == old(self)@.len(),
                self@ =~= old(self)@.subrange(out@.len() as int, old(self)@.len() as int),
                forall|i: int| 0 <= i < out@.len() ==> (*out@[i].0, *out@[i].1) == old(self)@[i],
            decreases self@.len(),
        {
            match self.next() {
                Some(e) => {
                    out.push(e);
                    proof {
                        assert(self@ =~= old(self)@.subrange(out@.len() as int, old(self)@.len() as int));
                    }
                },
                None => {},
            }
        }
        out
    }

    /// Yields the next entry, or `None` once every entry has been yielded,
    /// and on every call after that.
    pub fn next(&mut self) -> (r: Option<(&'a K, &'a V)>)
        requires
            old(self).wf(),
        ensures
            final(self).wf(),
            final(self).height_bound() == old(self).height_bound(),
            final(self).stack_depth() <= final(self).height_bound() + 1,
            old(self)@.len() == 0 ==> r is None && final(self)@ == old(self)@,
            old(self)@.len() > 0 ==> (r matches Some((k, v)) && (*k, *v) == old(self)@[0]
                && final(self)@ == old(self)@.drop_first()),
    {
        loop
            invariant
                self.wf(),
                self@ == old(self)@,
                self.height@ == old(self).height@,
            decreases stack_weight(self.stack@),
        {
            let ghost s0 = self.stack@;
            match self.stack.pop() {
                None => {
                    return None;
                },
                Some(top) => {
                    let (node, idx) = top;
                    proof {
                        assert(self.stack@ == s0.drop_last());
                        assert(s0[s0.len() - 1].1 <= 1);
                        assert(node_height(*node) + s0.len() - 1 <= self.height@);
                    }
                    match node {
                        Node::Leaf(k, v) => {
                            self.index = self.index + 1;
                            proof {
                                assert(old(self)@ =~= seq![(*k, *v)] + self@);
                                assert(forall|i: int| 0 <= i < self.stack@.len() ==> #[trigger] self.stack@[i] == s0[i]);
                            }
                            return Some((k, v));
                        },
                        Node::Fork(left, right) => {
                            let child = if idx == 0 {
                                self.stack.push((node, 1));
                                left
                            } else {
                                right
                            };
                            let ghost s1 = self.stack@;
                            proof {
                                let rest = s0.drop_last();
                                assert(forall|i: int| 0 <= i < rest.len() ==> #[trigger] s1[i] == s0[i]);
                                assert(link_height(*child) <= node_height(*node));
                                if idx == 0 {
                                    assert(s1.drop_last() == rest);
                                    assert(stack_entries(s1) == link_entries(*right) + stack_entries(rest));
                                    assert(stack_weight(s1) == 1 + link_weight(*right) + stack_weight(rest));
                                } else {
                                    assert(s1 == rest);
                                }
                                assert(stack_entries(s0) == pending_entries(*node, idx) + stack_entries(rest));
                                assert(stack_entries(s0) =~= link_entries(*child) + stack_entries(s1));
                                assert(stack_weight(s0) > link_weight(*child) + stack_weight(s1));
                            }
                            match child {
                                None => {
                                    proof {
                                        assert(self@ =~= old(self)@);
                                    }
                                },
                                Some(link) => {
                                    self.stack.push((&link.node, 0));
                                    proof {
                                        assert(node_height(link.node) + 1 <= node_height(*node));
                                        assert(forall|i: int| 0 <= i < s1.len() ==> #[trigger] self.stack@[i] == s1[i]);
                                        assert(self.stack@.drop_last() == s1);
                                        assert(stack_entries(self.stack@) == node_entries(link.node) + stack_entries(s1));
                                        assert(stack_weight(self.stack@) == node_weight(link.node) + stack_weight(s1));
                                        assert(self@ =~= old(self)@);
                                    }
                                },
                            }
                        },
                    }
                },
            }
        }
    }
}

} // verus!
