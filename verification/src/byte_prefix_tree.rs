//! A trie keyed by raw bytes that answers longest-prefix queries.

use crate::matching::{
    has_match, is_longest_match_len, lemma_longest_match_len_unique, longest_match, Matched,
};
use vstd::prelude::*;
use vstd::slice::slice_subrange;

verus! {

/// Number of child slots of a node that has any children: one per byte value.
const ENTRIES_PER_NODE: usize = 256;

/// One position in the key space: the value of the key that ends here, if
/// there is one, and the subtrees for the keys that go on.
///
/// A node that never had anything inserted below it holds no child slots at
/// all; the first insertion below it allocates all `ENTRIES_PER_NODE` of them.
struct Node<T> {
    data: Option<T>,
    children: Vec<Option<Node<T>>>,
}

/// When `k` is the rest of `key` from `at` on: an empty `k` where `at` is the
/// end of `key`; a non-empty `k` where it starts with the byte at `at` and
/// goes on as the rest of `key` from `at + 1` on.
proof fn lemma_skip_step(key: Seq<u8>, at: int, k: Seq<u8>)
    requires
        0 <= at <= key.len(),
    ensures
        k.len() == 0 ==> (k == key.skip(at) <==> at == key.len()),
        k.len() > 0 ==> (k == key.skip(at) <==> at < key.len() && k[0] == key[at] && k.drop_first()
            == key.skip(at + 1)),
{
    if k.len() == 0 {
        if at == key.len() {
            assert(k =~= key.skip(at));
        }
    } else if at < key.len() {
        if k == key.skip(at) {
            assert(k.drop_first() =~= key.skip(at + 1));
        }
        if k[0] == key[at] && k.drop_first() == key.skip(at + 1) {
            assert forall|i: int| 0 <= i < k.len() implies k[i] == key.skip(at)[i] by {
                if i > 0 {
                    assert(k[i] == k.drop_first()[i - 1]);
                }
            }
            assert(k =~= key.skip(at));
        }
    }
}

/// `to` is absent where `from` is, and else a clone of it.
spec fn copies<T: Clone>(from: Option<T>, to: Option<T>) -> bool {
    match (from, to) {
        (Some(a), Some(b)) => cloned(a, b),
        (None, None) => true,
        _ => false,
    }
}

impl<T> Node<T> {
    /// The subtree reached from this node by byte `b`, if there is one.
    spec fn child(self, b: u8) -> Option<Node<T>> {
        if (b as int) < self.children@.len() {
            self.children@[b as int]
        } else {
            None
        }
    }

    /// The value stored for `key`, read from this node downwards.
    spec fn lookup(self, key: Seq<u8>) -> Option<T>
        decreases key.len(),
    {
        if key.len() == 0 {
            self.data
        } else {
            match self.child(key[0]) {
                Some(c) => c.lookup(key.drop_first()),
                None => None,
            }
        }
    }

    /// Every node of the subtree has either no child slots or all of them.
    spec fn wf(self) -> bool
        decreases self,
    {
        &&& (self.children@.len() == 0 || self.children@.len() == ENTRIES_PER_NODE)
        &&& forall|i: int|
            0 <= i < self.children@.len() ==> match #[trigger] self.children@[i] {
                Some(c) => c.wf(),
                None => true,
            }
    }

    fn new() -> (node: Self)
        ensures
            node.wf(),
            node.data is None,
            node.children@.len() == 0,
    {
        Node { data: None, children: Vec::new() }
    }

    /// Stores `data` under the part of `key` from position `at` on, creating
    /// the nodes on the way that are not there yet.
    fn insert(&mut self, key: &[u8], at: usize, data: T)
        requires
            old(self).wf(),
            at <= key@.len(),
        ensures
            final(self).wf(),
            forall|k: Seq<u8>| #[trigger]
                final(self).lookup(k) == if k == key@.skip(at as int) {
                    Some(data)
                } else {
                    old(self).lookup(k)
                },
        decreases key@.len() - at,
    {
        let ghost before = *self;
        if at == key.len() {
            self.data = Some(data);
            proof {
                let after = *self;
                assert forall|k: Seq<u8>| #[trigger]
                    after.lookup(k) == if k == key@.skip(at as int) {
                        Some(data)
                    } else {
                        before.lookup(k)
                    } by {
                    lemma_skip_step(key@, at as int, k);
                    if k.len() > 0 {
                        assert(after.child(k[0]) == before.child(k[0]));
                    }
                }
            }
        } else {
            let head: u8 = key[at];
            if self.children.len() == 0 {
                self.allocate_children();
            }
            let ghost allocated = *self;
            let slot = &mut self.children[head as usize];
            if slot.is_none() {
                *slot = Some(Node::new());
            }
            let ghost below = slot->Some_0;
            match slot {
                Some(child) => child.insert(key, at + 1, data),
                None => {},
            }
            proof {
                let after = *self;
                assert(after.child(head) is Some);
                let grown = after.child(head)->Some_0;
                assert(forall|k: Seq<u8>| #[trigger]
                    grown.lookup(k) == if k == key@.skip(at + 1) {
                        Some(data)
                    } else {
                        below.lookup(k)
                    });
                assert forall|k: Seq<u8>| #[trigger]
                    after.lookup(k) == if k == key@.skip(at as int) {
                        Some(data)
                    } else {
                        before.lookup(k)
                    } by {
                    lemma_skip_step(key@, at as int, k);
                    if k.len() > 0 {
                        if k[0] == head {
                            assert(after.lookup(k) == grown.lookup(k.drop_first()));
                            if before.child(head) is None {
                                assert(below.lookup(k.drop_first()) is None);
                            }
                        } else {
                            assert(after.child(k[0]) == allocated.child(k[0]));
                        }
                    }
                }
            }
        }
    }

    /// A node with a clone of each value of this subtree, under the same key.
    fn duplicate(&self) -> (copy: Self) where T: Clone
        requires
            self.wf(),
        ensures
            copy.wf(),
            forall|k: Seq<u8>| copies(self.lookup(k), #[trigger] copy.lookup(k)),
        decreases self,
    {
        let data = match &self.data {
            Some(value) => Some(value.clone()),
            None => None,
        };
        let mut children: Vec<Option<Node<T>>> = Vec::new();
        let mut i: usize = 0;
        while i < self.children.len()
            invariant
                self.wf(),
                i <= self.children@.len(),
                children@.len() == i,
                forall|j: int|
                    0 <= j < i ==> match (self.children@[j], #[trigger] children@[j]) {
                        (Some(from), Some(to)) => to.wf() && forall|k: Seq<u8>|
                            copies(from.lookup(k), #[trigger] to.lookup(k)),
                        (None, None) => true,
                        _ => false,
                    },
            decreases self.children@.len() - i,
        {
            let child = match &self.children[i] {
                Some(from) => Some(from.duplicate()),
                None => None,
            };
            children.push(child);
            i += 1;
        }
        let copy = Node { data, children };
        proof {
            assert forall|k: Seq<u8>| copies(self.lookup(k), #[trigger] copy.lookup(k)) by {
                if k.len() > 0 {
                    let b = k[0] as int;
                    if b < self.children@.len() {
                        assert(match (self.children@[b], copy.children@[b]) {
                            (Some(from), Some(to)) => copies(
                                from.lookup(k.drop_first()),
                                to.lookup(k.drop_first()),
                            ),
                            (None, None) => true,
                            _ => false,
                        });
                    }
                }
            }
        }
        copy
    }

    /// Gives a node without child slots all of them, each empty.
    fn allocate_children(&mut self)
        requires
            old(self).children@.len() == 0,
        ensures
            final(self).data == old(self).data,
            final(self).children@.len() == ENTRIES_PER_NODE,
            forall|i: int| 0 <= i < ENTRIES_PER_NODE ==> final(self).children@[i] is None,
    {
        let mut n: usize = 0;
        while n < ENTRIES_PER_NODE
            invariant
                n <= ENTRIES_PER_NODE,
                self.data == old(self).data,
                self.children@.len() == n,
                forall|i: int| 0 <= i < n ==> self.children@[i] is None,
            decreases ENTRIES_PER_NODE - n,
        {
            self.children.push(None);
            n += 1;
        }
    }
}

/// A table from byte strings to values that finds, for a query, the longest
/// key that the query starts with.
pub struct BytePrefixTree<T> {
    root: Node<T>,
}

/// The result of a query that found a key: the key's value, borrowed from the
/// tree, and what the query holds after the key, borrowed from the query.
#[derive(Clone, Debug, PartialEq, Eq)]
pub enum Found<'a, 'b, T: 'a> {
    /// The whole query is a key.
    Exact(&'a T),
    /// A key is a strict prefix of the query; the second field is the
    /// non-empty rest of the query.
    WithRemaining(&'a T, &'b [u8]),
}

impl<'a, 'b, T> View for Found<'a, 'b, T> {
    type V = Matched<T>;

    open spec fn view(&self) -> Matched<T> {
        match *self {
            Found::Exact(value) => Matched::Exact(*value),
            Found::WithRemaining(value, rest) => Matched::WithRemaining(*value, rest@),
        }
    }
}

/// The mathematical value of a query's result.
pub open spec fn found_view<T>(found: Option<Found<'_, '_, T>>) -> Option<Matched<T>> {
    match found {
        Some(f) => Some(f@),
        None => None,
    }
}

impl<T> View for BytePrefixTree<T> {
    type V = Map<Seq<u8>, T>;

    /// The keys that were inserted, each with the value of its last insertion.
    closed spec fn view(&self) -> Map<Seq<u8>, T> {
        Map::new(|k: Seq<u8>| self.root.lookup(k) is Some, |k: Seq<u8>| self.root.lookup(k)->Some_0)
    }
}

impl<T> Default for BytePrefixTree<T> {
    fn default() -> (tree: Self)
        ensures
            tree@ == Map::<Seq<u8>, T>::empty(),
    {
        let tree = BytePrefixTree { root: Node::new() };
        assert(tree@ =~= Map::<Seq<u8>, T>::empty());
        tree
    }
}

impl<T: Clone> Clone for BytePrefixTree<T> {
    /// A tree with the same keys, each with a clone of its value.
    fn clone(&self) -> (copy: Self)
        ensures
            copy@.dom() == self@.dom(),
            forall|k: Seq<u8>| self@.contains_key(k) ==> cloned(self@[k], #[trigger] copy@[k]),
    {
        proof {
            use_type_invariant(self);
        }
        let copy = BytePrefixTree { root: self.root.duplicate() };
        proof {
            assert forall|k: Seq<u8>| self@.contains_key(k) == copy@.contains_key(k) by {
                assert(copies(self.root.lookup(k), copy.root.lookup(k)));
            }
            assert(copy@.dom() =~= self@.dom());
            assert forall|k: Seq<u8>| self@.contains_key(k) implies cloned(
                self@[k],
                #[trigger] copy@[k],
            ) by {
                assert(copies(self.root.lookup(k), copy.root.lookup(k)));
            }
        }
        copy
    }
}

impl<T> BytePrefixTree<T> {
    #[verifier::type_invariant]
    spec fn well_formed(self) -> bool {
        self.root.wf()
    }

    /// A tree without keys.
    pub fn new() -> (tree: Self)
        ensures
            tree@ == Map::<Seq<u8>, T>::empty(),
    {
        Default::default()
    }

    /// Stores `data` under `key`, in place of the value that `key` had if it
    /// had one. Every other key keeps its value.
    pub fn insert(&mut self, key: &[u8], data: T)
        ensures
            final(self)@ == old(self)@.insert(key@, data),
    {
        proof {
            use_type_invariant(&*self);
        }
        let mut root = Node::new();
        std::mem::swap(&mut root, &mut self.root);
        root.insert(key, 0, data);
        assert(key@.skip(0) =~= key@);
        self.root = root;
        assert(self@ =~= old(self)@.insert(key@, data));
    }

    /// Finds the longest key that `key` starts with. Returns its value, and
    /// with it the rest of `key` where the key found is shorter than `key`;
    /// returns `None` where `key` starts with no key of the tree.
    pub fn get_longest<'a, 'b>(&'a self, key: &'b [u8]) -> (found: Option<Found<'a, 'b, T>>)
        ensures
            found_view(found) == longest_match(self@, key@),
    {
        let mut node: &'a Node<T> = &self.root;
        let mut best: Option<(&'a T, usize)> = None;
        let mut at: usize = 0;
        loop
            invariant_except_break
                match best {
                    Some((value, n)) => {
                        &&& n < at
                        &&& self.root.lookup(key@.take(n as int)) == Some(*value)
                        &&& forall|j: int|
                            n < j < at ==> self.root.lookup(#[trigger] key@.take(j)) is None
                    },
                    None => forall|j: int|
                        0 <= j < at ==> self.root.lookup(#[trigger] key@.take(j)) is None,
                },
            invariant
                at <= key@.len(),
                forall|s: Seq<u8>| #[trigger]
                    node.lookup(s) == self.root.lookup(key@.take(at as int) + s),
            ensures
                match best {
                    Some((value, n)) => {
                        &&& n <= key@.len()
                        &&& self.root.lookup(key@.take(n as int)) == Some(*value)
                        &&& forall|j: int|
                            n < j <= key@.len() ==> self.root.lookup(#[trigger] key@.take(j))
                                is None
                    },
                    None => forall|j: int|
                        0 <= j <= key@.len() ==> self.root.lookup(#[trigger] key@.take(j))
                            is None,
                },
            decreases key@.len() - at,
        {
            proof {
                let end = Seq::<u8>::empty();
                assert(key@.take(at as int) + end =~= key@.take(at as int));
                assert(node.lookup(end) == node.data);
                assert(self.root.lookup(key@.take(at as int)) == node.data);
            }
            match &node.data {
                Some(value) => {
                    best = Some((value, at));
                },
                None => {},
            }
            if at == key.len() {
                break ;
            }
            let head: u8 = key[at];
            let next: Option<&'a Node<T>> = if (head as usize) < node.children.len() {
                node.children[head as usize].as_ref()
            } else {
                None
            };
            match next {
                Some(child) => {
                    proof {
                        assert forall|s: Seq<u8>| #[trigger]
                            child.lookup(s) == self.root.lookup(key@.take(at + 1) + s) by {
                            let t = seq![head] + s;
                            assert(t.drop_first() =~= s);
                            assert(key@.take(at as int) + t =~= key@.take(at + 1) + s);
                            assert(node.lookup(t) == child.lookup(s));
                        }
                    }
                    node = child;
                    at += 1;
                },
                None => {
                    proof {
                        assert forall|j: int| at < j <= key@.len() implies self.root.lookup(
                            #[trigger] key@.take(j),
                        ) is None by {
                            let t = key@.subrange(at as int, j);
                            assert(key@.take(at as int) + t =~= key@.take(j));
                            assert(node.lookup(t) is None);
                        }
                    }
                    break ;
                },
            }
        }
        match best {
            Some((value, n)) => {
                proof {
                    assert(self@.contains_key(key@.take(n as int)));
                    assert(is_longest_match_len(self@, key@, n as int));
                    lemma_longest_match_len_unique(self@, key@, n as int);
                    assert(key@.take(key@.len() as int) =~= key@);
                }
                if n == key.len() {
                    Some(Found::Exact(value))
                } else {
                    let rest = slice_subrange(key, n, key.len());
                    Some(Found::WithRemaining(value, rest))
                }
            },
            None => {
                proof {
                    assert(!has_match(self@, key@));
                }
                None
            },
        }
    }
}

} // verus!
