//! Intrusive doubly-linked lists.
//!
//! The nodes live inside the items themselves; here the memory that holds
//! them is a table of nodes indexed by address. Address 0 stands for the
//! null pointer (a node that is on no list) and address 1 for the end of a
//! list, so items have addresses from 2 up.

use vstd::multiset::Multiset;
use vstd::prelude::*;

verus! {

/// Link value of a node that is on no list.
pub const LINK_NULL: usize = 0;

/// Link value that marks either end of a list.
pub const LINK_END: usize = 1;

/// Linked-list node for the [`InvasiveList`].
#[derive(Clone, Copy, Debug, PartialEq, Eq, Structural)]
pub struct InvasiveListNode {
    /// Previous item, [`LINK_END`] for the first, [`LINK_NULL`] when unlinked.
    pub prev: usize,
    /// Next item, [`LINK_END`] for the last, [`LINK_NULL`] when unlinked.
    pub next: usize,
}

impl InvasiveListNode {
    /// A node that is on no list.
    pub fn new() -> (r: Self)
        ensures
            r == null_node(),
    {
        Self { prev: LINK_NULL, next: LINK_NULL }
    }

    /// Whether this node is on some list.
    pub open spec fn is_linked(self) -> bool {
        self.next != LINK_NULL
    }
}

/// Types that can be stored in an [`InvasiveList`]: each holds its own node.
pub trait HasListNode {
    /// The node that the item holds.
    spec fn node_of(&self) -> InvasiveListNode;

    /// The node that the item holds.
    fn list_node(&self) -> (r: &InvasiveListNode)
        ensures
            *r == self.node_of(),
    ;

    /// The node that the item holds, to relink it.
    fn list_node_mut(&mut self) -> (r: &mut InvasiveListNode)
        ensures
            *r == old(self).node_of(),
            final(self).node_of() == *final(r),
    ;
}

impl HasListNode for InvasiveListNode {
    open spec fn node_of(&self) -> InvasiveListNode {
        *self
    }

    fn list_node(&self) -> (r: &InvasiveListNode) {
        self
    }

    fn list_node_mut(&mut self) -> (r: &mut InvasiveListNode) {
        self
    }
}

/// The node of an item that is on no list.
pub open spec fn null_node() -> InvasiveListNode {
    InvasiveListNode { prev: LINK_NULL, next: LINK_NULL }
}

/// The link that points at position `i` of `items`: that item, or the end
/// marker when `i` is outside the list.
pub open spec fn link_at(items: Seq<usize>, i: int) -> usize {
    if 0 <= i < items.len() {
        items[i]
    } else {
        LINK_END
    }
}

/// The link that points at the first item, as stored in a list head.
pub open spec fn head_link(items: Seq<usize>) -> usize {
    if items.len() == 0 {
        LINK_NULL
    } else {
        items[0]
    }
}

/// The link that points at the last item, as stored in a list head.
pub open spec fn tail_link(items: Seq<usize>) -> usize {
    if items.len() == 0 {
        LINK_NULL
    } else {
        items.last()
    }
}

/// `items` are distinct addresses of `nodes`, each linked to its neighbours.
pub open spec fn chain_ok(nodes: Seq<InvasiveListNode>, items: Seq<usize>) -> bool {
    &&& forall|i: int| 0 <= i < items.len() ==> 2 <= #[trigger] items[i] < nodes.len()
    &&& forall|i: int, j: int| 0 <= i < j < items.len() ==> items[i] != items[j]
    &&& forall|i: int|
        0 <= i < items.len() ==> (#[trigger] nodes[items[i] as int]).prev == link_at(items, i - 1)
            && nodes[items[i] as int].next == link_at(items, i + 1)
}

/// `items` is a run of linked nodes that ends the list: each node's next
/// link names the item after it, and the last one's names the end.
pub open spec fn forward_ok(nodes: Seq<InvasiveListNode>, items: Seq<usize>) -> bool {
    &&& forall|i: int| 0 <= i < items.len() ==> 2 <= #[trigger] items[i] < nodes.len()
    &&& forall|i: int|
        0 <= i < items.len() ==> (#[trigger] nodes[items[i] as int]).next == link_at(items, i + 1)
}

/// Distinct addresses drawn from `2..n` number at most `n - 2`.
pub proof fn lemma_distinct_addresses_bounded(items: Seq<usize>, n: int)
    requires
        n >= 2,
        forall|i: int| 0 <= i < items.len() ==> 2 <= #[trigger] items[i] < n,
        forall|i: int, j: int| 0 <= i < j < items.len() ==> items[i] != items[j],
    ensures
        items.len() <= n - 2,
{
    let s = items.map_values(|a: usize| a as int);
    assert forall|i: int, j: int| 0 <= i < s.len() && 0 <= j < s.len() && i != j implies s[i] != s[j] by {
        if i < j {
            assert(items[i] != items[j]);
        } else {
            assert(items[j] != items[i]);
        }
    }
    s.unique_seq_to_set();
    vstd::set_lib::lemma_int_range(2, n);
    assert forall|x: int| s.to_set().contains(x) implies vstd::set_lib::set_int_range(2, n).contains(x) by {
        let i = choose|i: int| 0 <= i < s.len() && s[i] == x;
        assert(items[i] == x);
    }
    vstd::set_lib::lemma_len_subset(s.to_set(), vstd::set_lib::set_int_range(2, n));
}

/// Invasive linked list.
pub struct InvasiveList {
    first: usize,
    last: usize,
    len: usize,
    items: Ghost<Seq<usize>>,
}

impl View for InvasiveList {
    type V = Seq<usize>;

    closed spec fn view(&self) -> Seq<usize> {
        self.items@
    }
}

impl InvasiveList {
    /// The list's links are consistent with the node memory `nodes`.
    pub closed spec fn wf(&self, nodes: Seq<InvasiveListNode>) -> bool {
        &&& self.len == self.items@.len()
        &&& self.first == head_link(self.items@)
        &&& self.last == tail_link(self.items@)
        &&& chain_ok(nodes, self.items@)
    }

    /// What a well-formed list tells of its items.
    pub proof fn lemma_wf(&self, nodes: Seq<InvasiveListNode>)
        requires
            self.wf(nodes),
        ensures
            chain_ok(nodes, self@),
            forward_ok(nodes, self@),
            forall|i: int| 0 <= i < self@.len() ==> (#[trigger] nodes[self@[i] as int]).is_linked(),
    {
    }

    /// A well-formed list stays so when memory outside its items changes.
    pub proof fn lemma_frame(&self, nodes: Seq<InvasiveListNode>, nodes2: Seq<InvasiveListNode>)
        requires
            self.wf(nodes),
            nodes.len() == nodes2.len(),
            forall|a: usize| #[trigger] self@.contains(a) ==> nodes2[a as int] == nodes[a as int],
        ensures
            self.wf(nodes2),
    {
        let items = self.items@;
        assert forall|i: int| 0 <= i < items.len() implies (#[trigger] nodes2[items[i] as int]).prev
            == link_at(items, i - 1) && nodes2[items[i] as int].next == link_at(items, i + 1) by {
            assert(self@.contains(items[i]));
        }
    }

    /// Create an empty list.
    pub fn new() -> (r: Self)
        ensures
            r@ == Seq::<usize>::empty(),
            forall|nodes: Seq<InvasiveListNode>| r.wf(nodes),
    {
        Self { first: LINK_NULL, last: LINK_NULL, len: 0, items: Ghost(Seq::empty()) }
    }

    /// Number of items on the list.
    pub fn len(&self) -> (r: usize)
        ensures
            r == self.spec_len(),
    {
        self.len
    }

    /// Number of items on the list.
    pub closed spec fn spec_len(&self) -> nat {
        self.len as nat
    }

    /// In a well-formed list, the length is that of its items.
    pub proof fn lemma_len(&self, nodes: Seq<InvasiveListNode>)
        requires
            self.wf(nodes),
        ensures
            self.spec_len() == self@.len(),
    {
    }

    /// Insert an item at the front; fails when the item is already on a list.
    pub fn push_front(&mut self, nodes: &mut Vec<InvasiveListNode>, item: usize) -> (r: Result<(), ()>)
        requires
            old(self).wf(old(nodes)@),
            2 <= item < old(nodes)@.len(),
            !old(nodes)@[item as int].is_linked() ==> old(nodes)@[item as int].prev == LINK_NULL,
        ensures
            final(nodes)@.len() == old(nodes)@.len(),
            final(self).wf(final(nodes)@),
            r is Err <==> old(nodes)@[item as int].is_linked(),
            r is Err ==> final(self)@ == old(self)@ && final(nodes)@ == old(nodes)@,
            r is Ok ==> final(self)@ == seq![item] + old(self)@,
            forall|a: usize|
                a < old(nodes)@.len() && a != item && !old(self)@.contains(a)
                    ==> #[trigger] final(nodes)@[a as int] == old(nodes)@[a as int],
    {
        proof {
            self.lemma_wf(nodes@);
        }
        if nodes[item].next != LINK_NULL {
            return Err(());
        }
        let ghost old_nodes = nodes@;
        let ghost old_items = self.items@;
        assert(!old_items.contains(item)) by {
            if old_items.contains(item) {
                let k = choose|k: int| 0 <= k < old_items.len() && old_items[k] == item;
                assert(old_nodes[old_items[k] as int].is_linked());
            }
        }
        let old_first = self.first;
        nodes[item] = InvasiveListNode {
            prev: LINK_END,
            next: if old_first == LINK_NULL { LINK_END } else { old_first },
        };
        if old_first != LINK_NULL {
            let n = nodes[old_first];
            nodes[old_first] = InvasiveListNode { prev: item, next: n.next };
        } else {
            self.last = item;
        }
        self.first = item;
        let nlen = nodes.len();
        proof {
            lemma_distinct_addresses_bounded(old_items, nlen as int);
        }
        self.len = self.len + 1;
        self.items = Ghost(seq![item] + old_items);
        proof {
            let new_items = self.items@;
            assert forall|i: int| 0 <= i < new_items.len() implies (#[trigger] nodes@[new_items[i] as int]).prev
                == link_at(new_items, i - 1) && nodes@[new_items[i] as int].next == link_at(new_items, i + 1) by {
                if i > 0 {
                    assert(new_items[i] == old_items[i - 1]);
                    if i > 1 {
                        assert(old_items[i - 1] != old_items[0]);
                    }
                }
            }
            assert forall|i: int, j: int| 0 <= i < j < new_items.len() implies new_items[i] != new_items[j] by {
                if i == 0 {
                    assert(old_items.contains(new_items[j]) || j == 0);
                    assert(new_items[j] == old_items[j - 1]);
                }
            }
            assert forall|a: usize|
                a < old_nodes.len() && a != item && !old_items.contains(a) implies #[trigger] nodes@[a as int]
                == old_nodes[a as int] by {
                if old_first != LINK_NULL {
                    assert(old_items.contains(old_first));
                }
            }
        }
        Ok(())
    }

    /// Insert an item at the back; fails when the item is already on a list.
    pub fn push_back(&mut self, nodes: &mut Vec<InvasiveListNode>, item: usize) -> (r: Result<(), ()>)
        requires
            old(self).wf(old(nodes)@),
            2 <= item < old(nodes)@.len(),
            !old(nodes)@[item as int].is_linked() ==> old(nodes)@[item as int].prev == LINK_NULL,
        ensures
            final(nodes)@.len() == old(nodes)@.len(),
            final(self).wf(final(nodes)@),
            r is Err <==> old(nodes)@[item as int].is_linked(),
            r is Err ==> final(self)@ == old(self)@ && final(nodes)@ == old(nodes)@,
            r is Ok ==> final(self)@ == old(self)@.push(item),
            forall|a: usize|
                a < old(nodes)@.len() && a != item && !old(self)@.contains(a)
                    ==> #[trigger] final(nodes)@[a as int] == old(nodes)@[a as int],
    {
        proof {
            self.lemma_wf(nodes@);
        }
        if nodes[item].next != LINK_NULL {
            return Err(());
        }
        let ghost old_nodes = nodes@;
        let ghost old_items = self.items@;
        assert(!old_items.contains(item)) by {
            if old_items.contains(item) {
                let k = choose|k: int| 0 <= k < old_items.len() && old_items[k] == item;
                assert(old_nodes[old_items[k] as int].is_linked());
            }
        }
        let old_last = self.last;
        nodes[item] = InvasiveListNode {
            prev: if old_last == LINK_NULL { LINK_END } else { old_last },
            next: LINK_END,
        };
        if old_last != LINK_NULL {
            let n = nodes[old_last];
            nodes[old_last] = InvasiveListNode { prev: n.prev, next: item };
        } else {
            self.first = item;
        }
        self.last = item;
        let nlen = nodes.len();
        proof {
            lemma_distinct_addresses_bounded(old_items, nlen as int);
        }
        self.len = self.len + 1;
        self.items = Ghost(old_items.push(item));
        proof {
            let new_items = self.items@;
            let n = old_items.len() as int;
            assert forall|i: int| 0 <= i < new_items.len() implies (#[trigger] nodes@[new_items[i] as int]).prev
                == link_at(new_items, i - 1) && nodes@[new_items[i] as int].next == link_at(new_items, i + 1) by {
                if i < n {
                    assert(new_items[i] == old_items[i]);
                    if i < n - 1 {
                        assert(old_items[i] != old_items[n - 1]);
                    }
                }
            }
            assert forall|i: int, j: int| 0 <= i < j < new_items.len() implies new_items[i] != new_items[j] by {
                if j == n {
                    assert(old_items.contains(new_items[i]));
                }
            }
            assert forall|a: usize|
                a < old_nodes.len() && a != item && !old_items.contains(a) implies #[trigger] nodes@[a as int]
                == old_nodes[a as int] by {
                if old_last != LINK_NULL {
                    assert(old_items.contains(old_last));
                }
            }
        }
        Ok(())
    }

    /// Remove the item at the front, if any.
    pub fn pop_front(&mut self, nodes: &mut Vec<InvasiveListNode>) -> (r: Option<usize>)
        requires
            old(self).wf(old(nodes)@),
        ensures
            final(nodes)@.len() == old(nodes)@.len(),
            final(self).wf(final(nodes)@),
            r is None <==> old(self)@.len() == 0,
            r is None ==> final(self)@ == old(self)@ && final(nodes)@ == old(nodes)@,
            r is Some ==> r->0 == old(self)@[0] && final(self)@ == old(self)@.drop_first()
                && final(nodes)@[r->0 as int] == null_node(),
            forall|a: usize|
                a < old(nodes)@.len() && !old(self)@.contains(a)
                    ==> #[trigger] final(nodes)@[a as int] == old(nodes)@[a as int],
    {
        if self.first == LINK_NULL {
            return None;
        }
        let ghost old_items = self.items@;
        let ghost old_nodes = nodes@;
        let node = self.first;
        let next = nodes[node].next;
        if next > LINK_END {
            let n = nodes[next];
            nodes[next] = InvasiveListNode { prev: LINK_END, next: n.next };
            self.first = next;
        } else {
            self.first = LINK_NULL;
            self.last = LINK_NULL;
        }
        nodes[node] = InvasiveListNode::new();
        self.len = self.len - 1;
        self.items = Ghost(old_items.drop_first());
        proof {
            let new_items = self.items@;
            assert forall|i: int| 0 <= i < new_items.len() implies (#[trigger] nodes@[new_items[i] as int]).prev
                == link_at(new_items, i - 1) && nodes@[new_items[i] as int].next == link_at(new_items, i + 1) by {
                assert(new_items[i] == old_items[i + 1]);
                assert(old_items[i + 1] != old_items[0]);
                if i > 0 {
                    assert(old_items[i + 1] != old_items[1]);
                }
            }
            assert forall|a: usize|
                a < old_nodes.len() && !old_items.contains(a) implies #[trigger] nodes@[a as int]
                == old_nodes[a as int] by {
                assert(old_items.contains(old_items[0]));
                if next > LINK_END {
                    assert(old_items.contains(old_items[1]));
                }
            }
        }
        Some(node)
    }

    /// Remove the item at the back, if any.
    pub fn pop_back(&mut self, nodes: &mut Vec<InvasiveListNode>) -> (r: Option<usize>)
        requires
            old(self).wf(old(nodes)@),
        ensures
            final(nodes)@.len() == old(nodes)@.len(),
            final(self).wf(final(nodes)@),
            r is None <==> old(self)@.len() == 0,
            r is None ==> final(self)@ == old(self)@ && final(nodes)@ == old(nodes)@,
            r is Some ==> r->0 == old(self)@.last() && final(self)@ == old(self)@.drop_last()
                && final(nodes)@[r->0 as int] == null_node(),
            forall|a: usize|
                a < old(nodes)@.len() && !old(self)@.contains(a)
                    ==> #[trigger] final(nodes)@[a as int] == old(nodes)@[a as int],
    {
        if self.last == LINK_NULL {
            return None;
        }
        let ghost old_items = self.items@;
        let ghost old_nodes = nodes@;
        let ghost n = old_items.len() as int;
        let node = self.last;
        let prev = nodes[node].prev;
        if prev > LINK_END {
            let p = nodes[prev];
            nodes[prev] = InvasiveListNode { prev: p.prev, next: LINK_END };
            self.last = prev;
        } else {
            self.first = LINK_NULL;
            self.last = LINK_NULL;
        }
        nodes[node] = InvasiveListNode::new();
        self.len = self.len - 1;
        self.items = Ghost(old_items.drop_last());
        proof {
            let new_items = self.items@;
            assert forall|i: int| 0 <= i < new_items.len() implies (#[trigger] nodes@[new_items[i] as int]).prev
                == link_at(new_items, i - 1) && nodes@[new_items[i] as int].next == link_at(new_items, i + 1) by {
                assert(new_items[i] == old_items[i]);
                assert(old_items[i] != old_items[n - 1]);
                if i < n - 2 {
                    assert(old_items[i] != old_items[n - 2]);
                }
            }
            assert forall|a: usize|
                a < old_nodes.len() && !old_items.contains(a) implies #[trigger] nodes@[a as int]
                == old_nodes[a as int] by {
                assert(old_items.contains(old_items[n - 1]));
                if prev > LINK_END {
                    assert(old_items.contains(old_items[n - 2]));
                }
            }
        }
        Some(node)
    }

    /// The item at the front, if any.
    pub fn front(&self) -> (r: Option<usize>)
        ensures
            r == self.spec_front(),
    {
        if self.first == LINK_NULL {
            None
        } else {
            Some(self.first)
        }
    }

    /// The item at the front, if any.
    pub closed spec fn spec_front(&self) -> Option<usize> {
        if self.first == LINK_NULL {
            None
        } else {
            Some(self.first)
        }
    }

    /// The item at the back, if any.
    pub fn back(&self) -> (r: Option<usize>)
        ensures
            r == self.spec_back(),
    {
        if self.last == LINK_NULL {
            None
        } else {
            Some(self.last)
        }
    }

    /// The item at the back, if any.
    pub closed spec fn spec_back(&self) -> Option<usize> {
        if self.last == LINK_NULL {
            None
        } else {
            Some(self.last)
        }
    }

    /// In a well-formed list, front and back are the first and last items.
    pub proof fn lemma_ends(&self, nodes: Seq<InvasiveListNode>)
        requires
            self.wf(nodes),
        ensures
            self.spec_front() == (if self@.len() == 0 { None } else { Some(self@[0]) }),
            self.spec_back() == (if self@.len() == 0 { None } else { Some(self@.last()) }),
    {
    }

    /// Iterate over the items from front to back.
    pub fn iter(&self) -> (r: InvasiveListIter)
        ensures
            r@ == self@,
            r.spec_cur() == self.first_link(),
    {
        InvasiveListIter { cur: self.first, rest: Ghost(self.items@) }
    }

    /// A fresh iterator over a well-formed list can be walked over `nodes`.
    pub proof fn lemma_iter(&self, nodes: Seq<InvasiveListNode>, it: InvasiveListIter)
        requires
            self.wf(nodes),
            it@ == self@,
            it.spec_cur() == self.first_link(),
        ensures
            it.walk_ok(nodes),
    {
    }

    /// The head link of this list.
    pub closed spec fn first_link(&self) -> usize {
        self.first
    }

    /// Whether `thing` is on this list.
    pub fn contains(&self, nodes: &Vec<InvasiveListNode>, thing: usize) -> (r: bool)
        requires
            self.wf(nodes@),
            2 <= thing < nodes@.len(),
        ensures
            r == self@.contains(thing),
    {
        if nodes[thing].next == LINK_NULL {
            proof {
                self.lemma_wf(nodes@);
                if self@.contains(thing) {
                    let k = choose|k: int| 0 <= k < self@.len() && self@[k] == thing;
                    assert(nodes@[self@[k] as int].is_linked());
                }
            }
            return false;
        }
        let mut it = self.iter();
        proof {
            self.lemma_iter(nodes@, it);
        }
        loop
            invariant
                self.wf(nodes@),
                it.walk_ok(nodes@),
                self@ =~= self@.subrange(0, self@.len() - it@.len()) + it@,
                it@.len() <= self@.len(),
                !self@.subrange(0, self@.len() - it@.len()).contains(thing),
            decreases it@.len(),
        {
            let ghost before = it@;
            match it.next(nodes) {
                None => {
                    assert(self@.subrange(0, self@.len() - it@.len()) =~= self@);
                    return false;
                },
                Some(x) => {
                    if x == thing {
                        assert(self@[self@.len() - before.len()] == x);
                        return true;
                    }
                    let ghost k = self@.len() - before.len();
                    assert(self@.subrange(0, k + 1) =~= self@.subrange(0, k).push(x));
                },
            }
        }
    }

    /// Unlink an item that is on this list.
    #[verifier::spinoff_prover]
    #[verifier::rlimit(30)]
    pub fn remove(&mut self, nodes: &mut Vec<InvasiveListNode>, item: usize)
        requires
            old(self).wf(old(nodes)@),
            old(self)@.contains(item),
        ensures
            final(nodes)@.len() == old(nodes)@.len(),
            final(self).wf(final(nodes)@),
            final(self)@ == old(self)@.remove(old(self)@.index_of(item)),
            final(nodes)@[item as int] == null_node(),
            forall|a: usize|
                a < old(nodes)@.len() && !old(self)@.contains(a)
                    ==> #[trigger] final(nodes)@[a as int] == old(nodes)@[a as int],
    {
        let ghost old_items = self.items@;
        let ghost old_nodes = nodes@;
        let ghost k = old_items.index_of(item);
        proof {
            old_items.index_of_first_ensures(item);
        }
        let ghost n = old_items.len() as int;
        let node = nodes[item];
        if node.next > LINK_END {
            let nx = nodes[node.next];
            nodes[node.next] = InvasiveListNode { prev: node.prev, next: nx.next };
        } else if node.prev == LINK_END {
            self.last = LINK_NULL;
        } else {
            self.last = node.prev;
        }
        if node.prev > LINK_END {
            let pv = nodes[node.prev];
            nodes[node.prev] = InvasiveListNode { prev: pv.prev, next: node.next };
        } else if node.next == LINK_END {
            self.first = LINK_NULL;
        } else {
            self.first = node.next;
        }
        nodes[item] = InvasiveListNode::new();
        self.len = self.len - 1;
        self.items = Ghost(old_items.remove(k));
        proof {
            let new_items = self.items@;
            assert forall|i: int| 0 <= i < new_items.len() implies (#[trigger] nodes@[new_items[i] as int]).prev
                == link_at(new_items, i - 1) && nodes@[new_items[i] as int].next == link_at(new_items, i + 1) by {
                let j = if i < k { i } else { i + 1 };
                assert(new_items[i] == old_items[j]);
                assert(old_items[j] != old_items[k]);
                if k > 0 {
                    assert(j == k - 1 || old_items[j] != old_items[k - 1]);
                }
                if k < n - 1 {
                    assert(j == k + 1 || old_items[j] != old_items[k + 1]);
                }
            }
            assert forall|a: int, b: int| 0 <= a < b < new_items.len() implies new_items[a] != new_items[b] by {
                let ja = if a < k { a } else { a + 1 };
                let jb = if b < k { b } else { b + 1 };
                assert(new_items[a] == old_items[ja]);
                assert(new_items[b] == old_items[jb]);
            }
            assert forall|a: usize|
                a < old_nodes.len() && !old_items.contains(a) implies #[trigger] nodes@[a as int]
                == old_nodes[a as int] by {
                if k > 0 {
                    assert(old_items.contains(old_items[k - 1]));
                }
                if k < n - 1 {
                    assert(old_items.contains(old_items[k + 1]));
                }
            }
        }
    }

    /// Unlink every item and empty the list.
    pub fn clear(&mut self, nodes: &mut Vec<InvasiveListNode>)
        requires
            old(self).wf(old(nodes)@),
        ensures
            final(nodes)@.len() == old(nodes)@.len(),
            final(self).wf(final(nodes)@),
            final(self)@ == Seq::<usize>::empty(),
            forall|a: usize|
                a < old(nodes)@.len() ==> #[trigger] final(nodes)@[a as int] == (if old(self)@.contains(a) {
                    null_node()
                } else {
                    old(nodes)@[a as int]
                }),
    {
        let ghost old_items = self.items@;
        let ghost old_nodes = nodes@;
        let mut it = self.iter();
        proof {
            self.lemma_iter(nodes@, it);
        }
        self.first = LINK_NULL;
        self.last = LINK_NULL;
        self.len = 0;
        self.items = Ghost(Seq::empty());
        loop
            invariant
                nodes@.len() == old_nodes.len(),
                it.walk_ok(nodes@),
                it@.len() <= old_items.len(),
                it@ =~= old_items.subrange(old_items.len() - it@.len(), old_items.len() as int),
                chain_ok(old_nodes, old_items),
                forall|i: int|
                    old_items.len() - it@.len() <= i < old_items.len() ==> #[trigger] nodes@[old_items[i] as int]
                        == old_nodes[old_items[i] as int],
                forall|a: usize|
                    a < old_nodes.len() ==> #[trigger] nodes@[a as int] == (if old_items.subrange(
                        0,
                        old_items.len() - it@.len(),
                    ).contains(a) {
                        null_node()
                    } else {
                        old_nodes[a as int]
                    }),
                self@ == Seq::<usize>::empty(),
                self.first == LINK_NULL && self.last == LINK_NULL && self.len == 0,
            ensures
                it@.len() == 0,
            decreases it@.len(),
        {
            let ghost before = it@;
            let ghost k = old_items.len() - before.len();
            match it.next(nodes) {
                None => {
                    assert(old_items.subrange(0, old_items.len() as int) =~= old_items);
                    break;
                },
                Some(x) => {
                    assert(old_items[k] == x);
                    let ghost pre = nodes@;
                    nodes[x] = InvasiveListNode::new();
                    proof {
                        assert(old_items.subrange(0, k + 1) =~= old_items.subrange(0, k).push(x));
                        assert forall|i: int| 0 <= i < it@.len() implies #[trigger] nodes@[it@[i] as int]
                            == pre[it@[i] as int] by {
                            assert(it@[i] == old_items[k + 1 + i]);
                        }
                        assert forall|i: int|
                            old_items.len() - it@.len() <= i < old_items.len() implies #[trigger] nodes@[old_items[i] as int]
                            == old_nodes[old_items[i] as int] by {
                            assert(old_items[i] != old_items[k]);
                        }
                        assert forall|a: usize| a < old_nodes.len() implies #[trigger] nodes@[a as int] == (
                        if old_items.subrange(0, k + 1).contains(a) {
                            null_node()
                        } else {
                            old_nodes[a as int]
                        }) by {
                            let p = old_items.subrange(0, k);
                            if p.push(x).contains(a) {
                                let j = choose|j: int| 0 <= j < p.len() + 1 && p.push(x)[j] == a;
                                if j < p.len() {
                                    assert(p[j] == a);
                                }
                            }
                            if p.contains(a) {
                                let j = choose|j: int| 0 <= j < p.len() && p[j] == a;
                                assert(p.push(x)[j] == a);
                            }
                            assert(p.push(x)[p.len() as int] == x);
                        }
                    }
                },
            }
        }
        proof {
            assert(old_items.subrange(0, old_items.len() as int) =~= old_items);
            assert forall|a: usize| a < old_nodes.len() implies #[trigger] nodes@[a as int] == (if old_items.contains(
                a,
            ) {
                null_node()
            } else {
                old_nodes[a as int]
            }) by {
            }
            assert(old_items.subrange(0, old_items.len() as int) =~= old_items);
        }
    }
}

/// Invasive linked list iterator.
pub struct InvasiveListIter {
    cur: usize,
    rest: Ghost<Seq<usize>>,
}

impl View for InvasiveListIter {
    type V = Seq<usize>;

    /// The items that the iterator has yet to yield.
    closed spec fn view(&self) -> Seq<usize> {
        self.rest@
    }
}

impl InvasiveListIter {
    /// The link that the iterator stands at.
    pub closed spec fn spec_cur(&self) -> usize {
        self.cur
    }

    /// The iterator's position agrees with what it has yet to yield.
    pub closed spec fn cur_ok(&self) -> bool {
        self.cur == head_link(self.rest@) || (self.rest@.len() == 0 && self.cur == LINK_END)
    }

    /// The iterator can be walked over `nodes` to the end.
    pub closed spec fn walk_ok(&self, nodes: Seq<InvasiveListNode>) -> bool {
        &&& self.cur_ok()
        &&& forward_ok(nodes, self.rest@)
    }

    /// Yield the next item, if any.
    pub fn next(&mut self, nodes: &Vec<InvasiveListNode>) -> (r: Option<usize>)
        requires
            old(self).walk_ok(nodes@),
        ensures
            final(self).walk_ok(nodes@),
            old(self)@.len() == 0 ==> r is None && final(self)@ == old(self)@,
            old(self)@.len() > 0 ==> r == Some(old(self)@[0]) && final(self)@ == old(self)@.drop_first(),
    {
        if self.cur <= LINK_END {
            return None;
        }
        let tmp = self.cur;
        self.cur = nodes[tmp].next;
        self.rest = Ghost(self.rest@.drop_first());
        Some(tmp)
    }
}

/// Invasive linked list for items held by shared ownership: pushing hands the
/// list one reference, popping hands it back, clearing drops them all.
pub struct ArcInvasiveList {
    inner: InvasiveList,
    released: Ghost<Multiset<usize>>,
}

impl View for ArcInvasiveList {
    type V = Seq<usize>;

    closed spec fn view(&self) -> Seq<usize> {
        self.inner@
    }
}

impl ArcInvasiveList {
    /// The list's links are consistent with the node memory `nodes`.
    pub closed spec fn wf(&self, nodes: Seq<InvasiveListNode>) -> bool {
        self.inner.wf(nodes)
    }

    /// What a well-formed list tells of its items.
    pub proof fn lemma_wf(&self, nodes: Seq<InvasiveListNode>)
        requires
            self.wf(nodes),
        ensures
            chain_ok(nodes, self@),
            self.spec_len() == self@.len(),
    {
        self.inner.lemma_wf(nodes);
    }

    /// The references the list has dropped, one for each time an item was
    /// handed to it and refused, or removed by clearing: an item's strong
    /// count is what its other owners hold, plus the times it is on the
    /// list, so each of these lowered it by one.
    pub closed spec fn released(&self) -> Multiset<usize> {
        self.released@
    }

    /// Create an empty list.
    pub fn new() -> (r: Self)
        ensures
            r@ == Seq::<usize>::empty(),
            r.released() == Multiset::<usize>::empty(),
            forall|nodes: Seq<InvasiveListNode>| r.wf(nodes),
    {
        Self { inner: InvasiveList::new(), released: Ghost(Multiset::empty()) }
    }

    /// Number of items on the list.
    pub closed spec fn spec_len(&self) -> nat {
        self.inner.spec_len()
    }

    /// Number of items on the list.
    pub fn len(&self) -> (r: usize)
        ensures
            r == self.spec_len(),
    {
        self.inner.len()
    }

    /// Insert an item at the front; fails, dropping the reference, when the
    /// item is already on a list.
    pub fn push_front(&mut self, nodes: &mut Vec<InvasiveListNode>, item: usize) -> (r: Result<(), ()>)
        requires
            old(self).wf(old(nodes)@),
            2 <= item < old(nodes)@.len(),
            !old(nodes)@[item as int].is_linked() ==> old(nodes)@[item as int].prev == LINK_NULL,
        ensures
            final(nodes)@.len() == old(nodes)@.len(),
            final(self).wf(final(nodes)@),
            r is Err <==> old(nodes)@[item as int].is_linked(),
            r is Err ==> final(self)@ == old(self)@ && final(nodes)@ == old(nodes)@,
            r is Err ==> final(self).released() == old(self).released().insert(item),
            r is Ok ==> final(self).released() == old(self).released(),
            r is Ok ==> final(self)@ == seq![item] + old(self)@,
            forall|a: usize|
                a < old(nodes)@.len() && a != item && !old(self)@.contains(a)
                    ==> #[trigger] final(nodes)@[a as int] == old(nodes)@[a as int],
    {
        let r = self.inner.push_front(nodes, item);
        if r.is_err() {
            proof {
                self.released = Ghost(self.released@.insert(item));
            }
        }
        r
    }

    /// Remove the item at the front, if any, handing back its reference.
    pub fn pop_front(&mut self, nodes: &mut Vec<InvasiveListNode>) -> (r: Option<usize>)
        requires
            old(self).wf(old(nodes)@),
        ensures
            final(nodes)@.len() == old(nodes)@.len(),
            final(self).wf(final(nodes)@),
            final(self).released() == old(self).released(),
            r is None <==> old(self)@.len() == 0,
            r is None ==> final(self)@ == old(self)@ && final(nodes)@ == old(nodes)@,
            r is Some ==> r->0 == old(self)@[0] && final(self)@ == old(self)@.drop_first()
                && final(nodes)@[r->0 as int] == null_node(),
            forall|a: usize|
                a < old(nodes)@.len() && !old(self)@.contains(a)
                    ==> #[trigger] final(nodes)@[a as int] == old(nodes)@[a as int],
    {
        self.inner.pop_front(nodes)
    }

    /// The item at the front, if any.
    pub fn front(&self, nodes: &Vec<InvasiveListNode>) -> (r: Option<usize>)
        requires
            self.wf(nodes@),
        ensures
            r == (if self@.len() == 0 { None } else { Some(self@[0]) }),
    {
        proof {
            self.inner.lemma_ends(nodes@);
        }
        self.inner.front()
    }

    /// Insert an item at the back; fails, dropping the reference, when the
    /// item is already on a list.
    pub fn push_back(&mut self, nodes: &mut Vec<InvasiveListNode>, item: usize) -> (r: Result<(), ()>)
        requires
            old(self).wf(old(nodes)@),
            2 <= item < old(nodes)@.len(),
            !old(nodes)@[item as int].is_linked() ==> old(nodes)@[item as int].prev == LINK_NULL,
        ensures
            final(nodes)@.len() == old(nodes)@.len(),
            final(self).wf(final(nodes)@),
            r is Err <==> old(nodes)@[item as int].is_linked(),
            r is Err ==> final(self)@ == old(self)@ && final(nodes)@ == old(nodes)@,
            r is Err ==> final(self).released() == old(self).released().insert(item),
            r is Ok ==> final(self).released() == old(self).released(),
            r is Ok ==> final(self)@ == old(self)@.push(item),
            forall|a: usize|
                a < old(nodes)@.len() && a != item && !old(self)@.contains(a)
                    ==> #[trigger] final(nodes)@[a as int] == old(nodes)@[a as int],
    {
        let r = self.inner.push_back(nodes, item);
        if r.is_err() {
            proof {
                self.released = Ghost(self.released@.insert(item));
            }
        }
        r
    }

    /// Remove the item at the back, if any, handing back its reference.
    pub fn pop_back(&mut self, nodes: &mut Vec<InvasiveListNode>) -> (r: Option<usize>)
        requires
            old(self).wf(old(nodes)@),
        ensures
            final(nodes)@.len() == old(nodes)@.len(),
            final(self).wf(final(nodes)@),
            final(self).released() == old(self).released(),
            r is None <==> old(self)@.len() == 0,
            r is None ==> final(self)@ == old(self)@ && final(nodes)@ == old(nodes)@,
            r is Some ==> r->0 == old(self)@.last() && final(self)@ == old(self)@.drop_last()
                && final(nodes)@[r->0 as int] == null_node(),
            forall|a: usize|
                a < old(nodes)@.len() && !old(self)@.contains(a)
                    ==> #[trigger] final(nodes)@[a as int] == old(nodes)@[a as int],
    {
        self.inner.pop_back(nodes)
    }

    /// The item at the back, if any.
    pub fn back(&self, nodes: &Vec<InvasiveListNode>) -> (r: Option<usize>)
        requires
            self.wf(nodes@),
        ensures
            r == (if self@.len() == 0 { None } else { Some(self@.last()) }),
    {
        proof {
            self.inner.lemma_ends(nodes@);
        }
        self.inner.back()
    }

    /// Unlink every item, dropping the list's references.
    pub fn clear(&mut self, nodes: &mut Vec<InvasiveListNode>)
        requires
            old(self).wf(old(nodes)@),
        ensures
            final(nodes)@.len() == old(nodes)@.len(),
            final(self).wf(final(nodes)@),
            final(self)@ == Seq::<usize>::empty(),
            final(self).released() == old(self).released().add(old(self)@.to_multiset()),
            forall|a: usize|
                a < old(nodes)@.len() ==> #[trigger] final(nodes)@[a as int] == (if old(self)@.contains(a) {
                    null_node()
                } else {
                    old(nodes)@[a as int]
                }),
    {
        let ghost held = self.inner@;
        self.inner.clear(nodes);
        proof {
            self.released = Ghost(self.released@.add(held.to_multiset()));
        }
    }

    /// Whether `thing` is on this list.
    pub fn contains(&self, nodes: &Vec<InvasiveListNode>, thing: usize) -> (r: bool)
        requires
            self.wf(nodes@),
            2 <= thing < nodes@.len(),
        ensures
            r == self@.contains(thing),
    {
        self.inner.contains(nodes, thing)
    }

    /// Iterate over the items from front to back.
    pub fn iter(&self, nodes: &Vec<InvasiveListNode>) -> (r: InvasiveListIter)
        requires
            self.wf(nodes@),
        ensures
            r@ == self@,
            r.walk_ok(nodes@),
    {
        let it = self.inner.iter();
        proof {
            self.inner.lemma_iter(nodes@, it);
        }
        it
    }
}

/// Pushing an item at the front and popping the front gives the item back
/// and leaves the list as it was; likewise at the back.
pub proof fn lemma_push_pop(items: Seq<usize>, item: usize)
    ensures
        (seq![item] + items)[0] == item,
        (seq![item] + items).drop_first() == items,
        items.push(item).last() == item,
        items.push(item).drop_last() == items,
{
    assert((seq![item] + items).drop_first() =~= items);
    assert(items.push(item).drop_last() =~= items);
}

/// An item pushed onto a list is on it, and an item removed from a list of
/// distinct items no longer is.
pub proof fn lemma_push_remove_contains(items: Seq<usize>, item: usize)
    requires
        items.no_duplicates(),
        items.contains(item),
    ensures
        (seq![item] + items).contains(item),
        items.push(item).contains(item),
        !items.remove(items.index_of(item)).contains(item),
        items.remove(items.index_of(item)).len() == items.len() - 1,
{
    assert((seq![item] + items)[0] == item);
    assert(items.push(item)[items.len() as int] == item);
    items.index_of_first_ensures(item);
    let k = items.index_of(item);
    let r = items.remove(k);
    if r.contains(item) {
        let j = choose|j: int| 0 <= j < r.len() && r[j] == item;
        if j < k {
            assert(items[j] == item);
        } else {
            assert(items[j + 1] == item);
        }
    }
}

} // verus!
