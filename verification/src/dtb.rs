//! Device tree nodes and properties.
//!
//! Property values are sequences of big-endian 32-bit cells. A node owns
//! its children, in a list, and a node is reached from the root by the
//! path of child indices that leads to it; its parent is the node that the
//! path without its last index leads to; nodes hold no pointer to their
//! parent. The tree keeps, for each phandle, the path to a node that
//! carries it.

use vstd::prelude::*;

use core::ops::Range;
use std::collections::BTreeMap;

use crate::text::push_str;

verus! {

/// The big-endian number that the bytes `s` spell.
pub open spec fn be_value(s: Seq<u8>) -> nat
    decreases s.len(),
{
    if s.len() == 0 {
        0
    } else {
        be_value(s.drop_last()) * 256 + s.last() as nat
    }
}

/// `256^n`.
pub open spec fn byte_pow(n: nat) -> nat
    decreases n,
{
    if n == 0 {
        1
    } else {
        byte_pow((n - 1) as nat) * 256
    }
}

/// Powers of 256 grow with the exponent.
pub proof fn lemma_byte_pow_mono(a: nat, b: nat)
    requires
        a <= b,
    ensures
        1 <= byte_pow(a) <= byte_pow(b),
    decreases b,
{
    if b > 0 {
        if a < b {
            lemma_byte_pow_mono(a, (b - 1) as nat);
        } else {
            lemma_byte_pow_mono((a - 1) as nat, (b - 1) as nat);
        }
    }
}

/// A big-endian number of `n` bytes is below `256^n`.
pub proof fn lemma_be_value_bound(s: Seq<u8>)
    ensures
        be_value(s) < byte_pow(s.len()),
    decreases s.len(),
{
    if s.len() > 0 {
        lemma_be_value_bound(s.drop_last());
        let a = be_value(s.drop_last()) as int;
        let p = byte_pow((s.len() - 1) as nat) as int;
        assert(a * 256 + s.last() < p * 256) by (nonlinear_arith)
            requires
                a < p,
                s.last() < 256,
        ;
    }
}

/// Appending four bytes shifts the number left by 32 bits.
pub proof fn lemma_be_value_push4(s: Seq<u8>, b0: u8, b1: u8, b2: u8, b3: u8)
    ensures
        be_value(s + seq![b0, b1, b2, b3]) == be_value(s) * 0x1_0000_0000 + b0 as nat * 0x100_0000
            + b1 as nat * 0x1_0000 + b2 as nat * 0x100 + b3 as nat,
{
    let t4 = s + seq![b0, b1, b2, b3];
    let t3 = s + seq![b0, b1, b2];
    let t2 = s + seq![b0, b1];
    let t1 = s + seq![b0];
    assert(t4.drop_last() =~= t3);
    assert(t3.drop_last() =~= t2);
    assert(t2.drop_last() =~= t1);
    assert(t1.drop_last() =~= s);
    assert(be_value(t1) == be_value(s) * 256 + b0);
    assert(be_value(t2) == be_value(t1) * 256 + b1);
    assert(be_value(t3) == be_value(t2) * 256 + b2);
    assert(be_value(t4) == be_value(t3) * 256 + b3);
}

/// The bytes of cells `start..end` of a property value.
pub open spec fn cell_bytes(blob: Seq<u8>, start: int, end: int) -> Seq<u8> {
    blob.subrange(start * 4, end * 4)
}

/// Device tree property.
pub struct DtbProp {
    /// This prop's name.
    pub name: String,
    /// Binary value.
    pub blob: Vec<u8>,
}

/// One step of reading cells: shift in the four bytes of the next cell.
fn push_cell(value: u128, b0: u8, b1: u8, b2: u8, b3: u8) -> (r: u128)
    requires
        value < 0x1_0000_0000_0000_0000_0000_0000,
    ensures
        r == value * 0x1_0000_0000 + b0 as nat * 0x100_0000 + b1 as nat * 0x1_0000 + b2 as nat * 0x100
            + b3 as nat,
{
    let mut v = value << 32u32;
    v = v | ((b3 as u128) << 0u32);
    v = v | ((b2 as u128) << 8u32);
    v = v | ((b1 as u128) << 16u32);
    v = v | ((b0 as u128) << 24u32);
    assert(v == value * 0x1_0000_0000 + b0 as u128 * 0x100_0000 + b1 as u128 * 0x1_0000 + b2 as u128 * 0x100
        + b3 as u128) by (bit_vector)
        requires
            value < 0x1_0000_0000_0000_0000_0000_0000u128,
            v == ((((value << 32u32) | ((b3 as u128) << 0u32)) | ((b2 as u128) << 8u32)) | ((b1 as u128)
                << 16u32)) | ((b0 as u128) << 24u32),
    ;
    v
}

impl DtbProp {
    /// The prop's name.
    pub fn name(&self) -> (r: &str)
        ensures
            r@ == self.name@,
    {
        self.name.as_str()
    }

    /// Read a cell in this prop.
    pub fn read_cell(&self, cell: usize) -> (r: Option<u32>)
        requires
            cell < usize::MAX,
            (cell + 1) * 4 <= self.blob@.len(),
        ensures
            r == Some(be_value(cell_bytes(self.blob@, cell as int, cell + 1)) as u32),
    {
        match self.read_uint_cells(cell..cell + 1) {
            Some(x) => {
                proof {
                    lemma_be_value_bound(cell_bytes(self.blob@, cell as int, cell + 1));
                    assert(cell_bytes(self.blob@, cell as int, cell + 1).len() == 4);
                    reveal_with_fuel(byte_pow, 5);
                }
                Some(x as u32)
            },
            None => None,
        }
    }

    /// Read this prop as some integer: the big-endian number that the given
    /// cells spell, at most four of them.
    pub fn read_uint_cells(&self, cells: Range<usize>) -> (r: Option<u128>)
        requires
            cells.start < cells.end ==> cells.end - cells.start <= 4 && cells.end * 4 <= self.blob@.len(),
        ensures
            cells.start < cells.end ==> r == Some(
                be_value(cell_bytes(self.blob@, cells.start as int, cells.end as int)) as u128,
            ),
            cells.start >= cells.end ==> r == Some(0u128),
    {
        let mut value: u128 = 0;
        let mut cell = cells.start;
        if cells.start >= cells.end {
            return Some(0);
        }
        proof {
            assert(cell_bytes(self.blob@, cells.start as int, cells.start as int) =~= Seq::<u8>::empty());
        }
        let blob_len = self.blob.len();
        while cell < cells.end
            invariant
                blob_len == self.blob@.len(),
                cells.start <= cell <= cells.end,
                cells.end - cells.start <= 4,
                cells.end * 4 <= self.blob@.len(),
                value == be_value(cell_bytes(self.blob@, cells.start as int, cell as int)),
            decreases cells.end - cell,
        {
            let ghost bytes = cell_bytes(self.blob@, cells.start as int, cell as int);
            proof {
                lemma_be_value_bound(bytes);
                assert(bytes.len() == (cell - cells.start) * 4);
                assert(bytes.len() <= 12);
                lemma_byte_pow_mono(bytes.len(), 12);
                reveal_with_fuel(byte_pow, 13);
            }
            let i = cell * 4;
            let b0 = self.blob[i];
            let b1 = self.blob[i + 1];
            let b2 = self.blob[i + 2];
            let b3 = self.blob[i + 3];
            value = push_cell(value, b0, b1, b2, b3);
            proof {
                lemma_be_value_push4(bytes, b0, b1, b2, b3);
                assert(cell_bytes(self.blob@, cells.start as int, cell + 1) =~= bytes + seq![b0, b1, b2, b3]);
            }
            cell = cell + 1;
        }
        Some(value)
    }

    /// Read this prop as some integer: the big-endian number that all its
    /// bytes spell, in whole cells, at most four of them.
    pub fn read_uint(&self) -> (r: Option<u128>)
        requires
            self.blob@.len() % 4 == 0,
            self.blob@.len() <= 16,
        ensures
            r == Some(be_value(self.blob@) as u128),
    {
        let n = self.blob.len();
        let cells = (n + 3) / 4;
        let r = self.read_uint_cells(0..cells);
        proof {
            assert(cell_bytes(self.blob@, 0, cells as int) =~= self.blob@);
            if cells == 0 {
                assert(self.blob@ =~= Seq::<u8>::empty());
            }
        }
        r
    }
}

/// Device tree node.
pub struct DtbNode {
    /// This node's name.
    pub name: String,
    /// Cached phandle, if any.
    pub phandle: Option<u32>,
    /// Child nodes.
    pub nodes: Vec<DtbNode>,
    /// Child props.
    pub props: Vec<DtbProp>,
}

impl DtbNode {
    /// The node's name.
    pub fn name(&self) -> (r: &str)
        ensures
            r@ == self.name@,
    {
        self.name.as_str()
    }
}

/// Whether `node` or a node below it carries the phandle `phandle`.
pub open spec fn has_phandle(node: DtbNode, phandle: u32) -> bool
    decreases node,
{
    node.phandle == Some(phandle) || exists|i: int|
        0 <= i < node.nodes@.len() && has_phandle(#[trigger] node.nodes@[i], phandle)
}

/// Whether `n` is `node` or a node below it.
pub open spec fn in_tree(node: DtbNode, n: DtbNode) -> bool
    decreases node,
{
    node == n || exists|i: int| 0 <= i < node.nodes@.len() && in_tree(#[trigger] node.nodes@[i], n)
}

/// The node that the child indices `path` lead to below `node`, if each
/// of them is that of a child.
pub open spec fn node_at_spec(node: DtbNode, path: Seq<usize>) -> Option<DtbNode>
    decreases path.len(),
{
    if path.len() == 0 {
        Some(node)
    } else if path[0] < node.nodes@.len() {
        node_at_spec(node.nodes@[path[0] as int], path.drop_first())
    } else {
        None
    }
}

/// How the node that `path` leads to below `node` is printed: the names of
/// the nodes on the way down, each followed by `/`, then its own name;
/// `node`'s own name when the path is empty.
pub open spec fn path_text(node: DtbNode, path: Seq<usize>) -> Seq<char>
    decreases path.len(),
{
    if path.len() == 0 {
        node.name@
    } else {
        let c = node.nodes@[path[0] as int];
        if path.len() == 1 {
            c.name@
        } else {
            c.name@ + "/"@ + path_text(c, path.drop_first())
        }
    }
}

/// A path that leads to a node has every prefix leading to a node too,
/// the one without its last index among them.
proof fn lemma_node_at_prefix(node: DtbNode, path: Seq<usize>)
    requires
        path.len() > 0,
        node_at_spec(node, path) is Some,
    ensures
        node_at_spec(node, path.drop_last()) is Some,
    decreases path.len(),
{
    if path.len() > 1 {
        let c = node.nodes@[path[0] as int];
        assert(path.drop_first().drop_last() =~= path.drop_last().drop_first());
        lemma_node_at_prefix(c, path.drop_first());
    }
}

/// Walk `path` from its `i`-th index on, below `node`.
fn node_below<'a>(node: &'a DtbNode, path: &Vec<usize>, i: usize) -> (r: Option<&'a DtbNode>)
    requires
        i <= path@.len(),
    ensures
        r is Some == node_at_spec(*node, path@.skip(i as int)) is Some,
        r matches Some(n) ==> *n == node_at_spec(*node, path@.skip(i as int))->0,
    decreases path@.len() - i,
{
    if i == path.len() {
        return Some(node);
    }
    let k = path[i];
    proof {
        assert(path@.skip(i as int).drop_first() =~= path@.skip(i + 1));
    }
    if k >= node.nodes.len() {
        return None;
    }
    node_below(&node.nodes[k], path, i + 1)
}

/// Append how the node that `path` leads to from its `i`-th index on, below
/// `node`, is printed; `false` when the path leads nowhere.
fn push_path_text(node: &DtbNode, path: &Vec<usize>, i: usize, out: &mut Vec<char>) -> (r: bool)
    requires
        i <= path@.len(),
    ensures
        r == node_at_spec(*node, path@.skip(i as int)) is Some,
        r ==> final(out)@ == old(out)@ + path_text(*node, path@.skip(i as int)),
    decreases path@.len() - i,
{
    if i == path.len() {
        push_str(out, node.name.as_str());
        return true;
    }
    let k = path[i];
    proof {
        assert(path@.skip(i as int).drop_first() =~= path@.skip(i + 1));
    }
    if k >= node.nodes.len() {
        return false;
    }
    let c = &node.nodes[k];
    if i + 1 == path.len() {
        push_str(out, c.name.as_str());
        proof {
            assert(path@.skip(i + 1).len() == 0);
            assert(node_at_spec(*c, path@.skip(i + 1)) == Some(*c));
            assert(node_at_spec(*node, path@.skip(i as int)) == node_at_spec(*c, path@.skip(i + 1)));
        }
        return true;
    }
    push_str(out, c.name.as_str());
    push_str(out, "/");
    let r = push_path_text(c, path, i + 1, out);
    proof {
        if r {
            assert(out@ =~= old(out)@ + path_text(*node, path@.skip(i as int)));
        }
    }
    r
}

/// Loaded device tree structure.
pub struct Dtb {
    /// DTB root node.
    root: DtbNode,
    /// The path of child indices to a node of each phandle.
    by_phandle: BTreeMap<u32, Vec<usize>>,
}

/// `path` leads from `root` to a node that carries the phandle `ph`.
pub open spec fn leads_to_phandle(root: DtbNode, path: Seq<usize>, ph: u32) -> bool {
    node_at_spec(root, path) matches Some(n) && n.phandle == Some(ph)
}

/// A path that leads to `node` and one more child index lead to that child.
proof fn lemma_node_at_push(root: DtbNode, path: Seq<usize>, node: DtbNode, i: usize)
    requires
        node_at_spec(root, path) == Some(node),
        i < node.nodes@.len(),
    ensures
        node_at_spec(root, path.push(i)) == Some(node.nodes@[i as int]),
    decreases path.len(),
{
    if path.len() > 0 {
        assert(path.push(i).drop_first() =~= path.drop_first().push(i));
        assert(path.push(i)[0] == path[0]);
        assert(path[0] < root.nodes@.len());
        lemma_node_at_push(root.nodes@[path[0] as int], path.drop_first(), node, i);
    } else {
        assert(root == node);
        assert(path.push(i)[0] == i);
        assert(path.push(i).drop_first() =~= Seq::<usize>::empty());
        assert(node_at_spec(node.nodes@[i as int], Seq::<usize>::empty()) == Some(node.nodes@[i as int]));
    }
}

/// A tree that a path leads through to a node with a phandle carries that
/// phandle.
proof fn lemma_node_at_has_phandle(root: DtbNode, path: Seq<usize>, ph: u32)
    requires
        leads_to_phandle(root, path, ph),
    ensures
        has_phandle(root, ph),
    decreases path.len(),
{
    if path.len() > 0 {
        let c = root.nodes@[path[0] as int];
        lemma_node_at_has_phandle(c, path.drop_first(), ph);
        assert(has_phandle(root.nodes@[path[0] as int], ph));
    }
}

/// A node that a path leads to is in the tree.
proof fn lemma_node_at_in_tree(root: DtbNode, path: Seq<usize>)
    requires
        node_at_spec(root, path) is Some,
    ensures
        in_tree(root, node_at_spec(root, path)->0),
    decreases path.len(),
{
    if path.len() > 0 {
        let c = root.nodes@[path[0] as int];
        lemma_node_at_in_tree(c, path.drop_first());
    }
}

/// Record, for every node below `node` (itself included) that carries a
/// phandle, the path that leads to it from `root`, `path` leading to
/// `node`; a node met later takes the place of one met earlier.
fn index_phandles(
    Ghost(root): Ghost<DtbNode>,
    node: &DtbNode,
    path: &mut Vec<usize>,
    map: &mut BTreeMap<u32, Vec<usize>>,
)
    requires
        node_at_spec(root, old(path)@) == Some(*node),
        forall|ph: u32|
            #[trigger] old(map)@.contains_key(ph) ==> leads_to_phandle(root, old(map)@[ph]@, ph),
    ensures
        final(path)@ == old(path)@,
        forall|ph: u32|
            #[trigger] final(map)@.contains_key(ph) ==> leads_to_phandle(root, final(map)@[ph]@, ph),
        forall|ph: u32| old(map)@.contains_key(ph) ==> #[trigger] final(map)@.contains_key(ph),
        forall|ph: u32| has_phandle(*node, ph) ==> #[trigger] final(map)@.contains_key(ph),
    decreases *node,
{
    broadcast use vstd::std_specs::btree::group_btree_axioms, vstd::laws_cmp::group_laws_cmp;

    let ghost path0 = path@;
    let ghost map0 = map@;
    match node.phandle {
        Some(ph) => {
            let copy = path.clone();
            proof {
                assert(copy@ =~= path@);
            }
            map.insert(ph, copy);
        },
        None => {},
    }
    let ghost map1 = map@;
    let mut i: usize = 0;
    while i < node.nodes.len()
        invariant
            i <= node.nodes@.len(),
            path@ == path0,
            node_at_spec(root, path0) == Some(*node),
            forall|ph: u32|
                #[trigger] map@.contains_key(ph) ==> leads_to_phandle(root, map@[ph]@, ph),
            forall|ph: u32| map1.contains_key(ph) ==> #[trigger] map@.contains_key(ph),
            forall|ph: u32| map0.contains_key(ph) ==> #[trigger] map1.contains_key(ph),
            node.phandle matches Some(ph) ==> map1.contains_key(ph),
            forall|j: int, ph: u32|
                0 <= j < i && has_phandle(#[trigger] node.nodes@[j], ph) ==> #[trigger] map@.contains_key(ph),
        decreases node.nodes@.len() - i,
    {
        proof {
            lemma_node_at_push(root, path0, *node, i);
        }
        path.push(i);
        index_phandles(Ghost(root), &node.nodes[i], path, map);
        let _ = path.pop();
        proof {
            assert(path@ =~= path0);
        }
        i = i + 1;
    }
    proof {
        assert forall|ph: u32| has_phandle(*node, ph) implies #[trigger] map@.contains_key(ph) by {
            if node.phandle != Some(ph) {
                let j = choose|j: int| 0 <= j < node.nodes@.len() && has_phandle(#[trigger] node.nodes@[j], ph);
            }
        }
    }
}

impl Dtb {
    /// The tree.
    pub closed spec fn tree(&self) -> DtbNode {
        self.root
    }

    /// Every phandle of the tree has a path, and the path of each leads to
    /// a node that carries it.
    #[verifier::type_invariant]
    spec fn index_ok(self) -> bool {
        &&& forall|ph: u32|
            #[trigger] self.by_phandle@.contains_key(ph) ==> leads_to_phandle(self.root, self.by_phandle@[ph]@, ph)
        &&& forall|ph: u32| has_phandle(self.root, ph) ==> #[trigger] self.by_phandle@.contains_key(ph)
    }

    /// Load the tree under `root`, indexing its phandles.
    pub fn new(root: DtbNode) -> (r: Self)
        ensures
            r.tree() == root,
    {
        broadcast use vstd::std_specs::btree::group_btree_axioms, vstd::laws_cmp::group_laws_cmp;

        let mut map: BTreeMap<u32, Vec<usize>> = BTreeMap::new();
        let mut path: Vec<usize> = Vec::new();
        index_phandles(Ghost(root), &root, &mut path, &mut map);
        Dtb { root, by_phandle: map }
    }

    /// The root node.
    pub fn root(&self) -> (r: &DtbNode)
        ensures
            *r == self.tree(),
    {
        &self.root
    }

    /// The node that the child indices `path` lead to from the root, if
    /// each of them is that of a child.
    pub fn node_at(&self, path: &Vec<usize>) -> (r: Option<&DtbNode>)
        ensures
            r is Some == node_at_spec(self.tree(), path@) is Some,
            r matches Some(n) ==> *n == node_at_spec(self.tree(), path@)->0,
    {
        proof {
            assert(path@.skip(0) =~= path@);
        }
        node_below(&self.root, path, 0)
    }

    /// The parent of the node that `path` leads to: the node that the path
    /// without its last index leads to; `None` for the root or a path that
    /// leads nowhere.
    pub fn parent(&self, path: &Vec<usize>) -> (r: Option<&DtbNode>)
        ensures
            r is Some == (path@.len() > 0 && node_at_spec(self.tree(), path@) is Some),
            r matches Some(n) ==> *n == node_at_spec(self.tree(), path@.drop_last())->0,
    {
        if path.len() == 0 {
            return None;
        }
        if self.node_at(path).is_none() {
            return None;
        }
        let mut up: Vec<usize> = Vec::new();
        let mut i: usize = 0;
        while i < path.len() - 1
            invariant
                path@.len() > 0,
                i + 1 <= path@.len(),
                up@ == path@.take(i as int),
            decreases path@.len() - i,
        {
            up.push(path[i]);
            i = i + 1;
            proof {
                assert(up@ =~= path@.take(i as int));
            }
        }
        proof {
            assert(up@ =~= path@.drop_last());
            lemma_node_at_prefix(self.root, path@);
        }
        self.node_at(&up)
    }

    /// How the node that `path` leads to is printed: the names of the nodes
    /// on the way down from the root, each followed by `/`, then its own.
    pub fn node_text(&self, path: &Vec<usize>) -> (r: Option<Vec<char>>)
        ensures
            r is Some == node_at_spec(self.tree(), path@) is Some,
            r matches Some(t) ==> t@ == path_text(self.tree(), path@),
    {
        let mut out: Vec<char> = Vec::new();
        proof {
            assert(path@.skip(0) =~= path@);
        }
        if push_path_text(&self.root, path, 0, &mut out) {
            proof {
                assert(out@ =~= path_text(self.root, path@));
            }
            Some(out)
        } else {
            None
        }
    }

    /// How prop `prop` of the node that `path` leads to is printed: the
    /// node's text, then ` prop ` and the prop's name.
    pub fn prop_text(&self, path: &Vec<usize>, prop: usize) -> (r: Option<Vec<char>>)
        ensures
            r is Some == (node_at_spec(self.tree(), path@) matches Some(n) && prop < n.props@.len()),
            r matches Some(t) ==> t@ == path_text(self.tree(), path@) + " prop "@ + node_at_spec(
                self.tree(),
                path@,
            )->0.props@[prop as int].name@,
    {
        let node = match self.node_at(path) {
            Some(n) => n,
            None => {
                return None;
            },
        };
        if prop >= node.props.len() {
            return None;
        }
        let mut out = match self.node_text(path) {
            Some(t) => t,
            None => {
                return None;
            },
        };
        let ghost head = out@;
        push_str(&mut out, " prop ");
        push_str(&mut out, node.props[prop].name.as_str());
        proof {
            assert(out@ =~= head + " prop "@ + node.props@[prop as int].name@);
        }
        Some(out)
    }

    /// Look up a node by its phandle: `None` exactly when no node of the
    /// tree carries it.
    pub fn by_phandle(&self, phandle: u32) -> (r: Option<&DtbNode>)
        ensures
            r is None <==> !has_phandle(self.tree(), phandle),
            r matches Some(n) ==> n.phandle == Some(phandle) && in_tree(self.tree(), *n),
    {
        broadcast use vstd::std_specs::btree::group_btree_axioms, vstd::laws_cmp::group_laws_cmp;

        proof {
            use_type_invariant(self);
        }
        match self.by_phandle.get(&phandle) {
            Some(path) => {
                proof {
                    assert(self.by_phandle@.contains_key(phandle));
                    assert(leads_to_phandle(self.root, path@, phandle));
                    lemma_node_at_in_tree(self.root, path@);
                    lemma_node_at_has_phandle(self.root, path@, phandle);
                }
                self.node_at(path)
            },
            None => {
                proof {
                    assert(!self.by_phandle@.contains_key(phandle));
                }
                None
            },
        }
    }
}

} // verus!
