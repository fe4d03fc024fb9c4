use vstd::prelude::*;
use itertools::Itertools;
use crate::builtins::{same_op, Builtin, Builtins};

verus! {

/// A node of the trie: an accessor, and the accessors seen after it.
#[derive(Debug)]
pub struct TreeNode {
    pub node: Builtin,
    pub children: Vec<TreeNode>,
}

/// The trie of the chains inserted so far. A path from a root down to a node
/// is a prefix of a chain that was inserted.
#[derive(Debug)]
pub struct TreeSet {
    pub children: Vec<TreeNode>,
}

/// What a node is: its accessor and the sequence of its children.
pub struct NodeModel {
    pub op: Builtin,
    pub children: Seq<NodeModel>,
}

impl View for TreeNode {
    type V = NodeModel;

    open spec fn view(&self) -> NodeModel
        decreases *self, 0nat,
    {
        NodeModel {
            op: self.node,
            children: models_upto(self.children@, self.children@.len()),
        }
    }
}

/// What the first `n` of a sequence of nodes are.
pub open spec fn models_upto(nodes: Seq<TreeNode>, n: nat) -> Seq<NodeModel>
    decreases nodes, n,
{
    if n == 0 || n > nodes.len() {
        Seq::empty()
    } else {
        models_upto(nodes, (n - 1) as nat).push(nodes[n - 1]@)
    }
}

/// What a sequence of nodes is.
pub open spec fn models(nodes: Seq<TreeNode>) -> Seq<NodeModel> {
    Seq::new(nodes.len(), |i: int| nodes[i]@)
}

impl View for TreeSet {
    type V = Seq<NodeModel>;

    open spec fn view(&self) -> Seq<NodeModel> {
        models(self.children@)
    }
}

/// The first `n` of a sequence of nodes are what each of them is, in order.
proof fn lemma_models_upto(nodes: Seq<TreeNode>, n: nat)
    requires
        n <= nodes.len(),
    ensures
        models_upto(nodes, n) == models(nodes.take(n as int)),
    decreases n,
{
    if n > 0 {
        lemma_models_upto(nodes, (n - 1) as nat);
        assert(models(nodes.take(n - 1)).push(nodes[n - 1]@) =~= models(nodes.take(n as int)));
    } else {
        assert(models_upto(nodes, n) =~= models(nodes.take(n as int)));
    }
}

/// A node's model holds the node's accessor and its children's models.
pub proof fn lemma_node_view(node: TreeNode)
    ensures
        node@.op == node.node,
        node@.children == models(node.children@),
{
    lemma_models_upto(node.children@, node.children@.len());
    assert(node.children@.take(node.children@.len() as int) =~= node.children@);
}

/// The position of the first of `children` whose accessor is the same as
/// `op`; the number of children, if there is none.
pub open spec fn first_match(children: Seq<NodeModel>, op: Builtin) -> int
    decreases children.len(),
{
    if children.len() == 0 {
        0
    } else if same_op(op, children[0].op) {
        0
    } else {
        1 + first_match(children.drop_first(), op)
    }
}

/// The single branch that holds the chain `ops`: its first accessor at the
/// root, each further one the only child of the one before it.
pub open spec fn chain(ops: Seq<Builtin>) -> Seq<NodeModel>
    decreases ops.len(),
{
    if ops.len() == 0 {
        Seq::empty()
    } else {
        seq![NodeModel { op: ops[0], children: chain(ops.drop_first()) }]
    }
}

/// The nodes `children` after the chain `ops` has been inserted below them:
/// it follows the children that match, and where none matches, what is left
/// of it becomes a new last branch.
pub open spec fn inserted(children: Seq<NodeModel>, ops: Seq<Builtin>) -> Seq<NodeModel>
    decreases ops.len(),
{
    if ops.len() == 0 {
        children
    } else {
        let i = first_match(children, ops[0]);
        if 0 <= i < children.len() {
            children.update(
                i,
                NodeModel {
                    op: children[i].op,
                    children: inserted(children[i].children, ops.drop_first()),
                },
            )
        } else {
            children + chain(ops)
        }
    }
}

/// The part of the chain `ops` that the nodes `children` do not hold yet:
/// `ops` from its first accessor on that finds no match.
pub open spec fn residue(children: Seq<NodeModel>, ops: Seq<Builtin>) -> Seq<Builtin>
    decreases ops.len(),
{
    if ops.len() == 0 {
        ops
    } else {
        let i = first_match(children, ops[0]);
        if 0 <= i < children.len() {
            residue(children[i].children, ops.drop_first())
        } else {
            ops
        }
    }
}

/// `first_match` is within bounds, points at a match if at a child, and no
/// child before it matches.
pub proof fn lemma_first_match(children: Seq<NodeModel>, op: Builtin)
    ensures
        0 <= first_match(children, op) <= children.len(),
        first_match(children, op) < children.len() ==> same_op(
            op,
            children[first_match(children, op)].op,
        ),
        forall|j: int| 0 <= j < first_match(children, op) ==> !same_op(op, #[trigger] children[j].op),
    decreases children.len(),
{
    if children.len() > 0 && !same_op(op, children[0].op) {
        let tail = children.drop_first();
        lemma_first_match(tail, op);
        assert forall|j: int| 0 <= j < first_match(children, op) implies !same_op(
            op,
            #[trigger] children[j].op,
        ) by {
            if j > 0 {
                assert(tail[j - 1] == children[j]);
            }
        }
    }
}

/// A position that no match precedes, and that is a match or the end, is the
/// first match.
pub proof fn lemma_first_match_unique(children: Seq<NodeModel>, op: Builtin, i: int)
    requires
        0 <= i <= children.len(),
        forall|j: int| 0 <= j < i ==> !same_op(op, #[trigger] children[j].op),
        i < children.len() ==> same_op(op, children[i].op),
    ensures
        first_match(children, op) == i,
{
    lemma_first_match(children, op);
    let f = first_match(children, op);
    if f < i {
        assert(!same_op(op, children[f].op));
    }
}

/// Whether no two siblings hold the same accessor, at every level.
pub open spec fn well_formed(children: Seq<NodeModel>) -> bool
    decreases children,
{
    &&& forall|i: int, j: int|
        0 <= i < j < children.len() ==> !same_op(
            (#[trigger] children[i]).op,
            (#[trigger] children[j]).op,
        )
    &&& forall|i: int|
        0 <= i < children.len() ==> well_formed((#[trigger] children[i]).children)
}

/// Whether no accessor of a chain is a `FstPair`, the one kind that is never
/// the same as any accessor, itself included.
pub open spec fn shareable(ops: Seq<Builtin>) -> bool {
    forall|k: int| 0 <= k < ops.len() ==> !(#[trigger] ops[k] is FstPair)
}

/// A single branch has no two siblings at all.
pub proof fn lemma_chain_well_formed(ops: Seq<Builtin>)
    ensures
        well_formed(chain(ops)),
    decreases ops.len(),
{
    if ops.len() > 0 {
        lemma_chain_well_formed(ops.drop_first());
    }
}

/// Insertion keeps siblings distinct.
pub proof fn lemma_inserted_well_formed(children: Seq<NodeModel>, ops: Seq<Builtin>)
    requires
        well_formed(children),
    ensures
        well_formed(inserted(children, ops)),
    decreases ops.len(),
{
    if ops.len() > 0 {
        let i = first_match(children, ops[0]);
        lemma_first_match(children, ops[0]);
        let after = inserted(children, ops);
        if i < children.len() {
            lemma_inserted_well_formed(children[i].children, ops.drop_first());
            assert forall|a: int, b: int| 0 <= a < b < after.len() implies !same_op(
                (#[trigger] after[a]).op,
                (#[trigger] after[b]).op,
            ) by {
                assert(after[a].op == children[a].op);
                assert(after[b].op == children[b].op);
            }
            assert forall|a: int| 0 <= a < after.len() implies well_formed(
                (#[trigger] after[a]).children,
            ) by {
                if a != i {
                    assert(after[a] == children[a]);
                }
            }
        } else {
            lemma_chain_well_formed(ops);
            let fresh = chain(ops);
            assert(fresh.len() == 1);
            assert forall|a: int, b: int| 0 <= a < b < after.len() implies !same_op(
                (#[trigger] after[a]).op,
                (#[trigger] after[b]).op,
            ) by {
                if b < children.len() {
                    assert(after[a] == children[a]);
                    assert(after[b] == children[b]);
                } else {
                    assert(after[a] == children[a]);
                    assert(after[b].op == ops[0]);
                    assert(!same_op(ops[0], children[a].op));
                }
            }
            assert forall|a: int| 0 <= a < after.len() implies well_formed(
                (#[trigger] after[a]).children,
            ) by {
                if a < children.len() {
                    assert(after[a] == children[a]);
                } else {
                    assert(after[a] == fresh[0]);
                    assert(well_formed(fresh[0].children));
                }
            }
        }
    }
}

/// What an insertion hands back is an end of the chain: the chain without
/// the accessors that were followed down the trie.
pub proof fn lemma_residue_is_suffix(children: Seq<NodeModel>, ops: Seq<Builtin>)
    ensures
        residue(children, ops).len() <= ops.len(),
        residue(children, ops) == ops.skip(ops.len() - residue(children, ops).len()),
    decreases ops.len(),
{
    if ops.len() == 0 {
        assert(ops.skip(0) =~= ops);
    } else {
        let i = first_match(children, ops[0]);
        if 0 <= i < children.len() {
            let rest = ops.drop_first();
            lemma_residue_is_suffix(children[i].children, rest);
            let left = residue(children[i].children, rest);
            assert(rest.skip(rest.len() - left.len()) =~= ops.skip(ops.len() - left.len()));
        } else {
            assert(ops.skip(0) =~= ops);
        }
    }
}

/// Whether the nodes hold the chain `ops`: it can be followed down from them
/// to its end.
pub open spec fn holds(children: Seq<NodeModel>, ops: Seq<Builtin>) -> bool {
    residue(children, ops).len() == 0
}

/// The trie only grows: a chain that it holds, it still holds after any
/// insertion.
pub proof fn lemma_insert_keeps_held(
    children: Seq<NodeModel>,
    ops: Seq<Builtin>,
    held: Seq<Builtin>,
)
    requires
        holds(children, held),
    ensures
        holds(inserted(children, ops), held),
    decreases held.len(),
{
    if held.len() > 0 && ops.len() > 0 {
        let after = inserted(children, ops);
        let i = first_match(children, held[0]);
        let k = first_match(children, ops[0]);
        lemma_first_match(children, held[0]);
        lemma_first_match(children, ops[0]);
        assert(after.len() >= children.len());
        assert forall|j: int| 0 <= j < children.len() implies (#[trigger] after[j]).op
            == children[j].op by {}
        assert forall|j: int| 0 <= j < i implies !same_op(held[0], #[trigger] after[j].op) by {
            assert(after[j].op == children[j].op);
        }
        assert(after[i].op == children[i].op);
        lemma_first_match_unique(after, held[0], i);
        if i == k {
            lemma_insert_keeps_held(children[i].children, ops.drop_first(), held.drop_first());
        } else {
            assert(after[i] == children[i]);
        }
    }
}

/// Inserting a chain into the empty trie gives the single branch of that
/// chain, and hands the whole chain back.
pub proof fn lemma_insert_fresh(ops: Seq<Builtin>)
    ensures
        inserted(Seq::<NodeModel>::empty(), ops) == chain(ops),
        residue(Seq::<NodeModel>::empty(), ops) == ops,
{
    assert(inserted(Seq::<NodeModel>::empty(), ops) =~= chain(ops));
}

/// Inserting a chain and then a chain that extends it, into the empty trie:
/// the second insertion hands back the extension alone, and the trie is the
/// single branch of the longer chain. `FstPair` never matches, so the shared
/// part holds none.
pub proof fn lemma_insert_extension(ops: Seq<Builtin>, extension: Seq<Builtin>)
    requires
        shareable(ops),
    ensures
        residue(inserted(Seq::<NodeModel>::empty(), ops), ops + extension) == extension,
        inserted(inserted(Seq::<NodeModel>::empty(), ops), ops + extension) == chain(
            ops + extension,
        ),
    decreases ops.len(),
{
    lemma_insert_fresh(ops);
    let longer = ops + extension;
    if ops.len() == 0 {
        assert(longer =~= extension);
        lemma_insert_fresh(extension);
    } else {
        let branch = chain(ops);
        assert(longer[0] == ops[0]);
        assert(!(ops[0] is FstPair));
        assert(same_op(longer[0], branch[0].op));
        assert(first_match(branch, longer[0]) == 0);
        assert(longer.drop_first() =~= ops.drop_first() + extension);
        assert(shareable(ops.drop_first())) by {
            assert forall|k: int| 0 <= k < ops.drop_first().len() implies !(
            #[trigger] ops.drop_first()[k] is FstPair) by {
                assert(ops.drop_first()[k] == ops[k + 1]);
            }
        }
        lemma_insert_extension(ops.drop_first(), extension);
        lemma_insert_fresh(ops.drop_first());
        assert(inserted(branch, longer) =~= chain(longer));
    }
}

/// Inserting two chains that differ in their first accessor into the empty
/// trie: each insertion hands its whole chain back, and the trie ends with
/// the two branches side by side.
pub proof fn lemma_insert_disjoint(first: Seq<Builtin>, second: Seq<Builtin>)
    requires
        first.len() > 0,
        second.len() > 0,
        !same_op(second[0], first[0]),
    ensures
        residue(Seq::<NodeModel>::empty(), first) == first,
        residue(inserted(Seq::<NodeModel>::empty(), first), second) == second,
        inserted(inserted(Seq::<NodeModel>::empty(), first), second) == chain(first) + chain(
            second,
        ),
        (chain(first) + chain(second)).len() == 2,
{
    lemma_insert_fresh(first);
    let branch = chain(first);
    assert(branch.drop_first() =~= Seq::<NodeModel>::empty());
    assert(first_match(branch.drop_first(), second[0]) == 0);
    assert(first_match(branch, second[0]) == 1);
}

/// Inserting a chain a second time hands back the empty chain, whatever the
/// trie held before, as long as the chain holds no `FstPair`.
pub proof fn lemma_insert_twice(children: Seq<NodeModel>, ops: Seq<Builtin>)
    requires
        shareable(ops),
    ensures
        residue(inserted(children, ops), ops) == Seq::<Builtin>::empty(),
        inserted(inserted(children, ops), ops) == inserted(children, ops),
    decreases ops.len(),
{
    if ops.len() == 0 {
        assert(ops =~= Seq::<Builtin>::empty());
    } else {
        let i = first_match(children, ops[0]);
        lemma_first_match(children, ops[0]);
        let after = inserted(children, ops);
        let rest = ops.drop_first();
        assert(shareable(rest)) by {
            assert forall|k: int| 0 <= k < rest.len() implies !(#[trigger] rest[k] is FstPair) by {
                assert(rest[k] == ops[k + 1]);
            }
        }
        assert(!(ops[0] is FstPair));
        if i < children.len() {
            assert forall|j: int| 0 <= j < i implies !same_op(ops[0], #[trigger] after[j].op) by {
                assert(after[j] == children[j]);
            }
            lemma_first_match_unique(after, ops[0], i);
            lemma_insert_twice(children[i].children, rest);
            assert(inserted(after, ops) =~= after);
        } else {
            let n = children.len() as int;
            assert(after[n] == chain(ops)[0]);
            assert forall|j: int| 0 <= j < n implies !same_op(ops[0], #[trigger] after[j].op) by {
                assert(after[j] == children[j]);
            }
            lemma_first_match_unique(after, ops[0], n);
            lemma_insert_fresh(rest);
            lemma_insert_twice(Seq::<NodeModel>::empty(), rest);
            assert(inserted(after, ops) =~= after);
        }
    }
}

/// The nodes that an optional root stands for, as
/// `itertools::Itertools::collect_vec` gathers them from the option's
/// iterator: the root alone, or no node where there is none.
#[verifier::external_body]
fn collect_root(root: Option<TreeNode>) -> (nodes: Vec<TreeNode>)
    ensures
        nodes@ == match root {
            Some(node) => seq![node],
            None => Seq::<TreeNode>::empty(),
        },
{
    root.into_iter().collect_vec()
}

/// The position of the first of `children` whose accessor equals `op`.
fn find_child(children: &Vec<TreeNode>, op: &Builtin) -> (i: usize)
    ensures
        i == first_match(models(children@), *op),
        i <= children@.len(),
{
    let mut i: usize = 0;
    while i < children.len()
        invariant
            i <= children@.len(),
            forall|j: int| 0 <= j < i ==> !same_op(*op, #[trigger] models(children@)[j].op),
        decreases children@.len() - i,
    {
        if *op == children[i].node {
            proof {
                assert(models(children@)[i as int].op == children@[i as int].node);
                lemma_first_match_unique(models(children@), *op, i as int);
            }
            return i;
        }
        assert(models(children@)[i as int].op == children@[i as int].node);
        i += 1;
    }
    proof {
        lemma_first_match_unique(models(children@), *op, i as int);
    }
    i
}

/// A copy of `nodes`, node by node.
fn clone_nodes(nodes: &Vec<TreeNode>) -> (copy: Vec<TreeNode>)
    ensures
        models(copy@) == models(nodes@),
    decreases *nodes, 1nat,
{
    let mut copy: Vec<TreeNode> = Vec::new();
    let mut i: usize = 0;
    while i < nodes.len()
        invariant
            i <= nodes@.len(),
            copy@.len() == i,
            forall|j: int| 0 <= j < i ==> (#[trigger] copy@[j])@ == nodes@[j]@,
        decreases nodes@.len() - i,
    {
        let node = nodes[i].clone();
        copy.push(node);
        i += 1;
    }
    assert(models(copy@) =~= models(nodes@));
    copy
}

impl Clone for TreeNode {
    fn clone(&self) -> (copy: TreeNode)
        ensures
            copy@ == self@,
        decreases *self, 0nat,
    {
        let copy = TreeNode { node: self.node.clone(), children: clone_nodes(&self.children) };
        proof {
            lemma_node_view(copy);
            lemma_node_view(*self);
        }
        copy
    }
}

impl Clone for TreeSet {
    fn clone(&self) -> (copy: TreeSet)
        ensures
            copy@ == self@,
    {
        TreeSet { children: clone_nodes(&self.children) }
    }
}

/// Inserts the chain below `children` and hands back what was not there.
fn insert_ops(children: &mut Vec<TreeNode>, builtins: Builtins) -> (suffix: Builtins)
    ensures
        models(final(children)@) == inserted(models(old(children)@), builtins@),
        suffix@ == residue(models(old(children)@), builtins@),
    decreases builtins@.len(),
{
    if builtins.is_empty() {
        return builtins;
    }
    let i = find_child(children, &builtins.vec[0]);
    if i < children.len() {
        let rest = builtins.rest();
        let ghost before = children@[i as int];
        let child = &mut children[i];
        let suffix = insert_ops(&mut child.children, rest);
        proof {
            let after = children@[i as int];
            assert(after.node == before.node);
            lemma_node_view(after);
            lemma_node_view(before);
            assert(models(children@) =~= inserted(models(old(children)@), builtins@));
        }
        suffix
    } else {
        let fresh = TreeSet::new_from_builtins(builtins.clone());
        let mut branch = fresh.children;
        children.append(&mut branch);
        assert(models(children@) =~= inserted(models(old(children)@), builtins@));
        builtins
    }
}

impl TreeNode {
    /// Inserts the chain below this node and hands back what was not there.
    pub fn diff_union_builtins(&mut self, builtins: Builtins) -> (suffix: Builtins)
        ensures
            final(self)@.op == old(self)@.op,
            final(self)@.children == inserted(old(self)@.children, builtins@),
            suffix@ == residue(old(self)@.children, builtins@),
            well_formed(old(self)@.children) ==> well_formed(final(self)@.children),
            suffix@.len() <= builtins@.len(),
            suffix@ == builtins@.skip(builtins@.len() - suffix@.len()),
    {
        proof {
            lemma_residue_is_suffix(self@.children, builtins@);
            if well_formed(self@.children) {
                lemma_inserted_well_formed(self@.children, builtins@);
            }
        }
        proof {
            lemma_node_view(*self);
        }
        let suffix = insert_ops(&mut self.children, builtins);
        proof {
            lemma_node_view(*self);
        }
        suffix
    }
}

impl TreeSet {
    /// The trie that holds no chain.
    pub fn new() -> (tree: TreeSet)
        ensures
            tree@ == Seq::<NodeModel>::empty(),
            well_formed(tree@),
    {
        let tree = TreeSet { children: Vec::new() };
        assert(tree@ =~= Seq::<NodeModel>::empty());
        tree
    }

    /// The trie that holds the one chain `builtins`, as a single branch.
    pub fn new_from_builtins(builtins: Builtins) -> (tree: TreeSet)
        ensures
            tree@ == chain(builtins@),
            well_formed(tree@),
    {
        let ghost ops = builtins@;
        let mut vec = builtins.vec;
        let mut root: Option<TreeNode> = None;
        assert(ops.skip(ops.len() as int) =~= Seq::<Builtin>::empty());
        while vec.len() > 0
            invariant
                vec@.len() <= ops.len(),
                vec@ == ops.take(vec@.len() as int),
                match root {
                    Some(node) => seq![node@],
                    None => Seq::<NodeModel>::empty(),
                } == chain(ops.skip(vec@.len() as int)),
            decreases vec@.len(),
        {
            let ghost n = vec@.len() as int;
            let item = vec.pop().unwrap();
            let mut current = TreeNode { node: item, children: Vec::new() };
            if let Some(prev) = root {
                current.children.push(prev);
            }
            proof {
                let here = ops.skip(n - 1);
                assert(here[0] == ops[n - 1]);
                assert(here.drop_first() =~= ops.skip(n));
                lemma_node_view(current);
                assert(current@.children =~= chain(ops.skip(n)));
                assert(vec@ =~= ops.take(n - 1));
                assert(seq![current@] =~= chain(here));
            }
            root = Some(current);
        }
        assert(ops.skip(0) =~= ops);
        let tree = TreeSet { children: collect_root(root) };
        proof {
            assert(tree@ =~= chain(ops));
            lemma_chain_well_formed(ops);
        }
        tree
    }

    /// Inserts the chain into the trie and hands back what was not there: the
    /// chain from the first accessor on that the trie did not hold.
    pub fn diff_union_builtins(&mut self, builtins: Builtins) -> (suffix: Builtins)
        ensures
            final(self)@ == inserted(old(self)@, builtins@),
            suffix@ == residue(old(self)@, builtins@),
            well_formed(old(self)@) ==> well_formed(final(self)@),
            suffix@.len() <= builtins@.len(),
            suffix@ == builtins@.skip(builtins@.len() - suffix@.len()),
    {
        proof {
            lemma_residue_is_suffix(self@, builtins@);
            if well_formed(self@) {
                lemma_inserted_well_formed(self@, builtins@);
            }
        }
        insert_ops(&mut self.children, builtins)
    }
}

} // verus!
