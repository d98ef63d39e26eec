//! The document tree that the evaluator reads.
//!
//! A node is a piece of literal text or an ordered group of nodes. A group
//! whose first child is literal text is read by the evaluator as a call: the
//! text names a directive or a variable, the other children are its
//! arguments.

use vstd::prelude::*;

verus! {

/// What a [`Node`] holds.
#[derive(Debug)]
pub enum NodeValue {
    /// Literal text.
    Owned(String),
    /// An ordered group of nodes.
    Children(Vec<Node>),
}

/// A node of the document tree, with the source file it came from.
#[derive(Debug)]
pub struct Node {
    pub value: NodeValue,
    /// The number of the source file in the evaluator's file table, where the
    /// node was read from one.
    pub file_id: Option<usize>,
}

/// The mathematical tree that a [`Node`] stands for.
#[verifier::ext_equal]
pub ghost enum Tree {
    Leaf { text: Seq<char>, file: Option<usize> },
    Group { children: Seq<Tree>, file: Option<usize> },
}

impl Tree {
    /// A leaf that comes from no file.
    pub open spec fn literal(text: Seq<char>) -> Tree {
        Tree::Leaf { text, file: None }
    }

    /// The source file of the node.
    pub open spec fn file(self) -> Option<usize> {
        match self {
            Tree::Leaf { file, .. } => file,
            Tree::Group { file, .. } => file,
        }
    }
}

/// The tree of a node.
pub open spec fn tree_of(node: Node) -> Tree
    decreases node,
{
    match node.value {
        NodeValue::Owned(s) => Tree::Leaf { text: s@, file: node.file_id },
        NodeValue::Children(v) => Tree::Group { children: views(v@), file: node.file_id },
    }
}

/// The trees of a sequence of nodes.
pub open spec fn views(nodes: Seq<Node>) -> Seq<Tree>
    decreases nodes,
{
    if nodes.len() == 0 {
        Seq::empty()
    } else {
        views(nodes.drop_last()).push(tree_of(nodes.last()))
    }
}

impl View for Node {
    type V = Tree;

    open spec fn view(&self) -> Tree {
        tree_of(*self)
    }
}

/// `views` goes through the nodes one by one.
pub proof fn lemma_views(nodes: Seq<Node>)
    ensures
        views(nodes).len() == nodes.len(),
        forall|i: int| 0 <= i < nodes.len() ==> #[trigger] views(nodes)[i] == nodes[i]@,
    decreases nodes.len(),
{
    if nodes.len() > 0 {
        lemma_views(nodes.drop_last());
    }
}

/// The trees of a part of a sequence are that part of its trees.
pub proof fn lemma_views_subrange(nodes: Seq<Node>, from: int, to: int)
    requires
        0 <= from <= to <= nodes.len(),
    ensures
        views(nodes.subrange(from, to)) == views(nodes).subrange(from, to),
{
    lemma_views(nodes);
    lemma_views(nodes.subrange(from, to));
    assert(views(nodes.subrange(from, to)) =~= views(nodes).subrange(from, to));
}

impl Node {
    /// A node that holds `value` and comes from file `file_id`.
    pub fn new(value: NodeValue, file_id: Option<usize>) -> (node: Node)
        ensures
            node.value == value,
            node.file_id == file_id,
    {
        Node { value, file_id }
    }

    /// A node of literal text that comes from no file.
    pub fn new_string(value: &str) -> (node: Node)
        ensures
            node@ == Tree::literal(value@),
    {
        Node { value: NodeValue::Owned(value.to_owned()), file_id: None }
    }

    /// A group of `value` that comes from no file.
    pub fn new_children(value: Vec<Node>) -> (node: Node)
        ensures
            node@ == (Tree::Group { children: views(value@), file: None }),
    {
        Node { value: NodeValue::Children(value), file_id: None }
    }

    /// A copy of the node and of all that is below it.
    pub fn duplicate(&self) -> (copy: Node)
        ensures
            copy@ == self@,
        decreases self,
    {
        match &self.value {
            NodeValue::Owned(s) => Node {
                value: NodeValue::Owned(s.clone()),
                file_id: self.file_id,
            },
            NodeValue::Children(v) => {
                let mut copies: Vec<Node> = Vec::new();
                let mut i: usize = 0;
                while i < v.len()
                    invariant
                        i <= v.len(),
                        self.value == NodeValue::Children(*v),
                        copies.len() == i,
                        forall|j: int| 0 <= j < i ==> copies@[j]@ == v@[j]@,
                    decreases v.len() - i,
                {
                    proof {
                        vstd::std_specs::vec::axiom_vec_index_decreases(*v, i as int);
                        assert(*v == self.value->Children_0);
                    }
                    let child = v[i].duplicate();
                    copies.push(child);
                    i = i + 1;
                }
                let copy = Node { value: NodeValue::Children(copies), file_id: self.file_id };
                proof {
                    lemma_views(copies@);
                    lemma_views(v@);
                    assert(views(copies@) =~= views(v@));
                }
                copy
            },
        }
    }
}

} // verus!
