//! The tree that a trace is shown as.
use vstd::prelude::*;
use vstd::string::*;

verus! {

/// One line of the trace.
#[derive(Debug)]
pub enum TraceNode {
    /// A heading with what belongs to it below.
    Node(String),
    /// A key with its value.
    Label(String, String),
}

/// What a [`TraceNode`] says.
pub enum NodeView {
    Node(Seq<char>),
    Label(Seq<char>, Seq<char>),
}

impl View for TraceNode {
    type V = NodeView;

    open spec fn view(&self) -> NodeView {
        match self {
            TraceNode::Node(name) => NodeView::Node(name@),
            TraceNode::Label(key, value) => NodeView::Label(key@, value@),
        }
    }
}

impl NodeView {
    /// The node with `prefix` and a space before its name or key.
    pub open spec fn prefixed(self, prefix: Seq<char>) -> NodeView {
        match self {
            NodeView::Node(name) => NodeView::Node(prefix + " "@ + name),
            NodeView::Label(key, value) => NodeView::Label(prefix + " "@ + key, value),
        }
    }

    /// The line that shows the node.
    pub open spec fn line(self) -> Seq<char> {
        match self {
            NodeView::Node(name) => name + ":"@,
            NodeView::Label(key, value) => key + ": "@ + value,
        }
    }
}

/// A node and the trees below it, in order.
#[derive(Debug)]
pub struct TraceTree {
    pub root: TraceNode,
    pub leaves: Vec<TraceTree>,
}

/// What a [`TraceTree`] says.
pub struct TreeView {
    pub root: NodeView,
    pub leaves: Seq<TreeView>,
}

impl TraceTree {
    /// The nodes of the tree, as plain text.
    pub open spec fn shape(self) -> TreeView
        decreases self,
    {
        TreeView {
            root: self.root@,
            leaves: Seq::new(
                self.leaves@.len(),
                |i: int|
                    if 0 <= i < self.leaves@.len() {
                        self.leaves@[i].shape()
                    } else {
                        arbitrary()
                    },
            ),
        }
    }
}

impl View for TraceTree {
    type V = TreeView;

    open spec fn view(&self) -> TreeView {
        self.shape()
    }
}

/// The views of a list of trees.
pub open spec fn views(trees: Seq<TraceTree>) -> Seq<TreeView> {
    trees.map_values(|t: TraceTree| t@)
}

/// A heading with nothing below it.
pub open spec fn node(name: Seq<char>) -> TreeView {
    TreeView { root: NodeView::Node(name), leaves: Seq::empty() }
}

/// A key with its value.
pub open spec fn label(key: Seq<char>, value: Seq<char>) -> TreeView {
    TreeView { root: NodeView::Label(key, value), leaves: Seq::empty() }
}

impl TreeView {
    /// The tree with one more leaf at its end.
    pub open spec fn with(self, leaf: TreeView) -> TreeView {
        TreeView { root: self.root, leaves: self.leaves.push(leaf) }
    }

    /// Whether a node of the tree says what `line` says.
    pub open spec fn shows(self, line: NodeView) -> bool
        decreases self,
    {
        ||| self.root == line
        ||| exists|i: int| 0 <= i < self.leaves.len() && (#[trigger] self.leaves[i]).shows(line)
    }

    /// The tree with more leaves at its end.
    pub open spec fn with_all(self, leaves: Seq<TreeView>) -> TreeView {
        TreeView { root: self.root, leaves: self.leaves + leaves }
    }
}

impl TraceNode {
    /// A heading with nothing below it.
    pub fn node(name: String) -> (tree: TraceTree)
        ensures
            tree@ == node(name@),
    {
        let tree = TraceTree { root: TraceNode::Node(name), leaves: Vec::new() };
        assert(tree@.leaves =~= Seq::empty());
        tree
    }

    /// A key with its value.
    pub fn label(key: String, value: String) -> (tree: TraceTree)
        ensures
            tree@ == label(key@, value@),
    {
        let tree = TraceTree { root: TraceNode::Label(key, value), leaves: Vec::new() };
        assert(tree@.leaves =~= Seq::empty());
        tree
    }

    /// Puts `prefix` and a space before the name or the key.
    pub fn prefix(&mut self, prefix: &str)
        ensures
            final(self)@ == old(self)@.prefixed(prefix@),
    {
        let label = match self {
            TraceNode::Node(s) => s,
            TraceNode::Label(s, _) => s,
        };
        let mut text = prefix.to_owned();
        text.append(" ");
        text.append(label.as_str());
        *label = text;
    }

    /// The line that shows the node.
    pub fn line(&self) -> (text: String)
        ensures
            text@ == self@.line(),
    {
        match self {
            TraceNode::Node(name) => {
                let mut text = name.clone();
                text.append(":");
                text
            },
            TraceNode::Label(key, value) => {
                let mut text = key.clone();
                text.append(": ");
                text.append(value.as_str());
                text
            },
        }
    }
}

impl TraceTree {
    /// Adds a leaf at the end.
    pub fn push(&mut self, leaf: TraceTree)
        ensures
            final(self)@ == old(self)@.with(leaf@),
    {
        self.leaves.push(leaf);
        assert(self@.leaves =~= old(self)@.leaves.push(leaf@));
    }

    /// Adds leaves at the end, in order.
    pub fn extend(&mut self, leaves: Vec<TraceTree>)
        ensures
            final(self)@ == old(self)@.with_all(views(leaves@)),
    {
        let mut more = leaves;
        self.leaves.append(&mut more);
        assert(self@.leaves =~= old(self)@.leaves + views(leaves@));
    }

    /// The tree with `leaves` in place of those it had.
    pub fn with_leaves(self, leaves: Vec<TraceTree>) -> (tree: TraceTree)
        ensures
            tree@ == (TreeView { root: self@.root, leaves: views(leaves@) }),
    {
        let tree = TraceTree { root: self.root, leaves };
        assert(tree@.leaves =~= views(leaves@));
        tree
    }
}

/// A prefix comes before the whole line.
pub proof fn law_prefix_leads_the_line(node: NodeView, prefix: Seq<char>)
    ensures
        node.prefixed(prefix).line() == prefix + " "@ + node.line(),
{
    assert(node.prefixed(prefix).line() =~= prefix + " "@ + node.line());
}

/// The view of a tree has the view of each of its leaves at the leaf's place.
pub proof fn law_view_has_every_leaf(tree: TraceTree)
    ensures
        tree@.root == tree.root@,
        tree@.leaves.len() == tree.leaves@.len(),
        forall|i: int|
            0 <= i < tree.leaves@.len() ==> #[trigger] tree@.leaves[i] == tree.leaves@[i]@,
{
}

/// A leaf, or leaves, that are added come last, in order, and leave the root and the leaves that
/// were there.
pub proof fn law_leaves_are_added_at_the_end(tree: TreeView, leaf: TreeView, more: Seq<TreeView>)
    ensures
        tree.with(leaf).root == tree.root,
        tree.with(leaf).leaves.len() == tree.leaves.len() + 1,
        tree.with(leaf).leaves.last() == leaf,
        tree.with(leaf).leaves.drop_last() == tree.leaves,
        tree.with_all(more).root == tree.root,
        tree.with_all(more).leaves.len() == tree.leaves.len() + more.len(),
        tree.with_all(more).leaves.take(tree.leaves.len() as int) == tree.leaves,
        tree.with_all(more).leaves.skip(tree.leaves.len() as int) == more,
{
    assert(tree.with(leaf).leaves.drop_last() =~= tree.leaves);
    assert(tree.with_all(more).leaves.take(tree.leaves.len() as int) =~= tree.leaves);
    assert(tree.with_all(more).leaves.skip(tree.leaves.len() as int) =~= more);
}

/// The views of trees are those of each, in order. A heading and a label have nothing below them.
pub proof fn law_trees_are_viewed_one_by_one(
    trees: Seq<TraceTree>,
    name: Seq<char>,
    value: Seq<char>,
)
    ensures
        views(trees).len() == trees.len(),
        forall|i: int| 0 <= i < trees.len() ==> #[trigger] views(trees)[i] == trees[i]@,
        node(name).root == NodeView::Node(name),
        node(name).leaves.len() == 0,
        label(name, value).root == NodeView::Label(name, value),
        label(name, value).leaves.len() == 0,
{
}

} // verus!
