//! The trace as lines of text, drawn by `termtree`.
use crate::tree::{NodeView, TraceTree, TreeView};
use vstd::prelude::*;

verus! {

/// The lines of a tree: that of its root, and the trees below it.
pub struct TextTree {
    pub root: Seq<char>,
    pub leaves: Seq<TextTree>,
}

/// Every node of `tree` as its line.
pub open spec fn lines(tree: TreeView) -> TextTree
    decreases tree,
{
    TextTree {
        root: tree.root.line(),
        leaves: Seq::new(
            tree.leaves.len(),
            |i: int|
                if 0 <= i < tree.leaves.len() {
                    lines(tree.leaves[i])
                } else {
                    arbitrary()
                },
        ),
    }
}

/// `termtree::Tree`, a tree that can draw itself.
#[verifier::external_type_specification]
#[verifier::external_body]
#[verifier::reject_recursive_types(D)]
pub struct ExTree<D: core::fmt::Display>(termtree::Tree<D>);

/// What a `termtree::Tree` of texts holds: its root and its leaves, in order.
pub uninterp spec fn content(tree: termtree::Tree<String>) -> TextTree;

/// Whether a `termtree::Tree` and all trees in it are as `Tree::new` makes them: without glyphs
/// of their own, and not set to several lines.
pub uninterp spec fn plain(tree: termtree::Tree<String>) -> bool;

/// The drawing of a tree that hangs below another one: its line behind `indent` and a branch,
/// and below it the drawing of its leaves, further in. `last` says that no neighbour follows.
pub open spec fn branch(tree: TextTree, indent: Seq<char>, last: bool) -> Seq<char>
    decreases tree, 0nat,
{
    let stem = if last {
        "└── "@
    } else {
        "├── "@
    };
    let deeper = if last {
        "    "@
    } else {
        "│   "@
    };
    indent + stem + tree.root + "\n"@ + branches(tree.leaves, tree.leaves.len(), indent + deeper)
}

/// The drawing of the first `n` of `leaves`, one after the other.
pub open spec fn branches(leaves: Seq<TextTree>, n: nat, indent: Seq<char>) -> Seq<char>
    decreases leaves, n,
{
    if n == 0 || n > leaves.len() {
        Seq::empty()
    } else {
        branches(leaves, (n - 1) as nat, indent) + branch(
            leaves[n - 1],
            indent,
            n == leaves.len(),
        )
    }
}

/// The drawing of a tree: the line of its root, and the drawing of its leaves.
pub open spec fn drawn(tree: TextTree) -> Seq<char> {
    tree.root + "\n"@ + branches(tree.leaves, tree.leaves.len(), Seq::empty())
}

/// `termtree::Tree::new`: a tree that holds `root` and no leaves.
#[verifier::external_body]
fn sprout(root: String) -> (tree: termtree::Tree<String>)
    ensures
        content(tree) == (TextTree { root: root@, leaves: Seq::empty() }),
        plain(tree),
{
    termtree::Tree::new(root)
}

/// `termtree::Tree::push`: the leaf comes after those that the tree had, and neither is
/// changed otherwise.
#[verifier::external_body]
fn attach(tree: &mut termtree::Tree<String>, leaf: termtree::Tree<String>)
    ensures
        content(*final(tree)) == (TextTree {
            root: content(*old(tree)).root,
            leaves: content(*old(tree)).leaves.push(content(leaf)),
        }),
        plain(*final(tree)) == (plain(*old(tree)) && plain(leaf)),
{
    tree.push(leaf);
}

/// The `Display` of `termtree::Tree`: a plain tree has one line for each node, a node before its
/// leaves, and the leaves hang on branches below it.
#[verifier::external_body]
fn draw(tree: &termtree::Tree<String>) -> (text: String)
    requires
        plain(*tree),
    ensures
        text@ == drawn(content(*tree)),
{
    tree.to_string()
}

impl TraceTree {
    /// The tree that `termtree` draws.
    fn drawable(&self) -> (tree: termtree::Tree<String>)
        ensures
            content(tree) == lines(self@),
            plain(tree),
        decreases self,
    {
        let mut tree = sprout(self.root.line());
        let mut i: usize = 0;
        while i < self.leaves.len()
            invariant
                i <= self.leaves.len(),
                plain(tree),
                content(tree).root == self.root@.line(),
                content(tree).leaves == lines(self@).leaves.take(i as int),
            decreases self.leaves.len() - i,
        {
            let leaf = self.leaves[i].drawable();
            attach(&mut tree, leaf);
            i += 1;
            assert(content(tree).leaves =~= lines(self@).leaves.take(i as int));
        }
        assert(content(tree).leaves =~= lines(self@).leaves);
        tree
    }

    /// The trace as text, one node to a line.
    pub fn render(&self) -> (text: String)
        ensures
            text@ == drawn(lines(self@)),
    {
        draw(&self.drawable())
    }
}

/// The node that is reached from the root of a tree by taking the leaf with each number in turn.
pub open spec fn node_at(tree: TreeView, path: Seq<int>) -> Option<NodeView>
    decreases path.len(),
{
    if path.len() == 0 {
        Some(tree.root)
    } else if 0 <= path[0] < tree.leaves.len() {
        node_at(tree.leaves[path[0]], path.drop_first())
    } else {
        None
    }
}

/// The line that is reached in the same way.
pub open spec fn line_at(tree: TextTree, path: Seq<int>) -> Option<Seq<char>>
    decreases path.len(),
{
    if path.len() == 0 {
        Some(tree.root)
    } else if 0 <= path[0] < tree.leaves.len() {
        line_at(tree.leaves[path[0]], path.drop_first())
    } else {
        None
    }
}

/// Every node of a tree has its line at the place of the node, and there are no other lines.
pub proof fn law_every_node_has_its_line(tree: TreeView, path: Seq<int>)
    ensures
        line_at(lines(tree), path) == match node_at(tree, path) {
            Some(NodeView::Node(name)) => Some(name + ":"@),
            Some(NodeView::Label(key, value)) => Some(key + ": "@ + value),
            None => None,
        },
    decreases path.len(),
{
    if path.len() > 0 && 0 <= path[0] < tree.leaves.len() {
        law_every_node_has_its_line(tree.leaves[path[0]], path.drop_first());
    }
}

/// Whether `part` stands in `text` without a gap.
pub open spec fn stands_in(part: Seq<char>, text: Seq<char>) -> bool {
    exists|i: int| 0 <= i <= text.len() - part.len() && #[trigger] text.subrange(i, i + part.len())
        == part
}

proof fn lemma_stands_in_itself(text: Seq<char>)
    ensures
        stands_in(text, text),
{
    let i: int = 0;
    assert(text.subrange(i, i + text.len()) =~= text);
}

proof fn lemma_stands_in(part: Seq<char>, before: Seq<char>, middle: Seq<char>, after: Seq<char>)
    requires
        stands_in(part, middle),
    ensures
        stands_in(part, before + middle + after),
{
    let text = before + middle + after;
    let i = choose|i: int| 0 <= i <= middle.len() - part.len() && #[trigger] middle.subrange(
        i,
        i + part.len(),
    ) == part;
    let at = before.len() + i;
    assert(text.subrange(at, at + part.len()) =~= part);
}

proof fn lemma_branches_hold_each(leaves: Seq<TextTree>, n: nat, indent: Seq<char>, i: int)
    requires
        0 <= i < n <= leaves.len(),
    ensures
        stands_in(
            branch(leaves[i], indent, i + 1 == leaves.len()),
            branches(leaves, n, indent),
        ),
    decreases n,
{
    let own = branch(leaves[i], indent, i + 1 == leaves.len());
    let before = branches(leaves, (n - 1) as nat, indent);
    let last = branch(leaves[n - 1], indent, n == leaves.len());
    if i < n - 1 {
        lemma_branches_hold_each(leaves, (n - 1) as nat, indent, i);
        lemma_stands_in(own, Seq::empty(), before, last);
        assert(Seq::<char>::empty() + before + last =~= branches(leaves, n, indent));
    } else {
        lemma_stands_in_itself(last);
        lemma_stands_in(own, before, last, Seq::empty());
        assert(before + last + Seq::<char>::empty() =~= branches(leaves, n, indent));
    }
}

proof fn lemma_within(a: Seq<char>, b: Seq<char>, c: Seq<char>)
    requires
        stands_in(a, b),
        stands_in(b, c),
    ensures
        stands_in(a, c),
{
    let i = choose|i: int| 0 <= i <= b.len() - a.len() && #[trigger] b.subrange(i, i + a.len())
        == a;
    let j = choose|j: int| 0 <= j <= c.len() - b.len() && #[trigger] c.subrange(j, j + b.len())
        == b;
    let at = i + j;
    assert(c.subrange(at, at + a.len()) =~= a) by {
        assert(forall|k: int|
            0 <= k < a.len() ==> #[trigger] a[k] == b.subrange(i, i + a.len())[k]);
        assert(forall|k: int|
            0 <= k < b.len() ==> #[trigger] b[k] == c.subrange(j, j + b.len())[k]);
    }
}

proof fn lemma_branch_holds_line(tree: TextTree, indent: Seq<char>, last: bool, path: Seq<int>)
    requires
        line_at(tree, path) is Some,
    ensures
        stands_in(line_at(tree, path)->0 + "\n"@, branch(tree, indent, last)),
    decreases path.len(),
{
    let line = line_at(tree, path)->0 + "\n"@;
    let stem = if last {
        "└── "@
    } else {
        "├── "@
    };
    let deeper = indent + if last {
        "    "@
    } else {
        "│   "@
    };
    let below = branches(tree.leaves, tree.leaves.len(), deeper);
    let whole = branch(tree, indent, last);
    let front = indent + stem;
    let own = tree.root + "\n"@;
    if path.len() == 0 {
        lemma_stands_in_itself(own);
        lemma_stands_in(line, front, own, below);
        assert(whole =~= front + own + below);
    } else {
        let i = path[0];
        let final_leaf = i + 1 == tree.leaves.len();
        lemma_branch_holds_line(tree.leaves[i], deeper, final_leaf, path.drop_first());
        lemma_branches_hold_each(tree.leaves, tree.leaves.len(), deeper, i);
        lemma_within(line, branch(tree.leaves[i], deeper, final_leaf), below);
        lemma_stands_in(line, front + own, below, Seq::empty());
        assert(whole =~= front + own + below + Seq::<char>::empty());
    }
}

/// The drawing of a tree holds the line of every node, ended by a line break.
pub proof fn law_drawing_holds_every_line(tree: TreeView, path: Seq<int>)
    requires
        node_at(tree, path) is Some,
    ensures
        stands_in(
            (match node_at(tree, path)->0 {
                NodeView::Node(name) => name + ":"@,
                NodeView::Label(key, value) => key + ": "@ + value,
            }) + "\n"@,
            drawn(lines(tree)),
        ),
{
    law_every_node_has_its_line(tree, path);
    let text = lines(tree);
    let line = line_at(text, path)->0 + "\n"@;
    let own = text.root + "\n"@;
    let below = branches(text.leaves, text.leaves.len(), Seq::empty());
    if path.len() == 0 {
        lemma_stands_in_itself(own);
        lemma_stands_in(line, Seq::empty(), own, below);
        assert(drawn(text) =~= Seq::<char>::empty() + own + below);
    } else {
        let i = path[0];
        let last = i + 1 == text.leaves.len();
        lemma_branch_holds_line(text.leaves[i], Seq::empty(), last, path.drop_first());
        lemma_branches_hold_each(text.leaves, text.leaves.len(), Seq::empty(), i);
        lemma_within(line, branch(text.leaves[i], Seq::empty(), last), below);
        lemma_stands_in(line, own, below, Seq::empty());
        assert(drawn(text) =~= own + below + Seq::<char>::empty());
    }
}

} // verus!
