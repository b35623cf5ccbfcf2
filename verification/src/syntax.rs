//! The syntax tree that the search engine walks, and its mathematical model.
//!
//! A tree is built by whoever parsed the source: every definition carries its name,
//! the text of each attribute, the text of its signature and the text of its body;
//! every invocation carries the text of what it calls.  The engine never changes a
//! tree.  Document order is depth-first pre-order: a node comes before its children,
//! and children come in the order in which they are stored.

use crate::text::occurs_in;
use vstd::prelude::*;
use vstd::string::*;

verus! {

/// What a definition is apart from its body.
pub struct Declaration {
    /// The identifier being defined.
    pub name: String,
    /// The text of each attribute, in source order.
    pub attributes: Vec<String>,
    /// The text of the definition between its attributes and its body; for a trait
    /// method without a default body this is the whole declaration.
    pub signature: String,
}

/// A body block: its text, and the nodes found inside it.
pub struct Block {
    pub text: String,
    pub children: Vec<SyntaxNode>,
}

/// A node of the tree.
#[allow(inconsistent_fields)]
pub enum SyntaxNode {
    /// A free function.
    FreeFunction { declaration: Declaration, body: Block },
    /// A method in an inherent or trait impl for a type.
    TypeMethod { declaration: Declaration, body: Block },
    /// A method in a trait, with or without a default body.
    TraitMethod { declaration: Declaration, body: Option<Block> },
    /// A call `target(..)`: the text of the called expression, and the nodes inside
    /// the called expression and the arguments.
    CallExpression { target: String, children: Vec<SyntaxNode> },
    /// A method call `receiver.method(..)`: the method's name, and the nodes inside
    /// the receiver and the arguments.
    MethodCallExpression { method: String, children: Vec<SyntaxNode> },
    /// Any other construct that may hold nodes.
    Container { children: Vec<SyntaxNode> },
}

/// Model of a [`Declaration`].
pub struct DeclarationView {
    pub name: Seq<char>,
    pub attributes: Seq<Seq<char>>,
    pub signature: Seq<char>,
}

/// Model of a [`Block`].
pub struct BlockView {
    pub text: Seq<char>,
    pub children: Seq<Tree>,
}

/// Model of a [`SyntaxNode`].
#[allow(inconsistent_fields)]
pub enum Tree {
    FreeFunction { declaration: DeclarationView, body: BlockView },
    TypeMethod { declaration: DeclarationView, body: BlockView },
    TraitMethod { declaration: DeclarationView, body: Option<BlockView> },
    CallExpression { target: Seq<char>, children: Seq<Tree> },
    MethodCallExpression { method: Seq<char>, children: Seq<Tree> },
    Container { children: Seq<Tree> },
}

impl View for Declaration {
    type V = DeclarationView;

    open spec fn view(&self) -> DeclarationView {
        DeclarationView {
            name: self.name@,
            attributes: self.attributes@.map_values(|a: String| a@),
            signature: self.signature@,
        }
    }
}

/// The models of `nodes`, in the same order.
pub open spec fn views(nodes: Vec<SyntaxNode>) -> Seq<Tree>
    decreases nodes,
{
    Seq::new(
        nodes@.len(),
        |i: int|
            if 0 <= i < nodes@.len() {
                nodes@[i].view()
            } else {
                arbitrary()
            },
    )
}

impl View for SyntaxNode {
    type V = Tree;

    open spec fn view(&self) -> Tree
        decreases self,
    {
        match self {
            SyntaxNode::FreeFunction { declaration, body } => Tree::FreeFunction {
                declaration: declaration@,
                body: BlockView { text: body.text@, children: views(body.children) },
            },
            SyntaxNode::TypeMethod { declaration, body } => Tree::TypeMethod {
                declaration: declaration@,
                body: BlockView { text: body.text@, children: views(body.children) },
            },
            SyntaxNode::TraitMethod { declaration, body } => Tree::TraitMethod {
                declaration: declaration@,
                body: match body {
                    Some(block) => Some(
                        BlockView { text: block.text@, children: views(block.children) },
                    ),
                    None => None,
                },
            },
            SyntaxNode::CallExpression { target, children } => Tree::CallExpression {
                target: target@,
                children: views(*children),
            },
            SyntaxNode::MethodCallExpression { method, children } => Tree::MethodCallExpression {
                method: method@,
                children: views(*children),
            },
            SyntaxNode::Container { children } => Tree::Container { children: views(*children) },
        }
    }
}

impl View for Block {
    type V = BlockView;

    open spec fn view(&self) -> BlockView {
        BlockView { text: self.text@, children: views(self.children) }
    }
}

/// The text of a block where there is one.
pub open spec fn text_of(body: Option<&Block>) -> Option<Seq<char>> {
    match body {
        Some(block) => Some(block.text@),
        None => None,
    }
}

impl Declaration {
    /// The definition without its attributes.
    pub fn bare_text(&self, body: Option<&Block>) -> (text: String)
        ensures
            text@ == bare(self.signature@, text_of(body)),
    {
        let mut text = self.signature.clone();
        match body {
            Some(block) => {
                proof {
                    reveal_strlit(" ");
                }
                text.append(" ");
                text.append(block.text.as_str());
                assert(text@ =~= self.signature@ + seq![' '] + block.text@);
            },
            None => {},
        }
        text
    }

    /// The definition as it stands, attributes first.
    pub fn full_text(&self, body: Option<&Block>) -> (text: String)
        ensures
            text@ == spaced(self@.attributes) + bare(self.signature@, text_of(body)),
    {
        let mut text = String::new();
        let ghost attributes = self@.attributes;
        let mut i: usize = 0;
        while i < self.attributes.len()
            invariant
                i <= self.attributes@.len(),
                attributes == self@.attributes,
                text@ == spaced(attributes.take(i as int)),
            decreases self.attributes@.len() - i,
        {
            proof {
                reveal_strlit(" ");
                assert(attributes.take(i + 1).drop_last() =~= attributes.take(i as int));
            }
            text.append(self.attributes[i].as_str());
            text.append(" ");
            i += 1;
        }
        assert(attributes.take(i as int) =~= attributes);
        let rest = self.bare_text(body);
        text.append(rest.as_str());
        text
    }
}

/// Each piece followed by one space, in order.
pub open spec fn spaced(pieces: Seq<Seq<char>>) -> Seq<char>
    decreases pieces.len(),
{
    if pieces.len() == 0 {
        Seq::empty()
    } else {
        spaced(pieces.drop_last()) + pieces.last() + seq![' ']
    }
}

/// A definition without its attributes: the signature, then one space and the body
/// where there is one.
pub open spec fn bare(signature: Seq<char>, body: Option<Seq<char>>) -> Seq<char> {
    match body {
        Some(text) => signature + seq![' '] + text,
        None => signature,
    }
}

/// The text that stands for the body of a trait method when only bodies are asked for.
pub open spec fn empty_block() -> Seq<char> {
    seq!['{', '}']
}

/// The nodes of a forest in document order.
pub open spec fn preorder_all(nodes: Seq<Tree>) -> Seq<Tree>
    decreases nodes,
{
    if nodes.len() == 0 {
        Seq::empty()
    } else {
        preorder_all(nodes.drop_last()) + nodes.last().preorder()
    }
}

/// The first element of `nodes` that satisfies `wanted`, if there is one.
pub open spec fn first_where(nodes: Seq<Tree>, wanted: spec_fn(Tree) -> bool) -> Option<Tree>
    decreases nodes.len(),
{
    if nodes.len() == 0 {
        None
    } else {
        match first_where(nodes.drop_last(), wanted) {
            Some(node) => Some(node),
            None => if wanted(nodes.last()) {
                Some(nodes.last())
            } else {
                None
            },
        }
    }
}

/// Some element of `nodes` is an invocation that targets `callee`.
pub open spec fn any_targets(nodes: Seq<Tree>, callee: Seq<char>) -> bool {
    exists|k: int| 0 <= k < nodes.len() && #[trigger] nodes[k].targets(callee)
}

/// The nodes that define `name`.
pub open spec fn defining(name: Seq<char>) -> spec_fn(Tree) -> bool {
    |node: Tree| node.defines(name)
}

/// The nodes that define `name` and invoke `callee` in their body.
pub open spec fn calling(name: Seq<char>, callee: Seq<char>) -> spec_fn(Tree) -> bool {
    |node: Tree| node.calls(name, callee)
}

impl Tree {
    /// The nodes directly below this one, in document order.
    pub open spec fn children(self) -> Seq<Tree> {
        match self {
            Tree::FreeFunction { body, .. } => body.children,
            Tree::TypeMethod { body, .. } => body.children,
            Tree::TraitMethod { body, .. } => match body {
                Some(block) => block.children,
                None => Seq::empty(),
            },
            Tree::CallExpression { children, .. } => children,
            Tree::MethodCallExpression { children, .. } => children,
            Tree::Container { children } => children,
        }
    }

    /// This node and everything below it, in document order.
    pub open spec fn preorder(self) -> Seq<Tree>
        decreases self,
    {
        if self.children().len() == 0 {
            seq![self]
        } else {
            seq![self] + preorder_all(self.children())
        }
    }

    /// This node is a free function, a type method or a trait method.
    pub open spec fn is_definition(self) -> bool {
        self is FreeFunction || self is TypeMethod || self is TraitMethod
    }

    /// Name, attributes and signature of a definition.
    pub open spec fn declaration(self) -> DeclarationView
        recommends
            self.is_definition(),
    {
        match self {
            Tree::FreeFunction { declaration, .. } => declaration,
            Tree::TypeMethod { declaration, .. } => declaration,
            Tree::TraitMethod { declaration, .. } => declaration,
            _ => arbitrary(),
        }
    }

    /// The text of a definition's body block, if it has one.
    pub open spec fn body_text(self) -> Option<Seq<char>>
        recommends
            self.is_definition(),
    {
        match self {
            Tree::FreeFunction { body, .. } => Some(body.text),
            Tree::TypeMethod { body, .. } => Some(body.text),
            Tree::TraitMethod { body: Some(block), .. } => Some(block.text),
            _ => None,
        }
    }

    /// A definition without its attributes: the signature, then one space and the
    /// body where there is one.
    pub open spec fn bare_text(self) -> Seq<char>
        recommends
            self.is_definition(),
    {
        bare(self.declaration().signature, self.body_text())
    }

    /// A definition as it stands: each attribute followed by a space, then the
    /// bare text.
    pub open spec fn full_text(self) -> Seq<char>
        recommends
            self.is_definition(),
    {
        spaced(self.declaration().attributes) + self.bare_text()
    }

    /// What a search for a definition extracts from it.  Attributes never appear.
    /// With `body_only`, a free function or type method gives its body block and a
    /// trait method gives the empty block, whether or not it has a default body.
    pub open spec fn captured_text(self, body_only: bool) -> Seq<char>
        recommends
            self.is_definition(),
    {
        if !body_only {
            self.bare_text()
        } else {
            match self {
                Tree::FreeFunction { body, .. } => body.text,
                Tree::TypeMethod { body, .. } => body.text,
                _ => empty_block(),
            }
        }
    }

    /// This node is a definition named exactly `name`.
    pub open spec fn defines(self, name: Seq<char>) -> bool {
        self.is_definition() && self.declaration().name == name
    }

    /// This node is an invocation whose target text, or method name, contains
    /// `callee`.
    pub open spec fn targets(self, callee: Seq<char>) -> bool {
        match self {
            Tree::CallExpression { target, .. } => occurs_in(callee, target),
            Tree::MethodCallExpression { method, .. } => occurs_in(callee, method),
            _ => false,
        }
    }

    /// Some node of this tree targets `callee`.
    pub open spec fn invokes(self, callee: Seq<char>) -> bool {
        any_targets(self.preorder(), callee)
    }

    /// Some node strictly below this one targets `callee`.
    pub open spec fn body_invokes(self, callee: Seq<char>) -> bool {
        any_targets(preorder_all(self.children()), callee)
    }

    /// This node defines `name`, and its body invokes `callee`.
    pub open spec fn calls(self, name: Seq<char>, callee: Seq<char>) -> bool {
        self.defines(name) && self.body_invokes(callee)
    }

    /// Every definition in this tree has a name and a signature.
    pub open spec fn well_formed(self) -> bool {
        forall|k: int|
            0 <= k < self.preorder().len() && (#[trigger] self.preorder()[k]).is_definition() ==> {
                &&& self.preorder()[k].declaration().name.len() > 0
                &&& self.preorder()[k].declaration().signature.len() > 0
            }
    }

    /// The first definition of `name` in document order.
    pub open spec fn first_definition(self, name: Seq<char>) -> Option<Tree> {
        first_where(self.preorder(), defining(name))
    }

    /// The first definition of `name`, in document order, whose body invokes
    /// `callee`.
    pub open spec fn first_caller(self, name: Seq<char>, callee: Seq<char>) -> Option<Tree> {
        first_where(self.preorder(), calling(name, callee))
    }
}

/// A tree in document order is its root followed by its children's trees in order.
pub proof fn lemma_preorder_unfolds(tree: Tree)
    ensures
        tree.preorder() == seq![tree] + preorder_all(tree.children()),
        tree.preorder().len() > 0,
        tree.preorder()[0] == tree,
{
    if tree.children().len() == 0 {
        assert(seq![tree] + preorder_all(tree.children()) =~= seq![tree]);
    }
}

/// Appending a tree to a forest appends its nodes to the forest's nodes.
pub proof fn lemma_preorder_all_push(nodes: Seq<Tree>, node: Tree)
    ensures
        preorder_all(nodes.push(node)) == preorder_all(nodes) + node.preorder(),
{
    assert(nodes.push(node).drop_last() =~= nodes);
}

/// The first match of a concatenation is the first match of the front, or else of
/// the back.
pub proof fn lemma_first_where_concat(
    front: Seq<Tree>,
    back: Seq<Tree>,
    wanted: spec_fn(Tree) -> bool,
)
    ensures
        first_where(front + back, wanted) == match first_where(front, wanted) {
            Some(node) => Some(node),
            None => first_where(back, wanted),
        },
    decreases back.len(),
{
    if back.len() == 0 {
        assert(front + back =~= front);
    } else {
        lemma_first_where_concat(front, back.drop_last(), wanted);
        assert((front + back).drop_last() =~= front + back.drop_last());
        assert((front + back).last() == back.last());
    }
}

/// The first match among one node is that node, or nothing.
pub proof fn lemma_first_where_single(node: Tree, wanted: spec_fn(Tree) -> bool)
    ensures
        first_where(seq![node], wanted) == if wanted(node) {
            Some(node)
        } else {
            None
        },
{
    let one = seq![node];
    assert(one.drop_last() =~= Seq::<Tree>::empty());
    assert(first_where(one.drop_last(), wanted) is None);
    assert(one.last() == node);
}

/// What `first_where` returns is the match at the least index, and it returns
/// nothing only where nothing matches.
pub proof fn lemma_first_where_is_first(nodes: Seq<Tree>, wanted: spec_fn(Tree) -> bool)
    ensures
        match first_where(nodes, wanted) {
            Some(node) => exists|k: int|
                0 <= k < nodes.len() && #[trigger] nodes[k] == node && wanted(node) && forall|j: int|
                    0 <= j < k ==> !wanted(#[trigger] nodes[j]),
            None => forall|k: int| 0 <= k < nodes.len() ==> !wanted(#[trigger] nodes[k]),
        },
    decreases nodes.len(),
{
    if nodes.len() > 0 {
        let front = nodes.drop_last();
        lemma_first_where_is_first(front, wanted);
        match first_where(front, wanted) {
            Some(node) => {
                let k = choose|k: int|
                    0 <= k < front.len() && #[trigger] front[k] == node && wanted(node) && forall|j: int|
                        0 <= j < k ==> !wanted(#[trigger] front[j]);
                assert(nodes[k] == node);
                assert forall|j: int| 0 <= j < k implies !wanted(#[trigger] nodes[j]) by {
                    assert(front[j] == nodes[j]);
                }
            },
            None => {
                assert forall|j: int| 0 <= j < nodes.len() - 1 implies !wanted(
                    #[trigger] nodes[j],
                ) by {
                    assert(front[j] == nodes[j]);
                }
                if wanted(nodes.last()) {
                    assert(nodes[nodes.len() - 1] == nodes.last());
                }
            },
        }
    }
}

/// A concatenation holds an invocation of `callee` exactly if one of its parts does.
pub proof fn lemma_any_targets_concat(front: Seq<Tree>, back: Seq<Tree>, callee: Seq<char>)
    ensures
        any_targets(front + back, callee) == (any_targets(front, callee) || any_targets(
            back,
            callee,
        )),
{
    let whole = front + back;
    if any_targets(whole, callee) {
        let k = choose|k: int| 0 <= k < whole.len() && #[trigger] whole[k].targets(callee);
        if k < front.len() {
            assert(front[k].targets(callee));
        } else {
            assert(back[k - front.len()].targets(callee));
        }
    }
    if any_targets(front, callee) {
        let k = choose|k: int| 0 <= k < front.len() && #[trigger] front[k].targets(callee);
        assert(whole[k].targets(callee));
    }
    if any_targets(back, callee) {
        let k = choose|k: int| 0 <= k < back.len() && #[trigger] back[k].targets(callee);
        assert(whole[front.len() + k].targets(callee));
    }
}

/// A tree invokes `callee` exactly if its root targets it or its body invokes it.
pub proof fn lemma_invokes_unfolds(tree: Tree, callee: Seq<char>)
    ensures
        tree.invokes(callee) == (tree.targets(callee) || tree.body_invokes(callee)),
{
    lemma_preorder_unfolds(tree);
    lemma_any_targets_concat(seq![tree], preorder_all(tree.children()), callee);
    if any_targets(seq![tree], callee) {
        let k = choose|k: int| 0 <= k < seq![tree].len() && #[trigger] seq![tree][k].targets(callee);
        assert(seq![tree][k] == tree);
    }
    if tree.targets(callee) {
        assert(seq![tree][0].targets(callee));
    }
}

/// A node of a forest is a node of one of its trees, and the other way round.
pub proof fn lemma_forest_nodes(nodes: Seq<Tree>, node: Tree)
    ensures
        preorder_all(nodes).contains(node) <==> exists|i: int|
            0 <= i < nodes.len() && (#[trigger] nodes[i]).preorder().contains(node),
    decreases nodes.len(),
{
    if nodes.len() > 0 {
        let front = nodes.drop_last();
        let last = nodes.last().preorder();
        lemma_forest_nodes(front, node);
        let whole = preorder_all(front) + last;
        if whole.contains(node) {
            let k = choose|k: int| 0 <= k < whole.len() && whole[k] == node;
            if k < preorder_all(front).len() {
                assert(preorder_all(front)[k] == node);
                let i = choose|i: int|
                    0 <= i < front.len() && (#[trigger] front[i]).preorder().contains(node);
                assert(nodes[i] == front[i]);
            } else {
                assert(last[k - preorder_all(front).len()] == node);
                assert(nodes[nodes.len() - 1].preorder().contains(node));
            }
        }
        if exists|i: int| 0 <= i < nodes.len() && (#[trigger] nodes[i]).preorder().contains(node) {
            let i = choose|i: int|
                0 <= i < nodes.len() && (#[trigger] nodes[i]).preorder().contains(node);
            if i < front.len() {
                assert(front[i] == nodes[i]);
                let k = choose|k: int|
                    0 <= k < preorder_all(front).len() && preorder_all(front)[k] == node;
                assert(whole[k] == node);
            } else {
                let k = choose|k: int| 0 <= k < last.len() && last[k] == node;
                assert(whole[preorder_all(front).len() + k] == node);
            }
        }
    }
}

/// The nodes of a node of `tree` are nodes of `tree`.
pub proof fn lemma_nodes_nest(tree: Tree, inner: Tree, node: Tree)
    requires
        tree.preorder().contains(inner),
        inner.preorder().contains(node),
    ensures
        tree.preorder().contains(node),
    decreases tree,
{
    lemma_preorder_unfolds(tree);
    if inner != tree {
        let below = preorder_all(tree.children());
        let k = choose|k: int| 0 <= k < tree.preorder().len() && tree.preorder()[k] == inner;
        assert(below[k - 1] == inner);
        lemma_forest_nodes(tree.children(), inner);
        let i = choose|i: int|
            0 <= i < tree.children().len() && (#[trigger] tree.children()[i]).preorder().contains(
                inner,
            );
        lemma_nodes_nest(tree.children()[i], inner, node);
        lemma_forest_nodes(tree.children(), node);
        let m = choose|m: int| 0 <= m < below.len() && below[m] == node;
        assert(tree.preorder()[m + 1] == node);
    }
}

/// Where the body of some node of `tree` invokes `callee`, so does the body of
/// `tree`: a search that finds no invocation below a definition need not look at the
/// definitions nested in it.
pub proof fn lemma_body_invokes_inherited(tree: Tree, inner: Tree, callee: Seq<char>)
    requires
        tree.preorder().contains(inner),
        inner.body_invokes(callee),
    ensures
        tree.body_invokes(callee),
{
    lemma_preorder_unfolds(tree);
    lemma_preorder_unfolds(inner);
    let inner_below = preorder_all(inner.children());
    let k = choose|k: int| 0 <= k < inner_below.len() && #[trigger] inner_below[k].targets(callee);
    let hit = inner_below[k];
    assert(inner.preorder()[k + 1] == hit);
    lemma_nodes_nest(tree, inner, hit);
    let below = preorder_all(tree.children());
    let m = choose|m: int| 0 <= m < tree.preorder().len() && tree.preorder()[m] == hit;
    if m == 0 {
        // The invocation is the root itself, so `inner`, which holds it strictly
        // below itself, cannot be the root: it lies in some child, and so does `hit`.
        let j = choose|j: int| 0 <= j < tree.preorder().len() && tree.preorder()[j] == inner;
        lemma_tree_not_below_itself(inner, k);
        assert(inner != tree);
        assert(below[j - 1] == inner);
        lemma_forest_nodes(tree.children(), inner);
        let i = choose|i: int|
            0 <= i < tree.children().len() && (#[trigger] tree.children()[i]).preorder().contains(
                inner,
            );
        lemma_nodes_nest(tree.children()[i], inner, hit);
        lemma_forest_nodes(tree.children(), hit);
        let n = choose|n: int| 0 <= n < below.len() && below[n] == hit;
        assert(below[n].targets(callee));
    } else {
        assert(below[m - 1].targets(callee));
    }
}

/// No tree occurs strictly below itself.
pub proof fn lemma_tree_not_below_itself(tree: Tree, k: int)
    requires
        0 <= k < preorder_all(tree.children()).len(),
    ensures
        preorder_all(tree.children())[k] != tree,
{
    let below = preorder_all(tree.children());
    if below[k] == tree {
        assert(below.contains(tree));
        lemma_forest_nodes(tree.children(), tree);
        let i = choose|i: int|
            0 <= i < tree.children().len() && (#[trigger] tree.children()[i]).preorder().contains(
                tree,
            );
        lemma_nodes_are_smaller(tree.children()[i], tree);
        assert(decreases_to!(tree => tree.children()[i]));
    }
}

/// Every node of a tree is the tree itself or structurally smaller than it.
pub proof fn lemma_nodes_are_smaller(tree: Tree, node: Tree)
    requires
        tree.preorder().contains(node),
    ensures
        node == tree || decreases_to!(tree => node),
    decreases tree,
{
    lemma_preorder_unfolds(tree);
    if node != tree {
        let below = preorder_all(tree.children());
        let k = choose|k: int| 0 <= k < tree.preorder().len() && tree.preorder()[k] == node;
        assert(below[k - 1] == node);
        lemma_forest_nodes(tree.children(), node);
        let i = choose|i: int|
            0 <= i < tree.children().len() && (#[trigger] tree.children()[i]).preorder().contains(
                node,
            );
        lemma_nodes_are_smaller(tree.children()[i], node);
        assert(decreases_to!(tree => tree.children()[i]));
    }
}

} // verus!
