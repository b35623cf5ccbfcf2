//! The definition finder: the first definition of a name, and its text.

use crate::syntax::{
    defining, empty_block, first_where, lemma_first_where_concat, lemma_first_where_single,
    lemma_preorder_all_push,
    lemma_preorder_unfolds, preorder_all, views, Block, Declaration, SyntaxNode, Tree,
};
use crate::text::same_text;
use vstd::prelude::*;
use vstd::string::*;

verus! {

/// A walk that looks for the first definition, in document order, whose name equals
/// `fn_name`, and keeps its text without attributes.  Once a definition is found, the
/// rest of the walk changes nothing.
pub struct FindFn<'a> {
    fn_name: &'a str,
    found: bool,
    fn_txt: String,
    body_only: bool,
}

/// Model of a [`FindFn`].
pub struct FindFnView {
    pub fn_name: Seq<char>,
    pub found: bool,
    pub fn_txt: Seq<char>,
    pub body_only: bool,
}

impl FindFnView {
    /// The state after `nodes` have been looked at in order.
    pub open spec fn scan(self, nodes: Seq<Tree>) -> FindFnView {
        if self.found {
            self
        } else {
            match first_where(nodes, defining(self.fn_name)) {
                Some(definition) => FindFnView {
                    found: true,
                    fn_txt: definition.captured_text(self.body_only),
                    ..self
                },
                None => self,
            }
        }
    }
}

/// Looking at a sequence is looking at its front and then at its back.
pub proof fn lemma_scan_concat(state: FindFnView, front: Seq<Tree>, back: Seq<Tree>)
    ensures
        state.scan(front + back) == state.scan(front).scan(back),
{
    lemma_first_where_concat(front, back, defining(state.fn_name));
}

impl<'a> View for FindFn<'a> {
    type V = FindFnView;

    closed spec fn view(&self) -> FindFnView {
        FindFnView {
            fn_name: self.fn_name@,
            found: self.found,
            fn_txt: self.fn_txt@,
            body_only: self.body_only,
        }
    }
}

impl<'a> FindFn<'a> {
    /// A search for `fn_name` that has found nothing yet.
    pub fn new(fn_name: &'a str, body_only: bool) -> (finder: Self)
        ensures
            finder@ == (FindFnView {
                fn_name: fn_name@,
                found: false,
                fn_txt: Seq::empty(),
                body_only,
            }),
    {
        FindFn { fn_name, found: false, fn_txt: String::new(), body_only }
    }

    /// Whether a definition has been found.
    pub fn found(&self) -> (found: bool)
        ensures
            found == self@.found,
    {
        self.found
    }

    /// The text of the definition found; empty while none has been.
    pub fn fn_txt(&self) -> (text: &String)
        ensures
            text@ == self@.fn_txt,
    {
        &self.fn_txt
    }

    /// Walks `node` and everything below it.
    pub fn visit(&mut self, node: &SyntaxNode)
        ensures
            final(self)@ == old(self)@.scan(node@.preorder()),
        decreases node, 0int,
    {
        match node {
            SyntaxNode::FreeFunction { declaration, body } => {
                self.visit_item_fn(declaration, body);
            },
            SyntaxNode::TypeMethod { declaration, body } => {
                self.visit_impl_item_method(declaration, body);
            },
            SyntaxNode::TraitMethod { declaration, body } => {
                self.visit_trait_item_method(declaration, body);
            },
            SyntaxNode::CallExpression { children, .. } => {
                proof {
                    self.lemma_passes_over(node@);
                }
                self.visit_all(children);
            },
            SyntaxNode::MethodCallExpression { children, .. } => {
                proof {
                    self.lemma_passes_over(node@);
                }
                self.visit_all(children);
            },
            SyntaxNode::Container { children } => {
                proof {
                    self.lemma_passes_over(node@);
                }
                self.visit_all(children);
            },
        }
    }

    /// Walks each of `nodes` in order.
    pub fn visit_all(&mut self, nodes: &Vec<SyntaxNode>)
        ensures
            final(self)@ == old(self)@.scan(preorder_all(views(*nodes))),
        decreases nodes, 0int,
    {
        let ghost before = self@;
        let ghost all = views(*nodes);
        let mut i: usize = 0;
        assert(preorder_all(all.take(0)) =~= Seq::<Tree>::empty());
        while i < nodes.len()
            invariant
                i <= nodes@.len(),
                all == views(*nodes),
                self@ == before.scan(preorder_all(all.take(i as int))),
            decreases nodes@.len() - i,
        {
            proof {
                lemma_preorder_all_push(all.take(i as int), all[i as int]);
                assert(all.take(i as int).push(all[i as int]) =~= all.take(i + 1));
                lemma_scan_concat(before, preorder_all(all.take(i as int)), all[i as int].preorder());
            }
            self.visit(&nodes[i]);
            i += 1;
        }
        assert(all.take(i as int) =~= all);
    }

    /// At a free function.
    pub fn visit_item_fn(&mut self, declaration: &Declaration, body: &Block)
        ensures
            final(self)@ == old(self)@.scan(
                (Tree::FreeFunction { declaration: declaration@, body: body@ }).preorder(),
            ),
        decreases body, 1int,
    {
        let ghost node = Tree::FreeFunction { declaration: declaration@, body: body@ };
        if self.found {
            return ;
        }
        if same_text(declaration.name.as_str(), self.fn_name) {
            proof {
                self.lemma_stops_at(node);
            }
            self.found = true;
            if self.body_only {
                self.fn_txt = body.text.clone();
            } else {
                self.fn_txt = declaration.bare_text(Some(body));
            }
        } else {
            proof {
                self.lemma_passes_over(node);
            }
            self.visit_all(&body.children);
        }
    }

    /// At a method of a type.
    pub fn visit_impl_item_method(&mut self, declaration: &Declaration, body: &Block)
        ensures
            final(self)@ == old(self)@.scan(
                (Tree::TypeMethod { declaration: declaration@, body: body@ }).preorder(),
            ),
        decreases body, 1int,
    {
        let ghost node = Tree::TypeMethod { declaration: declaration@, body: body@ };
        if self.found {
            return ;
        }
        if same_text(declaration.name.as_str(), self.fn_name) {
            proof {
                self.lemma_stops_at(node);
            }
            self.found = true;
            if self.body_only {
                self.fn_txt = body.text.clone();
            } else {
                self.fn_txt = declaration.bare_text(Some(body));
            }
        } else {
            proof {
                self.lemma_passes_over(node);
            }
            self.visit_all(&body.children);
        }
    }

    /// At a method of a trait.  With `body_only` the text kept is the empty block,
    /// also where the method has a default body.
    pub fn visit_trait_item_method(&mut self, declaration: &Declaration, body: &Option<Block>)
        ensures
            final(self)@ == old(self)@.scan(
                (Tree::TraitMethod {
                    declaration: declaration@,
                    body: match body {
                        Some(block) => Some(block@),
                        None => None,
                    },
                }).preorder(),
            ),
        decreases body, 1int,
    {
        let ghost node = Tree::TraitMethod {
            declaration: declaration@,
            body: match body {
                Some(block) => Some(block@),
                None => None,
            },
        };
        if self.found {
            return ;
        }
        if same_text(declaration.name.as_str(), self.fn_name) {
            proof {
                self.lemma_stops_at(node);
            }
            self.found = true;
            if self.body_only {
                proof {
                    reveal_strlit("{}");
                }
                self.fn_txt = String::from_str("{}");
                assert(self.fn_txt@ =~= empty_block());
            } else {
                self.fn_txt = declaration.bare_text(body.as_ref());
            }
        } else {
            proof {
                self.lemma_passes_over(node);
            }
            match body {
                Some(block) => {
                    self.visit_all(&block.children);
                },
                None => {
                    assert(preorder_all(node.children()) =~= Seq::<Tree>::empty());
                },
            }
        }
    }

    /// A search that has found nothing stops at a node that defines the name.
    proof fn lemma_stops_at(&self, node: Tree)
        requires
            node.defines(self@.fn_name),
        ensures
            first_where(node.preorder(), defining(self@.fn_name)) == Some(node),
    {
        lemma_preorder_unfolds(node);
        lemma_first_where_concat(seq![node], preorder_all(node.children()), defining(self@.fn_name));
        lemma_first_where_single(node, defining(self@.fn_name));
    }

    /// A search goes past a node that does not define the name, to what is below it.
    proof fn lemma_passes_over(&self, node: Tree)
        requires
            !node.defines(self@.fn_name),
        ensures
            self@.scan(node.preorder()) == self@.scan(preorder_all(node.children())),
    {
        lemma_preorder_unfolds(node);
        lemma_first_where_concat(seq![node], preorder_all(node.children()), defining(self@.fn_name));
        lemma_first_where_single(node, defining(self@.fn_name));
    }
}

/// A search that starts with nothing finds a definition exactly where the nodes
/// hold one of that name, and extracts no text where it finds none.
pub proof fn lemma_found_or_empty(fn_name: Seq<char>, body_only: bool, nodes: Seq<Tree>)
    ensures
        ({
            let end = (FindFnView { fn_name, found: false, fn_txt: Seq::empty(), body_only }).scan(
                nodes,
            );
            &&& end.found == exists|k: int|
                0 <= k < nodes.len() && (#[trigger] nodes[k]).defines(fn_name)
            &&& !end.found ==> end.fn_txt == Seq::<char>::empty()
        }),
{
    crate::syntax::lemma_first_where_is_first(nodes, defining(fn_name));
}

/// Searching twice is searching once: a second walk over the same nodes leaves the
/// state of the first, and with it the extracted text, as it is.
pub proof fn lemma_find_fn_is_idempotent(state: FindFnView, nodes: Seq<Tree>)
    ensures
        state.scan(nodes).scan(nodes) == state.scan(nodes),
{
}

} // verus!
