//! The callee matcher: does a tree hold an invocation of a given name?

use crate::syntax::{
    any_targets, lemma_any_targets_concat, lemma_invokes_unfolds, lemma_preorder_all_push,
    preorder_all, views, SyntaxNode, Tree,
};
use crate::text::contains;
use vstd::prelude::*;

verus! {

/// A walk that records whether it has come across an invocation whose target contains
/// `callee_fn_name`.  Matching is by substring and case-sensitive: `bar` matches a call
/// of `foo_bar_call`.  The flag is only ever raised, and says nothing of how many
/// invocations matched.
pub struct FindCallee<'a> {
    pub found: bool,
    pub callee_fn_name: &'a str,
}

/// Model of a [`FindCallee`].
pub struct FindCalleeView {
    pub found: bool,
    pub callee_fn_name: Seq<char>,
}

impl FindCalleeView {
    /// The state after `nodes` have been looked at: the flag is up if it was up
    /// before or if one of the nodes is an invocation that targets the name.
    pub open spec fn scan(self, nodes: Seq<Tree>) -> FindCalleeView {
        FindCalleeView { found: self.found || any_targets(nodes, self.callee_fn_name), ..self }
    }
}

impl<'a> View for FindCallee<'a> {
    type V = FindCalleeView;

    open spec fn view(&self) -> FindCalleeView {
        FindCalleeView { found: self.found, callee_fn_name: self.callee_fn_name@ }
    }
}

impl<'a> FindCallee<'a> {
    /// Walks `node` and everything below it.
    pub fn visit(&mut self, node: &SyntaxNode)
        ensures
            final(self)@ == old(self)@.scan(node@.preorder()),
        decreases node, 0int,
    {
        proof {
            lemma_invokes_unfolds(node@, self.callee_fn_name@);
        }
        match node {
            SyntaxNode::CallExpression { target, children } => {
                self.visit_expr_call(target.as_str(), children);
            },
            SyntaxNode::MethodCallExpression { method, children } => {
                self.visit_expr_method_call(method.as_str(), children);
            },
            SyntaxNode::FreeFunction { body, .. } => {
                self.visit_all(&body.children);
            },
            SyntaxNode::TypeMethod { body, .. } => {
                self.visit_all(&body.children);
            },
            SyntaxNode::TraitMethod { body, .. } => {
                match body {
                    Some(block) => {
                        self.visit_all(&block.children);
                    },
                    None => {
                        assert(!any_targets(preorder_all(Seq::<Tree>::empty()), self.callee_fn_name@));
                    },
                }
            },
            SyntaxNode::Container { children } => {
                self.visit_all(children);
            },
        }
    }

    /// Walks each of `nodes` in order.
    pub fn visit_all(&mut self, nodes: &Vec<SyntaxNode>)
        ensures
            final(self)@ == old(self)@.scan(preorder_all(views(*nodes))),
        decreases nodes, 0int,
    {
        let ghost before = self@;
        let ghost all = views(*nodes);
        let mut i: usize = 0;
        assert(preorder_all(all.take(0)) =~= Seq::<Tree>::empty());
        while i < nodes.len()
            invariant
                i <= nodes@.len(),
                all == views(*nodes),
                self@ == before.scan(preorder_all(all.take(i as int))),
            decreases nodes@.len() - i,
        {
            proof {
                lemma_preorder_all_push(all.take(i as int), all[i as int]);
                assert(all.take(i as int).push(all[i as int]) =~= all.take(i + 1));
                lemma_any_targets_concat(
                    preorder_all(all.take(i as int)),
                    all[i as int].preorder(),
                    before.callee_fn_name,
                );
            }
            self.visit(&nodes[i]);
            i += 1;
        }
        assert(all.take(i as int) =~= all);
    }

    /// At a call: a target that contains the name raises the flag and ends the walk
    /// of this call; otherwise the walk goes on below it.
    pub fn visit_expr_call(&mut self, target: &str, children: &Vec<SyntaxNode>)
        ensures
            final(self)@ == old(self)@.scan(
                (Tree::CallExpression { target: target@, children: views(*children) }).preorder(),
            ),
        decreases children, 1int,
    {
        proof {
            lemma_invokes_unfolds(
                Tree::CallExpression { target: target@, children: views(*children) },
                self.callee_fn_name@,
            );
        }
        if contains(target, self.callee_fn_name) {
            self.found = true;
        } else {
            self.visit_all(children);
        }
    }

    /// At a method call: the same test, on the method's name alone.
    pub fn visit_expr_method_call(&mut self, method: &str, children: &Vec<SyntaxNode>)
        ensures
            final(self)@ == old(self)@.scan(
                (Tree::MethodCallExpression {
                    method: method@,
                    children: views(*children),
                }).preorder(),
            ),
        decreases children, 1int,
    {
        proof {
            lemma_invokes_unfolds(
                Tree::MethodCallExpression { method: method@, children: views(*children) },
                self.callee_fn_name@,
            );
        }
        if contains(method, self.callee_fn_name) {
            self.found = true;
        } else {
            self.visit_all(children);
        }
    }
}

} // verus!
