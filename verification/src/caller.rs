//! The caller locator: a definition of one name whose body invokes another, and the
//! texts of both.

use crate::callee::FindCallee;
use crate::finder::FindFn;
use crate::syntax::{
    calling, defining, first_where, lemma_body_invokes_inherited, lemma_first_where_concat,
    lemma_first_where_is_first, lemma_first_where_single, lemma_invokes_unfolds,
    lemma_preorder_all_push, lemma_preorder_unfolds, preorder_all, views, Block, Declaration,
    SyntaxNode, Tree,
};
use crate::text::same_text;
use vstd::prelude::*;

verus! {

/// A walk that looks for the first definition, in document order, that is named
/// `caller_fn_name` and whose body holds an invocation matched by the callee finder.
/// It keeps that definition's text as it stands, attributes included.  A definition of
/// the right name without such an invocation is passed by, together with whatever
/// is nested in it; the walk goes on with what follows.
pub struct FindCaller<'a> {
    caller_fn_name: &'a str,
    callee_finder: FindCallee<'a>,
    found: bool,
    caller: String,
}

/// Model of a [`FindCaller`].
pub struct FindCallerView {
    pub caller_fn_name: Seq<char>,
    pub callee_fn_name: Seq<char>,
    pub found: bool,
    pub caller: Seq<char>,
}

impl FindCallerView {
    /// The state after `nodes` have been looked at in order.
    pub open spec fn scan(self, nodes: Seq<Tree>) -> FindCallerView {
        if self.found {
            self
        } else {
            match first_where(nodes, calling(self.caller_fn_name, self.callee_fn_name)) {
                Some(definition) => FindCallerView {
                    found: true,
                    caller: definition.full_text(),
                    ..self
                },
                None => self,
            }
        }
    }
}

/// Looking at a sequence is looking at its front and then at its back.
pub proof fn lemma_scan_concat(state: FindCallerView, front: Seq<Tree>, back: Seq<Tree>)
    ensures
        state.scan(front + back) == state.scan(front).scan(back),
{
    lemma_first_where_concat(front, back, calling(state.caller_fn_name, state.callee_fn_name));
}

impl<'a> View for FindCaller<'a> {
    type V = FindCallerView;

    closed spec fn view(&self) -> FindCallerView {
        FindCallerView {
            caller_fn_name: self.caller_fn_name@,
            callee_fn_name: self.callee_finder.callee_fn_name@,
            found: self.found,
            caller: self.caller@,
        }
    }
}

impl<'a> FindCaller<'a> {
    /// A search that has found nothing yet.
    pub fn new(caller_fn_name: &'a str, callee_fn_name: &'a str) -> (locator: Self)
        ensures
            locator@ == (FindCallerView {
                caller_fn_name: caller_fn_name@,
                callee_fn_name: callee_fn_name@,
                found: false,
                caller: Seq::empty(),
            }),
    {
        FindCaller {
            caller_fn_name,
            callee_finder: FindCallee { found: false, callee_fn_name },
            found: false,
            caller: String::new(),
        }
    }

    /// Whether a caller has been found.
    pub fn found(&self) -> (found: bool)
        ensures
            found == self@.found,
    {
        self.found
    }

    /// The text of the caller found; empty while none has been.
    pub fn caller(&self) -> (text: &String)
        ensures
            text@ == self@.caller,
    {
        &self.caller
    }

    /// Walks `node` and everything below it.
    pub fn visit(&mut self, node: &SyntaxNode)
        ensures
            final(self)@ == old(self)@.scan(node@.preorder()),
        decreases node, 0int,
    {
        match node {
            SyntaxNode::FreeFunction { declaration, body } => {
                self.visit_item_fn(declaration, body);
            },
            SyntaxNode::TypeMethod { declaration, body } => {
                self.visit_impl_item_method(declaration, body);
            },
            SyntaxNode::TraitMethod { declaration, body } => {
                self.visit_trait_item_method(declaration, body);
            },
            SyntaxNode::CallExpression { children, .. } => {
                proof {
                    self.lemma_passes_over(node@);
                }
                self.visit_all(children);
            },
            SyntaxNode::MethodCallExpression { children, .. } => {
                proof {
                    self.lemma_passes_over(node@);
                }
                self.visit_all(children);
            },
            SyntaxNode::Container { children } => {
                proof {
                    self.lemma_passes_over(node@);
                }
                self.visit_all(children);
            },
        }
    }

    /// Walks each of `nodes` in order.
    pub fn visit_all(&mut self, nodes: &Vec<SyntaxNode>)
        ensures
            final(self)@ == old(self)@.scan(preorder_all(views(*nodes))),
        decreases nodes, 0int,
    {
        let ghost before = self@;
        let ghost all = views(*nodes);
        let mut i: usize = 0;
        assert(preorder_all(all.take(0)) =~= Seq::<Tree>::empty());
        while i < nodes.len()
            invariant
                i <= nodes@.len(),
                all == views(*nodes),
                self@ == before.scan(preorder_all(all.take(i as int))),
            decreases nodes@.len() - i,
        {
            proof {
                lemma_preorder_all_push(all.take(i as int), all[i as int]);
                assert(all.take(i as int).push(all[i as int]) =~= all.take(i + 1));
                lemma_scan_concat(before, preorder_all(all.take(i as int)), all[i as int].preorder());
            }
            self.visit(&nodes[i]);
            i += 1;
        }
        assert(all.take(i as int) =~= all);
    }

    /// At a free function.
    pub fn visit_item_fn(&mut self, declaration: &Declaration, body: &Block)
        ensures
            final(self)@ == old(self)@.scan(
                (Tree::FreeFunction { declaration: declaration@, body: body@ }).preorder(),
            ),
        decreases body, 1int,
    {
        let ghost node = Tree::FreeFunction { declaration: declaration@, body: body@ };
        if self.found {
            return ;
        }
        if same_text(declaration.name.as_str(), self.caller_fn_name) {
            let mut matcher = FindCallee {
                found: false,
                callee_fn_name: self.callee_finder.callee_fn_name,
            };
            matcher.visit_all(&body.children);
            if !matcher.found {
                proof {
                    self.lemma_passes_by(node);
                }
                return ;
            }
            proof {
                self.lemma_stops_at(node);
            }
            self.callee_finder = matcher;
            self.found = true;
            self.caller = declaration.full_text(Some(body));
        } else {
            proof {
                self.lemma_passes_over(node);
            }
            self.visit_all(&body.children);
        }
    }

    /// At a method of a type.
    pub fn visit_impl_item_method(&mut self, declaration: &Declaration, body: &Block)
        ensures
            final(self)@ == old(self)@.scan(
                (Tree::TypeMethod { declaration: declaration@, body: body@ }).preorder(),
            ),
        decreases body, 1int,
    {
        let ghost node = Tree::TypeMethod { declaration: declaration@, body: body@ };
        if self.found {
            return ;
        }
        if same_text(declaration.name.as_str(), self.caller_fn_name) {
            let mut matcher = FindCallee {
                found: false,
                callee_fn_name: self.callee_finder.callee_fn_name,
            };
            matcher.visit_all(&body.children);
            if !matcher.found {
                proof {
                    self.lemma_passes_by(node);
                }
                return ;
            }
            proof {
                self.lemma_stops_at(node);
            }
            self.callee_finder = matcher;
            self.found = true;
            self.caller = declaration.full_text(Some(body));
        } else {
            proof {
                self.lemma_passes_over(node);
            }
            self.visit_all(&body.children);
        }
    }

    /// At a method of a trait.  One without a default body invokes nothing.
    pub fn visit_trait_item_method(&mut self, declaration: &Declaration, body: &Option<Block>)
        ensures
            final(self)@ == old(self)@.scan(
                (Tree::TraitMethod {
                    declaration: declaration@,
                    body: match body {
                        Some(block) => Some(block@),
                        None => None,
                    },
                }).preorder(),
            ),
        decreases body, 1int,
    {
        let ghost node = Tree::TraitMethod {
            declaration: declaration@,
            body: match body {
                Some(block) => Some(block@),
                None => None,
            },
        };
        if self.found {
            return ;
        }
        if same_text(declaration.name.as_str(), self.caller_fn_name) {
            let mut matcher = FindCallee {
                found: false,
                callee_fn_name: self.callee_finder.callee_fn_name,
            };
            match body {
                Some(block) => {
                    matcher.visit_all(&block.children);
                },
                None => {
                    assert(preorder_all(node.children()) =~= Seq::<Tree>::empty());
                },
            }
            if !matcher.found {
                proof {
                    self.lemma_passes_by(node);
                }
                return ;
            }
            proof {
                self.lemma_stops_at(node);
            }
            self.callee_finder = matcher;
            self.found = true;
            self.caller = declaration.full_text(body.as_ref());
        } else {
            proof {
                self.lemma_passes_over(node);
            }
            match body {
                Some(block) => {
                    self.visit_all(&block.children);
                },
                None => {
                    assert(preorder_all(node.children()) =~= Seq::<Tree>::empty());
                },
            }
        }
    }

    /// A search that has found nothing stops at a definition of the caller's name
    /// whose body invokes the callee.
    proof fn lemma_stops_at(&self, node: Tree)
        requires
            node.calls(self@.caller_fn_name, self@.callee_fn_name),
        ensures
            first_where(node.preorder(), calling(self@.caller_fn_name, self@.callee_fn_name))
                == Some(node),
    {
        let wanted = calling(self@.caller_fn_name, self@.callee_fn_name);
        lemma_preorder_unfolds(node);
        lemma_first_where_concat(seq![node], preorder_all(node.children()), wanted);
        lemma_first_where_single(node, wanted);
    }

    /// A search goes past a node that is no definition of the caller's name, to what
    /// is below it.
    proof fn lemma_passes_over(&self, node: Tree)
        requires
            !node.defines(self@.caller_fn_name),
        ensures
            self@.scan(node.preorder()) == self@.scan(preorder_all(node.children())),
    {
        let wanted = calling(self@.caller_fn_name, self@.callee_fn_name);
        lemma_preorder_unfolds(node);
        lemma_first_where_concat(seq![node], preorder_all(node.children()), wanted);
        lemma_first_where_single(node, wanted);
    }

    /// Nothing is missed by leaving a node whose body does not invoke the callee:
    /// no definition nested in it can invoke the callee either.
    proof fn lemma_passes_by(&self, node: Tree)
        requires
            !node.body_invokes(self@.callee_fn_name),
        ensures
            first_where(node.preorder(), calling(self@.caller_fn_name, self@.callee_fn_name))
                is None,
    {
        let wanted = calling(self@.caller_fn_name, self@.callee_fn_name);
        lemma_first_where_is_first(node.preorder(), wanted);
        if let Some(inner) = first_where(node.preorder(), wanted) {
            assert(node.preorder().contains(inner));
            lemma_body_invokes_inherited(node, inner, self@.callee_fn_name);
        }
    }
}

/// What a search of `tree` for a caller and its callee reports: whether both were
/// found, the caller's text as it stands, and the callee's text without attributes
/// (its body alone with `body_only`).  Unless both were found, both texts are empty.
pub open spec fn located(tree: Tree, caller: Seq<char>, callee: Seq<char>, body_only: bool) -> (
    bool,
    Seq<char>,
    Seq<char>,
) {
    match (tree.first_caller(caller, callee), tree.first_definition(callee)) {
        (Some(calling), Some(called)) => (
            true,
            calling.full_text(),
            called.captured_text(body_only),
        ),
        _ => (false, Seq::empty(), Seq::empty()),
    }
}

/// Finds in `tree` the first definition named `caller_name` whose body invokes
/// `callee_name`, and the first definition named `callee_name`.
pub fn find_caller(
    tree: &SyntaxNode,
    caller_name: &str,
    callee_name: &str,
    callee_body_only: bool,
) -> (result: (bool, String, String))
    ensures
        (result.0, result.1@, result.2@) == located(
            tree@,
            caller_name@,
            callee_name@,
            callee_body_only,
        ),
{
    let mut visit = FindCaller::new(caller_name, callee_name);
    visit.visit(tree);
    if !visit.found() {
        return (false, String::new(), String::new());
    }
    let mut callee = FindFn::new(callee_name, callee_body_only);
    callee.visit(tree);
    if !callee.found() {
        return (false, String::new(), String::new());
    }
    (true, visit.caller().clone(), callee.fn_txt().clone())
}


/// Where no definition named `caller` has an invocation of `callee` in its body, the
/// search for the caller reports nothing.  This covers a tree whose only definition of
/// that name holds no matching invocation, for any callee.
pub proof fn lemma_caller_without_invocation_is_not_found(
    tree: Tree,
    caller: Seq<char>,
    callee: Seq<char>,
    body_only: bool,
)
    requires
        forall|k: int|
            0 <= k < tree.preorder().len() && (#[trigger] tree.preorder()[k]).defines(caller)
                ==> !tree.preorder()[k].body_invokes(callee),
    ensures
        located(tree, caller, callee, body_only) == (false, Seq::<char>::empty(), Seq::<char>::empty()),
{
    lemma_first_where_is_first(tree.preorder(), calling(caller, callee));
}

/// Where the tree invokes `callee` nowhere, the search reports nothing, whatever the
/// caller's name.
pub proof fn lemma_absent_callee_is_not_found(
    tree: Tree,
    caller: Seq<char>,
    callee: Seq<char>,
    body_only: bool,
)
    requires
        !tree.invokes(callee),
    ensures
        located(tree, caller, callee, body_only) == (false, Seq::<char>::empty(), Seq::<char>::empty()),
{
    assert forall|k: int|
        0 <= k < tree.preorder().len() && (#[trigger] tree.preorder()[k]).defines(
            caller,
        ) implies !tree.preorder()[k].body_invokes(callee) by {
        let inner = tree.preorder()[k];
        if inner.body_invokes(callee) {
            assert(tree.preorder().contains(inner));
            lemma_body_invokes_inherited(tree, inner, callee);
            lemma_invokes_unfolds(tree, callee);
        }
    }
    lemma_caller_without_invocation_is_not_found(tree, caller, callee, body_only);
}

/// Where the tree holds no definition named `callee`, the search reports nothing, even
/// if a caller invokes that name: a call site without the callee's definition does
/// not count as found.
pub proof fn lemma_undefined_callee_is_not_found(
    tree: Tree,
    caller: Seq<char>,
    callee: Seq<char>,
    body_only: bool,
)
    requires
        forall|k: int| 0 <= k < tree.preorder().len() ==> !(#[trigger] tree.preorder()[k]).defines(callee),
    ensures
        located(tree, caller, callee, body_only) == (false, Seq::<char>::empty(), Seq::<char>::empty()),
{
    lemma_first_where_is_first(tree.preorder(), defining(callee));
}

/// Where some definition named `caller` invokes `callee` in its body and some
/// definition is named `callee`, the search reports both as found.  Asked for the whole
/// callee, it gives the first such definition without attributes, which in a
/// well-formed tree is not empty.
pub proof fn lemma_caller_of_defined_callee_is_found(
    tree: Tree,
    caller: Seq<char>,
    callee: Seq<char>,
    body_only: bool,
)
    requires
        exists|k: int| 0 <= k < tree.preorder().len() && (#[trigger] tree.preorder()[k]).calls(caller, callee),
        exists|k: int| 0 <= k < tree.preorder().len() && (#[trigger] tree.preorder()[k]).defines(callee),
    ensures
        located(tree, caller, callee, body_only).0,
        tree.first_caller(caller, callee) is Some,
        tree.first_definition(callee) is Some,
        located(tree, caller, callee, body_only).1 == tree.first_caller(caller, callee).unwrap().full_text(),
        located(tree, caller, callee, body_only).2 == tree.first_definition(callee).unwrap().captured_text(body_only),
        tree.well_formed() ==> located(tree, caller, callee, false).2.len() > 0,
{
    lemma_first_where_is_first(tree.preorder(), calling(caller, callee));
    lemma_first_where_is_first(tree.preorder(), defining(callee));
}

} // verus!
