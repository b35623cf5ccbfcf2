use quote::ToTokens;
use rem_utils::syntax::{Block, Declaration, SyntaxNode};
use rem_utils::{find_caller, FindCallee, FindFn};
use syn::visit::{self, Visit};
use syn::{Attribute, ExprCall, ExprMethodCall, ImplItemMethod, ItemFn, TraitItemMethod};

#[derive(Default)]
struct Gather {
    found: Vec<SyntaxNode>,
}

fn rendered<T: ToTokens>(node: &T) -> String {
    node.to_token_stream().to_string()
}

fn declaration(name: String, attrs: &[Attribute], signature: String) -> Declaration {
    Declaration { name, attributes: attrs.iter().map(rendered).collect(), signature }
}

fn block_of(block: &syn::Block) -> Block {
    let mut inside = Gather::default();
    inside.visit_block(block);
    Block { text: rendered(block), children: inside.found }
}

impl<'ast> Visit<'ast> for Gather {
    fn visit_item_fn(&mut self, i: &'ast ItemFn) {
        let mut signature = i.vis.to_token_stream();
        signature.extend(i.sig.to_token_stream());
        self.found.push(SyntaxNode::FreeFunction {
            declaration: declaration(i.sig.ident.to_string(), &i.attrs, signature.to_string()),
            body: block_of(&i.block),
        });
    }

    fn visit_impl_item_method(&mut self, i: &'ast ImplItemMethod) {
        let mut signature = i.vis.to_token_stream();
        signature.extend(i.defaultness.to_token_stream());
        signature.extend(i.sig.to_token_stream());
        self.found.push(SyntaxNode::TypeMethod {
            declaration: declaration(i.sig.ident.to_string(), &i.attrs, signature.to_string()),
            body: block_of(&i.block),
        });
    }

    fn visit_trait_item_method(&mut self, i: &'ast TraitItemMethod) {
        let mut signature = i.sig.to_token_stream();
        if i.default.is_none() {
            signature.extend(i.semi_token.to_token_stream());
        }
        self.found.push(SyntaxNode::TraitMethod {
            declaration: declaration(i.sig.ident.to_string(), &i.attrs, signature.to_string()),
            body: i.default.as_ref().map(block_of),
        });
    }

    fn visit_expr_call(&mut self, i: &'ast ExprCall) {
        let mut inside = Gather::default();
        visit::visit_expr_call(&mut inside, i);
        self.found.push(SyntaxNode::CallExpression {
            target: rendered(&i.func),
            children: inside.found,
        });
    }

    fn visit_expr_method_call(&mut self, i: &'ast ExprMethodCall) {
        let mut inside = Gather::default();
        visit::visit_expr_method_call(&mut inside, i);
        self.found.push(SyntaxNode::MethodCallExpression {
            method: i.method.to_string(),
            children: inside.found,
        });
    }
}

fn tree_of(source: &str) -> SyntaxNode {
    let file = syn::parse_file(source).unwrap();
    let mut top = Gather::default();
    top.visit_file(&file);
    SyntaxNode::Container { children: top.found }
}

fn item_text(source: &str) -> String {
    syn::parse_file(source).unwrap().into_token_stream().to_string()
}

const SOURCE: &str = r#"
#[inline]
pub fn foo(x: u32) -> u32 {
    bar(x) + 1
}

/// Adds one.
#[must_use]
fn bar(x: u32) -> u32 {
    x + 1
}

struct Counter { n: u32 }

impl Counter {
    #[allow(dead_code)]
    pub fn run(&mut self) -> u32 {
        let step = |k: u32| helper(k);
        self.n = step(self.n);
        self.check();
        self.n
    }

    fn check(&self) -> bool {
        self.n > 0
    }
}

trait Valid {
    fn validate(&self) -> bool {
        self.x() > 0
    }
    fn x(&self) -> i32;
}

fn helper(k: u32) -> u32 {
    fn nested(k: u32) -> u32 { k.saturating_add(1) }
    nested(k)
}
"#;

#[test]
fn parsed_caller_and_callee() {
    let tree = tree_of(SOURCE);
    let (found, caller, callee) = find_caller(&tree, "foo", "bar", false);
    assert!(found);
    assert_eq!(caller, item_text("#[inline] pub fn foo(x: u32) -> u32 { bar(x) + 1 }"));
    assert_eq!(callee, item_text("fn bar(x: u32) -> u32 { x + 1 }"));
    assert!(!callee.is_empty());
    let (found, _, body) = find_caller(&tree, "foo", "bar", true);
    assert!(found);
    assert_eq!(body, "{ x + 1 }");
}

#[test]
fn parsed_caller_is_rendered_as_the_parser_renders_it() {
    let source = "#[inline] #[doc = \"x\"] pub(crate) unsafe fn f<T: Clone>(t: &T) -> Vec<T> where T: Sized { g(t) }\nfn g() {}";
    let tree = tree_of(source);
    let (found, caller, _) = find_caller(&tree, "f", "g", false);
    assert!(found);
    let whole = item_text("#[inline] #[doc = \"x\"] pub(crate) unsafe fn f<T: Clone>(t: &T) -> Vec<T> where T: Sized { g(t) }");
    assert_eq!(caller, whole);
}

#[test]
fn parsed_method_calls_and_closures() {
    let tree = tree_of(SOURCE);
    let (found, caller, callee) = find_caller(&tree, "run", "helper", true);
    assert!(found);
    assert!(caller.starts_with("# [allow (dead_code)] pub fn run (& mut self) -> u32 {"));
    assert_eq!(callee, "{ fn nested (k : u32) -> u32 { k . saturating_add (1) } nested (k) }");
    let (found, _, callee) = find_caller(&tree, "run", "check", false);
    assert!(found);
    assert_eq!(callee, "fn check (& self) -> bool { self . n > 0 }");
}

#[test]
fn parsed_absent_names() {
    let tree = tree_of(SOURCE);
    assert_eq!(find_caller(&tree, "foo", "helper", false), (false, String::new(), String::new()));
    assert_eq!(find_caller(&tree, "missing", "bar", false), (false, String::new(), String::new()));
    assert_eq!(find_caller(&tree, "bar", "absent", false), (false, String::new(), String::new()));
    // `validate` calls `x`, which is declared without a body
    let (found, _, callee) = find_caller(&tree, "validate", "x", false);
    assert!(found);
    assert_eq!(callee, "fn x (& self) -> i32 ;");
}

#[test]
fn parsed_trait_method_body_only_is_the_empty_block() {
    let tree = tree_of("trait Valid { fn validate(&self) -> bool { x > 0 } }");
    let mut finder = FindFn::new("validate", true);
    finder.visit(&tree);
    assert!(finder.found());
    assert_eq!(finder.fn_txt(), "{}");
    let mut finder = FindFn::new("validate", false);
    finder.visit(&tree);
    assert_eq!(finder.fn_txt(), "fn validate (& self) -> bool { x > 0 }");
}

#[test]
fn parsed_definition_without_attributes() {
    let tree = tree_of(SOURCE);
    let mut finder = FindFn::new("bar", false);
    finder.visit(&tree);
    assert!(finder.found());
    assert_eq!(finder.fn_txt(), &item_text("fn bar(x: u32) -> u32 { x + 1 }"));
    let mut finder = FindFn::new("nested", true);
    finder.visit(&tree);
    assert_eq!(finder.fn_txt(), "{ k . saturating_add (1) }");
}

#[test]
fn parsed_substring_match() {
    let tree = tree_of("fn run() { foo_bar_call(x); }");
    let mut finder = FindCallee { found: false, callee_fn_name: "bar" };
    finder.visit(&tree);
    assert!(finder.found);
    let tree = tree_of("fn run() { helper(1); helper(2); }");
    let mut finder = FindCallee { found: false, callee_fn_name: "helper" };
    finder.visit(&tree);
    assert!(finder.found);
    let tree = tree_of("fn run() { a.b(c::d(e)); }");
    for (name, expected) in [("b", true), ("c :: d", true), ("d", true), ("a", false), ("e", false)] {
        let mut finder = FindCallee { found: false, callee_fn_name: name };
        finder.visit(&tree);
        assert_eq!(finder.found, expected, "{}", name);
    }
}
