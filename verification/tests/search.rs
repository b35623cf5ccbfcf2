use rem_utils::syntax::{Block, Declaration, SyntaxNode};
use rem_utils::{find_caller, FindCallee, FindCaller, FindFn};

fn declaration(name: &str, attributes: &[&str], signature: &str) -> Declaration {
    Declaration {
        name: name.to_string(),
        attributes: attributes.iter().map(|a| a.to_string()).collect(),
        signature: signature.to_string(),
    }
}

fn block(text: &str, children: Vec<SyntaxNode>) -> Block {
    Block { text: text.to_string(), children }
}

fn call(target: &str, children: Vec<SyntaxNode>) -> SyntaxNode {
    SyntaxNode::CallExpression { target: target.to_string(), children }
}

fn method_call(method: &str, children: Vec<SyntaxNode>) -> SyntaxNode {
    SyntaxNode::MethodCallExpression { method: method.to_string(), children }
}

fn container(children: Vec<SyntaxNode>) -> SyntaxNode {
    SyntaxNode::Container { children }
}

fn free_function(name: &str, attributes: &[&str], body: &str, children: Vec<SyntaxNode>) -> SyntaxNode {
    SyntaxNode::FreeFunction {
        declaration: declaration(name, attributes, &format!("fn {} ()", name)),
        body: block(body, children),
    }
}

fn type_method(name: &str, attributes: &[&str], body: &str, children: Vec<SyntaxNode>) -> SyntaxNode {
    SyntaxNode::TypeMethod {
        declaration: declaration(name, attributes, &format!("fn {} (& self)", name)),
        body: block(body, children),
    }
}

fn trait_method(name: &str, attributes: &[&str], body: Option<(&str, Vec<SyntaxNode>)>) -> SyntaxNode {
    match body {
        Some((text, children)) => SyntaxNode::TraitMethod {
            declaration: declaration(name, attributes, &format!("fn {} (& self) -> bool", name)),
            body: Some(block(text, children)),
        },
        None => SyntaxNode::TraitMethod {
            declaration: declaration(name, attributes, &format!("fn {} (& self) -> bool ;", name)),
            body: None,
        },
    }
}

fn callee_found(tree: &SyntaxNode, name: &str) -> bool {
    let mut finder = FindCallee { found: false, callee_fn_name: name };
    finder.visit(tree);
    finder.found
}

fn definition_found(tree: &SyntaxNode, name: &str, body_only: bool) -> (bool, String) {
    let mut finder = FindFn::new(name, body_only);
    finder.visit(tree);
    (finder.found(), finder.fn_txt().clone())
}

fn caller_found(tree: &SyntaxNode, caller: &str, callee: &str) -> (bool, String) {
    let mut locator = FindCaller::new(caller, callee);
    locator.visit(tree);
    (locator.found(), locator.caller().clone())
}

// fn foo () { bar (x) } ; fn bar () { x + 1 }
fn foo_calls_bar() -> SyntaxNode {
    container(vec![
        free_function("foo", &["# [inline]"], "{ bar (x) }", vec![call("bar", vec![])]),
        free_function("bar", &["# [must_use]"], "{ x + 1 }", vec![]),
    ])
}

#[test]
fn callee_matches_by_substring() {
    let tree = call("foo_bar_call", vec![]);
    assert!(callee_found(&tree, "bar"));
    assert!(callee_found(&tree, "bar_call"));
    assert!(callee_found(&tree, "foo_bar_call"));
    assert!(!callee_found(&tree, "baz"));
}

#[test]
fn callee_match_is_case_sensitive() {
    let tree = call("Helper", vec![]);
    assert!(callee_found(&tree, "Help"));
    assert!(!callee_found(&tree, "help"));
}

#[test]
fn callee_matches_qualified_target() {
    let tree = call("module :: helper", vec![]);
    assert!(callee_found(&tree, "helper"));
    assert!(callee_found(&tree, "module"));
}

#[test]
fn callee_in_method_call_goes_by_method_name() {
    // receiver . push (helper_value): the receiver is no part of the name
    let tree = method_call("push", vec![container(vec![])]);
    assert!(callee_found(&tree, "push"));
    assert!(callee_found(&tree, "us"));
    assert!(!callee_found(&tree, "receiver"));
}

#[test]
fn callee_is_found_below_a_call_that_does_not_match() {
    let tree = call("outer", vec![call("inner", vec![])]);
    assert!(callee_found(&tree, "inner"));
    let tree = method_call("map", vec![container(vec![call("inner", vec![])])]);
    assert!(callee_found(&tree, "inner"));
}

#[test]
fn callee_is_found_after_a_call_that_matches() {
    let tree = container(vec![call("first", vec![]), call("second", vec![])]);
    assert!(callee_found(&tree, "first"));
    assert!(callee_found(&tree, "second"));
}

#[test]
fn callee_twice_is_one_flag() {
    let tree = free_function(
        "run",
        &[],
        "{ helper () ; helper () ; }",
        vec![call("helper", vec![]), call("helper", vec![])],
    );
    assert!(callee_found(&tree, "helper"));
}

#[test]
fn callee_flag_is_never_lowered() {
    let mut finder = FindCallee { found: true, callee_fn_name: "absent" };
    finder.visit(&call("present", vec![]));
    assert!(finder.found);
    assert_eq!(finder.callee_fn_name, "absent");
}

#[test]
fn callee_is_not_found_in_names_of_definitions() {
    let tree = free_function("helper", &[], "{ }", vec![]);
    assert!(!callee_found(&tree, "helper"));
}

#[test]
fn callee_empty_name_matches_any_invocation() {
    assert!(callee_found(&call("x", vec![]), ""));
    assert!(!callee_found(&container(vec![]), ""));
}

#[test]
fn callee_visit_expr_call_and_method_call() {
    let mut finder = FindCallee { found: false, callee_fn_name: "bar" };
    finder.visit_expr_call("foo", &vec![]);
    assert!(!finder.found);
    finder.visit_expr_method_call("rebar", &vec![]);
    assert!(finder.found);
    let mut finder = FindCallee { found: false, callee_fn_name: "bar" };
    finder.visit_all(&vec![call("a", vec![]), call("bar", vec![])]);
    assert!(finder.found);
}

#[test]
fn finder_takes_the_first_definition_in_document_order() {
    let tree = container(vec![
        type_method("get", &[], "{ 1 }", vec![]),
        free_function("get", &[], "{ 2 }", vec![]),
    ]);
    assert_eq!(definition_found(&tree, "get", false), (true, "fn get (& self) { 1 }".to_string()));
    assert_eq!(definition_found(&tree, "get", true), (true, "{ 1 }".to_string()));
}

#[test]
fn finder_matches_names_exactly() {
    let tree = free_function("bar_call", &[], "{ }", vec![]);
    assert_eq!(definition_found(&tree, "bar", false), (false, String::new()));
    assert_eq!(definition_found(&tree, "bar_call", false), (true, "fn bar_call () { }".to_string()));
}

#[test]
fn finder_strips_attributes() {
    let tree = free_function("f", &["# [inline]", "# [doc = \"x\"]"], "{ g () }", vec![]);
    assert_eq!(definition_found(&tree, "f", false), (true, "fn f () { g () }".to_string()));
    assert_eq!(definition_found(&tree, "f", true), (true, "{ g () }".to_string()));
}

#[test]
fn finder_reports_nothing_as_not_found_with_empty_text() {
    let tree = foo_calls_bar();
    assert_eq!(definition_found(&tree, "baz", false), (false, String::new()));
    assert_eq!(definition_found(&tree, "baz", true), (false, String::new()));
}

#[test]
fn finder_trait_method_body_only_is_the_empty_block() {
    // fn validate (& self) -> bool { x > 0 }
    let tree = trait_method("validate", &[], Some(("{ x > 0 }", vec![])));
    assert_eq!(definition_found(&tree, "validate", true), (true, "{}".to_string()));
    assert_eq!(
        definition_found(&tree, "validate", false),
        (true, "fn validate (& self) -> bool { x > 0 }".to_string())
    );
}

#[test]
fn finder_trait_method_without_body() {
    let tree = trait_method("validate", &["# [must_use]"], None);
    assert_eq!(definition_found(&tree, "validate", true), (true, "{}".to_string()));
    assert_eq!(
        definition_found(&tree, "validate", false),
        (true, "fn validate (& self) -> bool ;".to_string())
    );
}

#[test]
fn finder_looks_at_any_depth() {
    let nested = free_function("inner", &[], "{ 1 }", vec![]);
    let tree = container(vec![free_function(
        "outer",
        &[],
        "{ fn inner () { 1 } inner () }",
        vec![nested, call("inner", vec![])],
    )]);
    assert_eq!(definition_found(&tree, "inner", true), (true, "{ 1 }".to_string()));
    let in_method = type_method("m", &[], "{ }", vec![container(vec![free_function("deep", &[], "{ d }", vec![])])]);
    assert_eq!(definition_found(&in_method, "deep", true), (true, "{ d }".to_string()));
    let in_call = call("f", vec![container(vec![free_function("deep", &[], "{ d }", vec![])])]);
    assert_eq!(definition_found(&in_call, "deep", true), (true, "{ d }".to_string()));
}

#[test]
fn finder_outer_definition_comes_before_the_ones_nested_in_it() {
    let nested = free_function("same", &[], "{ inner }", vec![]);
    let tree = free_function("same", &[], "{ outer }", vec![nested]);
    assert_eq!(definition_found(&tree, "same", true), (true, "{ outer }".to_string()));
}

#[test]
fn finder_is_idempotent() {
    let tree = container(vec![
        free_function("f", &["# [a]"], "{ 1 }", vec![]),
        free_function("f", &[], "{ 2 }", vec![]),
    ]);
    let mut finder = FindFn::new("f", false);
    finder.visit(&tree);
    let first = finder.fn_txt().clone();
    finder.visit(&tree);
    assert!(finder.found());
    assert_eq!(finder.fn_txt(), &first);
    assert_eq!(definition_found(&tree, "f", false), definition_found(&tree, "f", false));
    assert_eq!(first, "fn f () { 1 }");
}

#[test]
fn finder_keeps_what_it_found() {
    let mut finder = FindFn::new("f", true);
    finder.visit(&free_function("f", &[], "{ first }", vec![]));
    finder.visit(&free_function("f", &[], "{ second }", vec![]));
    assert_eq!(finder.fn_txt(), "{ first }");
    finder.visit_item_fn(&declaration("f", &[], "fn f ()"), &block("{ third }", vec![]));
    finder.visit_impl_item_method(&declaration("f", &[], "fn f ()"), &block("{ fourth }", vec![]));
    finder.visit_trait_item_method(&declaration("f", &[], "fn f () ;"), &None);
    assert_eq!(finder.fn_txt(), "{ first }");
}

#[test]
fn finder_new_has_found_nothing() {
    let finder = FindFn::new("f", true);
    assert!(!finder.found());
    assert_eq!(finder.fn_txt(), "");
}

#[test]
fn caller_is_found_with_its_attributes() {
    let tree = foo_calls_bar();
    assert_eq!(
        caller_found(&tree, "foo", "bar"),
        (true, "# [inline] fn foo () { bar (x) }".to_string())
    );
}

#[test]
fn caller_with_several_attributes() {
    let tree = free_function("f", &["# [a]", "# [b]"], "{ g () }", vec![call("g", vec![])]);
    assert_eq!(caller_found(&tree, "f", "g"), (true, "# [a] # [b] fn f () { g () }".to_string()));
}

#[test]
fn caller_without_the_invocation_is_not_found() {
    let tree = container(vec![
        free_function("foo", &[], "{ baz () }", vec![call("baz", vec![])]),
        free_function("bar", &[], "{ }", vec![]),
    ]);
    assert_eq!(caller_found(&tree, "foo", "bar"), (false, String::new()));
    assert_eq!(find_caller(&tree, "foo", "bar", false), (false, String::new(), String::new()));
    let method = type_method("foo", &[], "{ baz () }", vec![call("baz", vec![])]);
    assert_eq!(find_caller(&method, "foo", "absent", false), (false, String::new(), String::new()));
}

#[test]
fn caller_search_goes_on_after_a_definition_without_the_invocation() {
    let tree = container(vec![
        type_method("run", &[], "{ other () }", vec![call("other", vec![])]),
        type_method("run", &["# [second]"], "{ helper () }", vec![call("helper", vec![])]),
        free_function("helper", &[], "{ }", vec![]),
    ]);
    assert_eq!(
        caller_found(&tree, "run", "helper"),
        (true, "# [second] fn run (& self) { helper () }".to_string())
    );
}

#[test]
fn caller_takes_the_first_of_two_callers() {
    let tree = container(vec![
        free_function("run", &[], "{ helper (1) }", vec![call("helper", vec![])]),
        free_function("run", &[], "{ helper (2) }", vec![call("helper", vec![])]),
    ]);
    assert_eq!(caller_found(&tree, "run", "helper"), (true, "fn run () { helper (1) }".to_string()));
}

#[test]
fn caller_may_be_nested() {
    let inner = free_function("run", &[], "{ helper () }", vec![call("helper", vec![])]);
    let tree = free_function("outer", &[], "{ fn run () { helper () } }", vec![inner]);
    assert_eq!(caller_found(&tree, "run", "helper"), (true, "fn run () { helper () }".to_string()));
}

#[test]
fn caller_invocation_may_be_a_method_call_or_nested() {
    let tree = trait_method(
        "run",
        &[],
        Some(("{ self . helper () }", vec![method_call("helper", vec![])])),
    );
    assert_eq!(
        caller_found(&tree, "run", "helper"),
        (true, "fn run (& self) -> bool { self . helper () }".to_string())
    );
    let tree = free_function("run", &[], "{ a (helper ()) }", vec![call("a", vec![call("helper", vec![])])]);
    assert!(caller_found(&tree, "run", "helper").0);
}

#[test]
fn caller_trait_declaration_invokes_nothing() {
    let tree = trait_method("run", &[], None);
    assert_eq!(caller_found(&tree, "run", ""), (false, String::new()));
}

#[test]
fn caller_name_is_exact_and_callee_is_a_substring() {
    let tree = free_function("runner", &[], "{ my_helper_fn () }", vec![call("my_helper_fn", vec![])]);
    assert!(!caller_found(&tree, "run", "helper").0);
    assert!(caller_found(&tree, "runner", "helper").0);
}

#[test]
fn caller_keeps_what_it_found() {
    let mut locator = FindCaller::new("run", "helper");
    assert!(!locator.found());
    assert_eq!(locator.caller(), "");
    locator.visit(&free_function("run", &[], "{ helper (1) }", vec![call("helper", vec![])]));
    locator.visit_item_fn(&declaration("run", &[], "fn run ()"), &block("{ helper (2) }", vec![call("helper", vec![])]));
    locator.visit_impl_item_method(&declaration("run", &[], "fn run ()"), &block("{ helper (3) }", vec![call("helper", vec![])]));
    locator.visit_trait_item_method(&declaration("run", &[], "fn run ()"), &Some(block("{ helper (4) }", vec![call("helper", vec![])])));
    locator.visit_all(&vec![free_function("run", &[], "{ helper (5) }", vec![call("helper", vec![])])]);
    assert!(locator.found());
    assert_eq!(locator.caller(), "fn run () { helper (1) }");
}

#[test]
fn find_caller_gives_both_texts() {
    let tree = foo_calls_bar();
    assert_eq!(
        find_caller(&tree, "foo", "bar", false),
        (true, "# [inline] fn foo () { bar (x) }".to_string(), "fn bar () { x + 1 }".to_string())
    );
    assert_eq!(
        find_caller(&tree, "foo", "bar", true),
        (true, "# [inline] fn foo () { bar (x) }".to_string(), "{ x + 1 }".to_string())
    );
}

#[test]
fn find_caller_needs_the_definition_of_the_callee() {
    let tree = container(vec![free_function("foo", &[], "{ bar (x) }", vec![call("bar", vec![])])]);
    assert!(caller_found(&tree, "foo", "bar").0);
    assert_eq!(find_caller(&tree, "foo", "bar", false), (false, String::new(), String::new()));
}

#[test]
fn find_caller_needs_the_caller() {
    let tree = container(vec![free_function("bar", &[], "{ }", vec![])]);
    assert_eq!(find_caller(&tree, "foo", "bar", false), (false, String::new(), String::new()));
}

#[test]
fn find_caller_callee_may_be_a_trait_method() {
    let tree = container(vec![
        trait_method("check", &["# [doc]"], Some(("{ x > 0 }", vec![]))),
        type_method("run", &[], "{ self . check () }", vec![method_call("check", vec![])]),
    ]);
    assert_eq!(
        find_caller(&tree, "run", "check", true),
        (true, "fn run (& self) { self . check () }".to_string(), "{}".to_string())
    );
    assert_eq!(
        find_caller(&tree, "run", "check", false),
        (
            true,
            "fn run (& self) { self . check () }".to_string(),
            "fn check (& self) -> bool { x > 0 }".to_string()
        )
    );
}

#[test]
fn find_caller_recursive_function_is_its_own_callee() {
    let tree = free_function("fact", &[], "{ fact (n - 1) }", vec![call("fact", vec![])]);
    assert_eq!(
        find_caller(&tree, "fact", "fact", true),
        (true, "fn fact () { fact (n - 1) }".to_string(), "{ fact (n - 1) }".to_string())
    );
}

#[test]
fn declaration_texts() {
    let d = declaration("f", &["# [a]", "# [b]"], "pub fn f (x : u8)");
    let b = block("{ x }", vec![]);
    assert_eq!(d.bare_text(Some(&b)), "pub fn f (x : u8) { x }");
    assert_eq!(d.bare_text(None), "pub fn f (x : u8)");
    assert_eq!(d.full_text(Some(&b)), "# [a] # [b] pub fn f (x : u8) { x }");
    assert_eq!(d.full_text(None), "# [a] # [b] pub fn f (x : u8)");
    let plain = declaration("g", &[], "fn g ()");
    assert_eq!(plain.full_text(Some(&b)), "fn g () { x }");
}
