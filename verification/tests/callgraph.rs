use rust_gen_callgraph::analyzer::callgraph::{
    check_callee_path, is_test_only, AnalyzerCallGraph, FnInfo,
};
use rust_gen_callgraph::analyzer::datas::FullStrcutName;
use rust_gen_callgraph::analyzer::syntax::{
    Attribute, Expr, ExprCall, ExprMethodCall, File, ImplItem, ImplItemMethod, Item, ItemFn,
    ItemImpl, ItemMod, Local, Pat, Path, Stmt, Type,
};
use rust_gen_callgraph::analyzer::{analyze, SourceUnit};
use rust_gen_callgraph::call_data::CallInfo;

fn path(text: &str) -> Path {
    Path {
        segments: text.split("::").map(|s| s.to_string()).collect(),
    }
}

fn path_expr(text: &str) -> Expr {
    Expr::Path(path(text))
}

fn call(target: &str, args: Vec<Expr>) -> Expr {
    Expr::Call(ExprCall {
        func: Box::new(path_expr(target)),
        args,
    })
}

fn method_call_on(receiver: Expr, method: &str, args: Vec<Expr>) -> Expr {
    Expr::MethodCall(ExprMethodCall {
        receiver: Box::new(receiver),
        method: method.to_string(),
        args,
    })
}

fn let_untyped(name: &str, init: Option<Expr>) -> Stmt {
    Stmt::Local(Local {
        pat: Pat::Ident(name.to_string()),
        init,
    })
}

fn let_typed(name: &str, ty: Type, init: Option<Expr>) -> Stmt {
    Stmt::Local(Local {
        pat: Pat::Typed {
            pat: Box::new(Pat::Ident(name.to_string())),
            ty,
        },
        init,
    })
}

fn function(name: &str, block: Vec<Stmt>) -> Item {
    Item::Fn(ItemFn {
        ident: name.to_string(),
        output: None,
        block,
    })
}

fn method(name: &str, block: Vec<Stmt>) -> ImplItem {
    ImplItem::Method(ImplItemMethod {
        ident: name.to_string(),
        output: None,
        block,
    })
}

fn implementation(self_ty: Type, items: Vec<ImplItem>) -> Item {
    Item::Impl(ItemImpl { self_ty, items })
}

fn edge(caller: &str, callee: &str) -> CallInfo {
    CallInfo {
        callee: callee.to_string(),
        caller: caller.to_string(),
    }
}

fn edges_of(module: &str, items: Vec<Item>) -> Vec<CallInfo> {
    let mut ana = AnalyzerCallGraph::new(module.to_string());
    ana.visit_file(&File { items });
    ana.get_callinfo()
}

fn cfg_test() -> Attribute {
    Attribute {
        path: "cfg".to_string(),
        tokens: "(test)".to_string(),
    }
}

// fn func() { let a = A::new(); }
#[test]
fn method_call() {
    let syntax = File {
        items: vec![function(
            "func",
            vec![let_untyped("a", Some(call("A::new", vec![])))],
        )],
    };

    let mut ana = AnalyzerCallGraph::new("module".to_string());
    ana.visit_file(&syntax);

    let expect_info = CallInfo {
        callee: "A::new".to_string(),
        caller: "module::func".to_string(),
    };
    let expect = vec![expect_info];

    assert_eq!(ana.get_callinfo(), expect);
}

// impl T { fn m(&self) { self.inner(); } }
#[test]
fn self_call_is_a_call_of_the_implementing_type() {
    let items = vec![implementation(
        Type::Path(path("T")),
        vec![method(
            "m",
            vec![Stmt::Expr(method_call_on(path_expr("self"), "inner", vec![]))],
        )],
    )];
    assert_eq!(edges_of("module", items), vec![edge("T::m", "T::inner")]);
}

// fn f() { let x: Foo = Foo::make(); x.go(); }
#[test]
fn method_of_a_typed_local_is_a_method_of_its_type() {
    let items = vec![function(
        "f",
        vec![
            let_typed("x", Type::Path(path("Foo")), Some(call("Foo::make", vec![]))),
            Stmt::Expr(method_call_on(path_expr("x"), "go", vec![])),
        ],
    )];
    assert_eq!(
        edges_of("module", items),
        vec![edge("module::f", "Foo::make"), edge("module::f", "Foo::go")]
    );
}

// fn f() { let x = Foo; x.go(); let y = make(); y.go(); z.go(); }
#[test]
fn untyped_local_takes_a_bare_path_for_its_type() {
    let items = vec![function(
        "f",
        vec![
            let_untyped("x", Some(path_expr("Foo"))),
            Stmt::Expr(method_call_on(path_expr("x"), "go", vec![])),
            let_untyped("y", Some(call("make", vec![]))),
            Stmt::Expr(method_call_on(path_expr("y"), "go", vec![])),
            Stmt::Expr(method_call_on(path_expr("z"), "go", vec![])),
        ],
    )];
    assert_eq!(
        edges_of("m", items),
        vec![
            edge("m::f", "Foo::go"),
            edge("m::f", "make"),
            edge("m::f", "go"),
            edge("m::f", "go"),
        ]
    );
}

// #[cfg(test)] mod tests { fn t() { helper(); x.run(); } }  fn live() { helper(); }
#[test]
fn test_only_module_gives_no_edge() {
    let inner = vec![function(
        "t",
        vec![
            Stmt::Expr(call("helper", vec![])),
            Stmt::Expr(method_call_on(path_expr("x"), "run", vec![])),
        ],
    )];
    let items = vec![
        Item::Mod(ItemMod {
            attrs: vec![cfg_test()],
            content: inner,
        }),
        function("live", vec![Stmt::Expr(call("helper", vec![]))]),
    ];
    assert_eq!(edges_of("m", items), vec![edge("m::live", "helper")]);
}

#[test]
fn module_without_test_marker_is_read() {
    let inner = vec![function("t", vec![Stmt::Expr(call("helper", vec![]))])];
    let other = Attribute {
        path: "cfg".to_string(),
        tokens: "(feature = \"x\")".to_string(),
    };
    let items = vec![Item::Mod(ItemMod {
        attrs: vec![other],
        content: inner,
    })];
    assert_eq!(edges_of("m", items), vec![edge("m::t", "helper")]);
}

#[test]
fn is_test_only_wants_cfg_and_test() {
    let allow = Attribute {
        path: "allow".to_string(),
        tokens: "(test)".to_string(),
    };
    let doc = Attribute {
        path: "".to_string(),
        tokens: "".to_string(),
    };
    assert!(is_test_only(&vec![cfg_test()]));
    assert!(is_test_only(&vec![doc.clone_for_test(), cfg_test()]));
    assert!(!is_test_only(&vec![allow, doc]));
    assert!(!is_test_only(&Vec::new()));
}

trait CloneForTest {
    fn clone_for_test(&self) -> Attribute;
}

impl CloneForTest for Attribute {
    fn clone_for_test(&self) -> Attribute {
        Attribute {
            path: self.path.clone(),
            tokens: self.tokens.clone(),
        }
    }
}

// fn f() { if c { g(h(1)); } }
#[test]
fn calls_inside_other_expressions_are_found_outermost_first() {
    let nested = call("g", vec![call("h", vec![Expr::Other(vec![])])]);
    let items = vec![function(
        "f",
        vec![Stmt::Expr(Expr::Other(vec![
            path_expr("c"),
            Expr::Block(vec![Stmt::Expr(nested)]),
        ]))],
    )];
    assert_eq!(edges_of("m", items), vec![edge("m::f", "g"), edge("m::f", "h")]);
}

// a.b().c(d())
#[test]
fn method_call_on_a_call_is_unqualified() {
    let inner = method_call_on(path_expr("a"), "b", vec![]);
    let outer = method_call_on(inner, "c", vec![call("d", vec![])]);
    let items = vec![function("f", vec![Stmt::Expr(outer)])];
    assert_eq!(
        edges_of("m", items),
        vec![edge("m::f", "c"), edge("m::f", "b"), edge("m::f", "d")]
    );
}

#[test]
fn call_of_something_that_is_no_path_gives_no_edge_of_its_own() {
    let callee = Expr::Other(vec![call("make", vec![])]);
    let expr = Expr::Call(ExprCall {
        func: Box::new(callee),
        args: vec![],
    });
    let items = vec![function("f", vec![Stmt::Expr(expr)])];
    assert_eq!(edges_of("m", items), vec![edge("m::f", "make")]);
}

#[test]
fn call_outside_of_any_function_has_no_data_for_its_caller() {
    let items = vec![Item::Other(vec![call("init", vec![])])];
    assert_eq!(edges_of("m", items), vec![edge("NoData", "init")]);
}

#[test]
fn self_call_without_implementing_type_is_marked() {
    let body = vec![Stmt::Expr(method_call_on(path_expr("self"), "inner", vec![]))];
    let items = vec![
        implementation(Type::Other, vec![method("m", body)]),
        function(
            "f",
            vec![Stmt::Expr(method_call_on(path_expr("self"), "g", vec![]))],
        ),
    ];
    assert_eq!(
        edges_of("m", items),
        vec![edge("NonImpl::m", "NonImpl::inner"), edge("m::f", "NonImpl::g")]
    );
}

#[test]
fn locals_are_forgotten_behind_a_function_and_behind_a_method() {
    let items = vec![
        function("f", vec![let_typed("x", Type::Path(path("Foo")), None)]),
        function(
            "g",
            vec![Stmt::Expr(method_call_on(path_expr("x"), "go", vec![]))],
        ),
        implementation(
            Type::Path(path("a::T")),
            vec![
                method("m", vec![let_typed("y", Type::Path(path("Bar")), None)]),
                method(
                    "n",
                    vec![Stmt::Expr(method_call_on(path_expr("y"), "go", vec![]))],
                ),
            ],
        ),
    ];
    assert_eq!(
        edges_of("m", items),
        vec![edge("m::g", "go"), edge("a::T::n", "go")]
    );
}

#[test]
fn last_binding_of_the_name_decides() {
    let items = vec![function(
        "f",
        vec![
            let_typed("x", Type::Path(path("A")), None),
            let_typed("x", Type::Path(path("B")), None),
            let_typed("y", Type::Path(path("C")), None),
            Stmt::Expr(method_call_on(path_expr("x"), "go", vec![])),
            let_typed("x", Type::Other, None),
            Stmt::Expr(method_call_on(path_expr("x"), "go", vec![])),
            let_untyped("y", Some(path_expr("D"))),
            Stmt::Expr(method_call_on(path_expr("y"), "go", vec![])),
        ],
    )];
    assert_eq!(
        edges_of("m", items),
        vec![edge("m::f", "B::go"), edge("m::f", "go"), edge("m::f", "D::go")]
    );
}

#[test]
fn implementing_type_is_back_behind_a_nested_block() {
    let inner = implementation(
        Type::Path(path("Inner")),
        vec![method(
            "i",
            vec![Stmt::Expr(method_call_on(path_expr("self"), "a", vec![]))],
        )],
    );
    let outer = implementation(
        Type::Path(path("Outer")),
        vec![
            method("m", vec![Stmt::Item(inner)]),
            method(
                "n",
                vec![Stmt::Expr(method_call_on(path_expr("self"), "b", vec![]))],
            ),
        ],
    );
    assert_eq!(
        edges_of("m", vec![outer]),
        vec![edge("Inner::i", "Inner::a"), edge("Outer::n", "Outer::b")]
    );
}

#[test]
fn caller_name_of_where_the_walk_is() {
    let status = FnInfo::new();
    assert_eq!(status.get_caller_name("module"), "NoData");
}

#[test]
fn push_callinfo_records_the_callee_as_given() {
    let mut ana = AnalyzerCallGraph::new("m".to_string());
    ana.push_callinfo("x::y".to_string());
    assert_eq!(ana.get_callinfo(), vec![edge("NoData", "x::y")]);
}

#[test]
fn check_callee_path_leaves_the_callee_alone() {
    let mut callee = FullStrcutName::new();
    callee.push("A");
    callee.push("new");
    check_callee_path(&mut callee, "module");
    assert_eq!(callee.fullname(), "A::new");
}

#[test]
fn analyze_takes_file_after_file() {
    let files = vec![
        SourceUnit {
            module_name: "one".to_string(),
            syntax: File {
                items: vec![function("f", vec![Stmt::Expr(call("g", vec![]))])],
            },
        },
        SourceUnit {
            module_name: "two".to_string(),
            syntax: File { items: vec![] },
        },
        SourceUnit {
            module_name: "three".to_string(),
            syntax: File {
                items: vec![function("f", vec![Stmt::Expr(call("g", vec![]))])],
            },
        },
    ];
    assert_eq!(
        analyze(&files),
        vec![edge("one::f", "g"), edge("three::f", "g")]
    );
    assert!(analyze(&Vec::new()).is_empty());
}
