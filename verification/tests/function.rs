use rust_gen_callgraph::analyzer::function::{
    output_to_return_type, AnalyzerFunction, FunctionType,
};
use rust_gen_callgraph::analyzer::syntax::{
    Expr, File, ImplItem, ImplItemMethod, Item, ItemFn, ItemImpl, ItemMod, Path, Stmt, Type,
};

fn named(text: &str) -> Type {
    Type::Path(Path {
        segments: text.split("::").map(|s| s.to_string()).collect(),
    })
}

fn function(name: &str, output: Option<Type>, block: Vec<Stmt>) -> Item {
    Item::Fn(ItemFn {
        ident: name.to_string(),
        output,
        block,
    })
}

fn method(name: &str, output: Option<Type>, block: Vec<Stmt>) -> ImplItem {
    ImplItem::Method(ImplItemMethod {
        ident: name.to_string(),
        output,
        block,
    })
}

// fn basic() -> String {}
#[test]
fn basic() {
    let mut ana = AnalyzerFunction::new("my_project".to_string());
    let syntax = File {
        items: vec![function("basic", Some(named("String")), vec![])],
    };
    ana.visit_file(&syntax);

    let class_name = "my_project::basic".to_string();
    let func_type = FunctionType::new(class_name, "String".to_string());
    let expect = vec![func_type];

    assert_eq!(ana.get_function_list(), &expect);
}

// impl ClassMethod { fn method() -> String {} }
#[test]
fn class_method() {
    let mut ana = AnalyzerFunction::new("my_project".to_string());
    let syntax = File {
        items: vec![Item::Impl(ItemImpl {
            self_ty: named("ClassMethod"),
            items: vec![method("method", Some(named("String")), vec![])],
        })],
    };
    ana.visit_file(&syntax);

    let class_name = "my_project::ClassMethod::method".to_string();
    let func_type = FunctionType::new(class_name, "String".to_string());
    let expect = vec![func_type];

    assert_eq!(ana.get_function_list(), &expect);
}

#[test]
fn function_without_a_named_return_type_is_not_listed() {
    let mut ana = AnalyzerFunction::new("p".to_string());
    let syntax = File {
        items: vec![
            function("unit", None, vec![]),
            function("tuple", Some(Type::Other), vec![]),
            function("named", Some(named("a::B")), vec![]),
        ],
    };
    ana.visit_file(&syntax);
    let expect = vec![FunctionType::new("p::named".to_string(), "a::B".to_string())];
    assert_eq!(ana.get_function_list(), &expect);
}

#[test]
fn nested_functions_are_listed_but_not_those_inside_methods() {
    let inner = function("inner", Some(named("I")), vec![]);
    let hidden = function("hidden", Some(named("H")), vec![]);
    let syntax = File {
        items: vec![
            function(
                "outer",
                Some(named("O")),
                vec![Stmt::Expr(Expr::Block(vec![Stmt::Item(inner)]))],
            ),
            Item::Impl(ItemImpl {
                self_ty: Type::Other,
                items: vec![method("m", Some(named("M")), vec![Stmt::Item(hidden)])],
            }),
            Item::Mod(ItemMod {
                attrs: vec![],
                content: vec![function("deep", Some(named("D")), vec![])],
            }),
        ],
    };
    let mut ana = AnalyzerFunction::new("p".to_string());
    ana.visit_file(&syntax);
    let expect = vec![
        FunctionType::new("p::outer".to_string(), "O".to_string()),
        FunctionType::new("p::inner".to_string(), "I".to_string()),
        FunctionType::new("p::m".to_string(), "M".to_string()),
        FunctionType::new("p::deep".to_string(), "D".to_string()),
    ];
    assert_eq!(ana.get_function_list(), &expect);
}

#[test]
fn output_to_return_type_reads_a_path() {
    assert_eq!(
        output_to_return_type(&Some(named("std::io::Result"))),
        Some("std::io::Result".to_string())
    );
    assert_eq!(output_to_return_type(&Some(Type::Other)), None);
    assert_eq!(output_to_return_type(&None), None);
}
