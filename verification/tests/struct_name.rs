use rust_gen_callgraph::struct_name::StructName;

#[test]
fn struct_name_test_push_start() {
    let mut c = StructName::new();
    c.push("aaa");
    assert_eq!(c.name(), "aaa");
}

#[test]
fn struct_name_sinple_new_for_str() {
    let c = StructName::new_for_str("String");
    assert_eq!(c.name(), "String");
}

#[test]
fn struct_name_multi_new_for_str() {
    let c = StructName::new_for_str("Foo::Bar");
    assert_eq!(c.name(), "Foo::Bar");
}

#[test]
fn struct_name_test_push_double() {
    let mut c = StructName::new();
    c.push("bbb");
    c.push("ccc");
    assert_eq!(c.name(), "bbb::ccc");
}

#[test]
fn struct_name_test_pop() {
    let mut c = StructName::new();
    c.push("ddd");
    c.push("eee");
    c.pop().unwrap();
    assert_eq!(c.name(), "ddd");
}

#[test]
fn struct_name_test_pop_empty() {
    let mut c = StructName::new();
    assert_eq!(c.pop(), None);
}

#[test]
fn struct_name_pop_returns_last_segment() {
    let mut c = StructName::new_for_str("a::b::c");
    assert_eq!(c.pop(), Some("c".to_string()));
    assert_eq!(c.pop(), Some("b".to_string()));
    assert_eq!(c.name(), "a");
}

#[test]
fn struct_name_empty_name_is_empty_text() {
    let c = StructName::new();
    assert_eq!(c.name(), "");
}

#[test]
fn struct_name_keeps_stray_colons() {
    let c = StructName::new_for_str("a:::b");
    assert_eq!(c, {
        let mut expect = StructName::new();
        expect.push("a");
        expect.push(":b");
        expect
    });
    assert_eq!(c.name(), "a:::b");
}
