use rust_gen_callgraph::class_name::ClassName;

#[test]
fn class_name_test_push_start() {
    let mut c = ClassName::new();
    c.push("aaa");
    assert_eq!(c.name(), "aaa");
}

#[test]
fn class_name_sinple_new_for_str() {
    let c = ClassName::new_for_str("String");
    assert_eq!(c.name(), "String");
}

#[test]
fn class_name_multi_new_for_str() {
    let c = ClassName::new_for_str("Foo::Bar");
    assert_eq!(c.name(), "Foo::Bar");
}

#[test]
fn class_name_test_push_double() {
    let mut c = ClassName::new();
    c.push("bbb");
    c.push("ccc");
    assert_eq!(c.name(), "bbb::ccc");
}

#[test]
fn class_name_test_pop() {
    let mut c = ClassName::new();
    c.push("ddd");
    c.push("eee");
    c.pop().unwrap();
    assert_eq!(c.name(), "ddd");
}

#[test]
fn class_name_test_pop_empty() {
    let mut c = ClassName::new();
    assert_eq!(c.pop(), None);
}

#[test]
fn class_name_pop_returns_last_segment() {
    let mut c = ClassName::new_for_str("a::b::c");
    assert_eq!(c.pop(), Some("c".to_string()));
    assert_eq!(c.pop(), Some("b".to_string()));
    assert_eq!(c.name(), "a");
}

#[test]
fn class_name_empty_name_is_empty_text() {
    let c = ClassName::new();
    assert_eq!(c.name(), "");
}

#[test]
fn class_name_keeps_stray_colons() {
    let c = ClassName::new_for_str("a:::b");
    assert_eq!(c, {
        let mut expect = ClassName::new();
        expect.push("a");
        expect.push(":b");
        expect
    });
    assert_eq!(c.name(), "a:::b");
}
