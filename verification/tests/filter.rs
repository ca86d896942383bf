use rust_gen_callgraph::call_data::CallInfo;
use rust_gen_callgraph::filter::{edge_less, filterling, is_data_type, text_less, Options};

fn call(caller: &str, callee: &str) -> CallInfo {
    CallInfo {
        caller: caller.to_string(),
        callee: callee.to_string(),
    }
}

#[test]
fn test_filterling_print_data_type1() {
    let callinfo_list = vec![
        CallInfo {
            caller: "String".to_string(),
            callee: "String".to_string(),
        },
        CallInfo {
            caller: "String".to_string(),
            callee: "Vec".to_string(),
        },
        CallInfo {
            caller: "Vec".to_string(),
            callee: "String".to_string(),
        },
        CallInfo {
            caller: "Vec".to_string(),
            callee: "Vec".to_string(),
        },
    ];

    let options = Options::new(false);
    let callinfo_list = filterling(callinfo_list, &options);

    assert_eq!(callinfo_list.len(), 0);
}

#[test]
fn test_filterling_print_data_type2() {
    let callinfo_list = vec![
        CallInfo {
            caller: "String".to_string(),
            callee: "String".to_string(),
        },
        CallInfo {
            caller: "String".to_string(),
            callee: "Vec".to_string(),
        },
        CallInfo {
            caller: "Vec".to_string(),
            callee: "String".to_string(),
        },
        CallInfo {
            caller: "Vec".to_string(),
            callee: "Vec".to_string(),
        },
    ];

    let options = Options::new(true);
    let callinfo_list = filterling(callinfo_list, &options);

    assert_eq!(callinfo_list.len(), 4);
}

#[test]
fn test_filterling_duplicate() {
    let callinfo_list = vec![
        CallInfo {
            caller: "String".to_string(),
            callee: "String".to_string(),
        },
        CallInfo {
            caller: "String".to_string(),
            callee: "Vec".to_string(),
        },
        CallInfo {
            caller: "Vec".to_string(),
            callee: "String".to_string(),
        },
        CallInfo {
            caller: "Vec".to_string(),
            callee: "Vec".to_string(),
        },
    ];

    let options = Options::new(true);
    let callinfo_list = filterling(callinfo_list, &options);

    assert_eq!(callinfo_list.len(), 4);

    let callinfo_list = vec![
        CallInfo {
            caller: "MethodA".to_string(),
            callee: "MethodB".to_string(),
        },
        CallInfo {
            caller: "MethodA".to_string(),
            callee: "MethodC".to_string(),
        },
        CallInfo {
            caller: "MethodB".to_string(),
            callee: "MethodC".to_string(),
        },
        CallInfo {
            caller: "MethodA".to_string(),
            callee: "MethodC".to_string(),
        },
        CallInfo {
            caller: "Vec".to_string(),
            callee: "Vec".to_string(),
        },
    ];

    let options = Options::new(true);
    let callinfo_list = filterling(callinfo_list, &options);

    assert_eq!(callinfo_list.len(), 4);
}

#[test]
fn filterling_keeps_one_of_two_identical_edges() {
    let list = vec![call("m::f", "A::new"), call("m::f", "A::new")];
    let filtered = filterling(list, &Options::new(false));
    assert_eq!(filtered, vec![call("m::f", "A::new")]);
}

#[test]
fn filterling_orders_by_callee_then_caller() {
    let list = vec![
        call("b", "y"),
        call("a", "z"),
        call("b", "x"),
        call("a", "y"),
        call("a", "z"),
    ];
    let filtered = filterling(list, &Options::new(true));
    assert_eq!(
        filtered,
        vec![call("b", "x"), call("a", "y"), call("b", "y"), call("a", "z")]
    );
}

#[test]
fn filterling_gives_what_sort_and_dedup_give() {
    let list = vec![
        call("m::g", "m::h"),
        call("m::f", "m::h"),
        call("é", "a"),
        call("m::f", "m"),
        call("", ""),
        call("m::f", "m::h"),
        call("Z", "a"),
        call("m::f", "m:"),
    ];
    let mut expect = list.clone();
    expect.sort();
    expect.dedup();
    assert_eq!(filterling(list, &Options::new(true)), expect);
}

#[test]
fn filterling_drops_edges_that_end_in_a_data_type() {
    let list = vec![
        call("m::f", "std::Vec"),
        call("alloc::String", "m::g"),
        call("m::f", "m::g"),
        call("m::f", "Vec::new"),
        call("m::f", "Vector"),
    ];
    let filtered = filterling(list.clone(), &Options::new(false));
    assert_eq!(
        filtered,
        vec![call("m::f", "Vec::new"), call("m::f", "Vector"), call("m::f", "m::g")]
    );
    assert_eq!(filterling(list, &Options::new(true)).len(), 5);
}

#[test]
fn filterling_of_nothing_is_nothing() {
    assert!(filterling(Vec::new(), &Options::new(false)).is_empty());
}

#[test]
fn is_data_type_looks_at_the_last_segment() {
    assert!(is_data_type("String"));
    assert!(is_data_type("Vec"));
    assert!(is_data_type("std::vec::Vec"));
    assert!(!is_data_type("Vec::new"));
    assert!(!is_data_type("Strings"));
    assert!(!is_data_type(""));
    assert!(!is_data_type("vec"));
}

#[test]
fn text_less_is_the_order_of_strings() {
    let texts = ["", "a", "ab", "b", "B", "a:", "é", "z", "ab"];
    for left in texts {
        for right in texts {
            assert_eq!(text_less(left, right), left < right, "{left:?} {right:?}");
        }
    }
}

#[test]
fn edge_less_compares_the_callee_first() {
    assert!(edge_less(&call("z", "a"), &call("a", "b")));
    assert!(!edge_less(&call("a", "b"), &call("z", "a")));
    assert!(edge_less(&call("a", "b"), &call("b", "b")));
    assert!(!edge_less(&call("a", "b"), &call("a", "b")));
}

#[test]
fn options_keep_the_flag() {
    assert!(Options::new(true).print_data_type);
    assert!(!Options::new(false).print_data_type);
}
