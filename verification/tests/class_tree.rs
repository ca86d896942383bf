use rust_gen_callgraph::class_tree::{ClassTree, ClassTreeInterface};

struct ClassTreeRecorder {
    test_strings: Vec<String>,
}

impl ClassTreeInterface for ClassTreeRecorder {
    fn exec_search_before(&mut self, fn_name: &str) -> bool {
        let s = fn_name.to_string() + "+";
        self.test_strings.push(s);
        true
    }
    fn exec_search_after(&mut self, fn_name: &str) -> bool {
        let s = fn_name.to_string() + "-";
        self.test_strings.push(s);
        true
    }
}

struct ClassTreeStopper {
    stop_at: String,
    test_strings: Vec<String>,
}

impl ClassTreeInterface for ClassTreeStopper {
    fn exec_search_before(&mut self, fn_name: &str) -> bool {
        self.test_strings.push(fn_name.to_string() + "+");
        fn_name != self.stop_at
    }
    fn exec_search_after(&mut self, fn_name: &str) -> bool {
        self.test_strings.push(fn_name.to_string() + "-");
        true
    }
}

fn class_tree_node(name: &str, nodes: Vec<ClassTree>) -> ClassTree {
    ClassTree {
        fn_name: name.to_string(),
        nodes,
    }
}

#[test]
fn class_tree_it_works() {
    let funcs = "A::B::C".to_string();
    let vs: Vec<&str> = funcs.split("::").collect();

    let mut root = ClassTree::new();

    root.push(&vs);

    let funcs = "A::B::D".to_string();
    let vs: Vec<&str> = funcs.split("::").collect();

    root.push(&vs);

    // expect
    let c = ClassTree {
        fn_name: "C".to_string(),
        nodes: Vec::new(),
    };

    let d = ClassTree {
        fn_name: "D".to_string(),
        nodes: Vec::new(),
    };

    let b = ClassTree {
        fn_name: "B".to_string(),
        nodes: vec![c, d],
    };

    let a = ClassTree {
        fn_name: "A".to_string(),
        nodes: vec![b],
    };

    let expect_root = ClassTree {
        fn_name: "".to_string(),
        nodes: vec![a],
    };

    assert_eq!(root, expect_root);

    // Test search_preorder

    let mut test_interface = ClassTreeRecorder {
        test_strings: Vec::new(),
    };
    root.search_preorder(&mut test_interface);

    let result = test_interface.test_strings.join("");
    assert_eq!(result, "A+A::B+A::B::C+A::B::C-A::B::D+A::B::D-A::B-A-");
}

#[test]
fn class_tree_push_twice_is_push_once() {
    let mut once = ClassTree::new();
    once.push(&["A", "B", "C"]);
    once.push(&["A", "D"]);
    let mut twice = ClassTree::new();
    twice.push(&["A", "B", "C"]);
    twice.push(&["A", "D"]);
    twice.push(&["A", "B", "C"]);
    twice.push(&["A", "D"]);
    twice.push(&["A", "B"]);
    assert_eq!(once, twice);
}

#[test]
fn class_tree_push_nothing_changes_nothing() {
    let mut root = ClassTree::new();
    root.push(&[]);
    assert_eq!(root, class_tree_node("", Vec::new()));
}

#[test]
fn class_tree_children_keep_the_order_of_arrival() {
    let mut root = ClassTree::new();
    root.push(&["Z"]);
    root.push(&["A"]);
    root.push(&["Z", "Y"]);
    let expect = class_tree_node(
        "",
        vec![
            class_tree_node("Z", vec![class_tree_node("Y", Vec::new())]),
            class_tree_node("A", Vec::new()),
        ],
    );
    assert_eq!(root, expect);
}

#[test]
fn class_tree_walk_stops_at_the_first_refusal() {
    let mut root = ClassTree::new();
    root.push(&["A", "B", "C"]);
    root.push(&["A", "D"]);
    root.push(&["E"]);
    let mut stopper = ClassTreeStopper {
        stop_at: "A::B::C".to_string(),
        test_strings: Vec::new(),
    };
    assert!(!root.search_preorder(&mut stopper));
    assert_eq!(stopper.test_strings.join(""), "A+A::B+A::B::C+");

    let mut recorder = ClassTreeRecorder {
        test_strings: Vec::new(),
    };
    assert!(root.search_preorder(&mut recorder));
    assert_eq!(recorder.test_strings.join(""), "A+A::B+A::B::C+A::B::C-A::B-A::D+A::D-A-E+E-");
}

#[test]
fn class_tree_walk_of_the_empty_tree_calls_nobody() {
    let root = ClassTree::new();
    let mut recorder = ClassTreeRecorder {
        test_strings: Vec::new(),
    };
    assert!(root.search_preorder(&mut recorder));
    assert!(recorder.test_strings.is_empty());
}
