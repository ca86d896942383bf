use rust_gen_callgraph::module_tree::{ModuleTree, ModuleTreeInterface};
use rust_gen_callgraph::output::module_tree::{ClassPathTree, ClassPathTreeInterface};

struct ModuleTreeRecorder {
    test_strings: Vec<String>,
}

impl ModuleTreeInterface for ModuleTreeRecorder {
    fn exec_search_before(&mut self, fn_name: &str) -> bool {
        let s = fn_name.to_string() + "+";
        self.test_strings.push(s);
        true
    }
    fn exec_search_after(&mut self, fn_name: &str) -> bool {
        let s = fn_name.to_string() + "-";
        self.test_strings.push(s);
        true
    }
}

struct ModuleTreeStopper {
    stop_at: String,
    test_strings: Vec<String>,
}

impl ModuleTreeInterface for ModuleTreeStopper {
    fn exec_search_before(&mut self, fn_name: &str) -> bool {
        self.test_strings.push(fn_name.to_string() + "+");
        fn_name != self.stop_at
    }
    fn exec_search_after(&mut self, fn_name: &str) -> bool {
        self.test_strings.push(fn_name.to_string() + "-");
        true
    }
}

fn module_tree_node(name: &str, nodes: Vec<ModuleTree>) -> ModuleTree {
    ModuleTree {
        fn_name: name.to_string(),
        nodes,
    }
}

#[test]
fn module_tree_it_works() {
    let funcs = "A::B::C".to_string();
    let vs: Vec<&str> = funcs.split("::").collect();

    let mut root = ModuleTree::new();

    root.push(&vs);

    let funcs = "A::B::D".to_string();
    let vs: Vec<&str> = funcs.split("::").collect();

    root.push(&vs);

    // expect
    let c = ModuleTree {
        fn_name: "C".to_string(),
        nodes: Vec::new(),
    };

    let d = ModuleTree {
        fn_name: "D".to_string(),
        nodes: Vec::new(),
    };

    let b = ModuleTree {
        fn_name: "B".to_string(),
        nodes: vec![c, d],
    };

    let a = ModuleTree {
        fn_name: "A".to_string(),
        nodes: vec![b],
    };

    let expect_root = ModuleTree {
        fn_name: "".to_string(),
        nodes: vec![a],
    };

    assert_eq!(root, expect_root);

    // Test search_preorder

    let mut test_interface = ModuleTreeRecorder {
        test_strings: Vec::new(),
    };
    root.search_preorder(&mut test_interface);

    let result = test_interface.test_strings.join("");
    assert_eq!(result, "A+A::B+A::B::C+A::B::C-A::B::D+A::B::D-A::B-A-");

}

#[test]
fn module_tree_push_twice_is_push_once() {
    let mut once = ModuleTree::new();
    once.push(&["A", "B", "C"]);
    once.push(&["A", "D"]);
    let mut twice = ModuleTree::new();
    twice.push(&["A", "B", "C"]);
    twice.push(&["A", "D"]);
    twice.push(&["A", "B", "C"]);
    twice.push(&["A", "D"]);
    twice.push(&["A", "B"]);
    assert_eq!(once, twice);
}

#[test]
fn module_tree_push_nothing_changes_nothing() {
    let mut root = ModuleTree::new();
    root.push(&[]);
    assert_eq!(root, module_tree_node("", Vec::new()));
}

#[test]
fn module_tree_children_keep_the_order_of_arrival() {
    let mut root = ModuleTree::new();
    root.push(&["Z"]);
    root.push(&["A"]);
    root.push(&["Z", "Y"]);
    let expect = module_tree_node(
        "",
        vec![
            module_tree_node("Z", vec![module_tree_node("Y", Vec::new())]),
            module_tree_node("A", Vec::new()),
        ],
    );
    assert_eq!(root, expect);
}

#[test]
fn module_tree_walk_stops_at_the_first_refusal() {
    let mut root = ModuleTree::new();
    root.push(&["A", "B", "C"]);
    root.push(&["A", "D"]);
    root.push(&["E"]);
    let mut stopper = ModuleTreeStopper {
        stop_at: "A::B::C".to_string(),
        test_strings: Vec::new(),
    };
    assert!(!root.search_preorder(&mut stopper));
    assert_eq!(stopper.test_strings.join(""), "A+A::B+A::B::C+");

    let mut recorder = ModuleTreeRecorder {
        test_strings: Vec::new(),
    };
    assert!(root.search_preorder(&mut recorder));
    assert_eq!(recorder.test_strings.join(""), "A+A::B+A::B::C+A::B::C-A::B-A::D+A::D-A-E+E-");
}

#[test]
fn module_tree_walk_of_the_empty_tree_calls_nobody() {
    let root = ModuleTree::new();
    let mut recorder = ModuleTreeRecorder {
        test_strings: Vec::new(),
    };
    assert!(root.search_preorder(&mut recorder));
    assert!(recorder.test_strings.is_empty());
}

struct TestInterface {
    test_strings: Vec<String>,
}

impl ClassPathTreeInterface for TestInterface {
    fn exec_search_before(&mut self, fn_name: &str) -> bool {
        let s = fn_name.to_string() + "+";
        self.test_strings.push(s);
        true
    }
    fn exec_search_after(&mut self, fn_name: &str) -> bool {
        let s = fn_name.to_string() + "-";
        self.test_strings.push(s);
        true
    }
}

#[test]
fn class_path_tree_works() {
    let mut root = ClassPathTree::new();

    let funcs = "A::B::C".to_string();
    let vs: Vec<&str> = funcs.split("::").collect();
    root.push(&vs);

    let funcs = "A::B::D".to_string();
    let vs: Vec<&str> = funcs.split("::").collect();
    root.push(&vs);

    let funcs = "A::E::F".to_string();
    let vs: Vec<&str> = funcs.split("::").collect();
    root.push(&vs);

    // expect
    let f = ClassPathTree {
        node: "F".to_string(),
        edges: Vec::new(),
    };

    let e = ClassPathTree {
        node: "E".to_string(),
        edges: vec![f],
    };

    let c = ClassPathTree {
        node: "C".to_string(),
        edges: Vec::new(),
    };

    let d = ClassPathTree {
        node: "D".to_string(),
        edges: Vec::new(),
    };

    let b = ClassPathTree {
        node: "B".to_string(),
        edges: vec![c, d],
    };

    let a = ClassPathTree {
        node: "A".to_string(),
        edges: vec![b, e],
    };

    let expect_root = ClassPathTree {
        node: "".to_string(),
        edges: vec![a],
    };

    assert_eq!(root, expect_root);

    // Test search_preorder

    let mut test_interface = TestInterface {
        test_strings: Vec::new(),
    };
    root.search_preorder(&mut test_interface);

    let result = test_interface.test_strings.join("");
    assert_eq!(result, "A+A::B+A::B::C+A::B::C-A::B::D+A::B::D-A::B-A::E+A::E::F+A::E::F-A::E-A-")
}

#[test]
fn class_path_tree_push_twice_is_push_once() {
    let mut once = ClassPathTree::new();
    once.push(&["A", "B", "C"]);
    let mut twice = ClassPathTree::new();
    twice.push(&["A", "B", "C"]);
    twice.push(&["A", "B", "C"]);
    assert_eq!(once, twice);
}

#[test]
fn class_path_tree_names_a_node_without_segment_too() {
    let mut root = ClassPathTree::new();
    root.push(&["", "A"]);
    let mut test_interface = TestInterface {
        test_strings: Vec::new(),
    };
    assert!(root.search_preorder(&mut test_interface));
    assert_eq!(test_interface.test_strings.join(" "), "+ ::A+ ::A- -");
}

#[test]
fn class_path_tree_does_not_announce_its_root() {
    let root = ClassPathTree {
        node: "R".to_string(),
        edges: vec![ClassPathTree {
            node: "A".to_string(),
            edges: vec![ClassPathTree {
                node: "B".to_string(),
                edges: Vec::new(),
            }],
        }],
    };
    let mut test_interface = TestInterface {
        test_strings: Vec::new(),
    };
    assert!(root.search_preorder(&mut test_interface));
    assert_eq!(test_interface.test_strings.join(" "), "A+ A::B+ A::B- A-");
}
