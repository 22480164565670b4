use jni_bindgen::kotlin::{
    build_binding_tree, generate_kotlin_file, get_name_components, render_node_lines, replace_name,
};

#[test]
fn test_get_name_components() {
    let b = "external fun Math_add(a: Int, b: Int): Int".to_string();
    assert_eq!(get_name_components(&b), vec!["Math".to_string(), "add".to_string()]);

    let b = "external fun solo()".to_string();
    assert_eq!(get_name_components(&b), vec!["solo".to_string()]);

    let b = "external fun A_B_c(x: Long)".to_string();
    assert_eq!(
        get_name_components(&b),
        vec!["A".to_string(), "B".to_string(), "c".to_string()]
    );

    let b = "no declaration here".to_string();
    assert_eq!(get_name_components(&b), Vec::<String>::new());
}

#[test]
fn test_replace_name() {
    let b = "external fun Math_add(a: Int): Int".to_string();
    assert_eq!(replace_name(&b, &"add".to_string()), "external fun add(a: Int): Int");

    let b = "external fun solo()".to_string();
    assert_eq!(replace_name(&b, &"renamed".to_string()), "external fun renamed()");

    let b = "no declaration here".to_string();
    assert_eq!(replace_name(&b, &"x".to_string()), "no declaration here");
}

#[test]
fn test_build_binding_tree_places_each_declaration_once() {
    let bindings = vec![
        "external fun topLevel()".to_string(),
        "external fun Math_add(a: Int, b: Int): Int".to_string(),
        "external fun Math_sub(a: Int, b: Int): Int".to_string(),
        "external fun Util_Text_upper(s: Char): Char".to_string(),
    ];
    let tree = build_binding_tree("Bindings", &bindings);

    assert_eq!(tree.name, "Bindings");
    assert_eq!(tree.members, vec!["external fun topLevel()".to_string()]);
    assert_eq!(tree.child_objects.len(), 2);

    let math = &tree.child_objects[0];
    assert_eq!(math.name, "Math");
    assert_eq!(
        math.members,
        vec![
            "external fun add(a: Int, b: Int): Int".to_string(),
            "external fun sub(a: Int, b: Int): Int".to_string(),
        ]
    );
    assert_eq!(math.child_objects.len(), 0);

    let util = &tree.child_objects[1];
    assert_eq!(util.name, "Util");
    assert_eq!(util.members.len(), 0);
    assert_eq!(util.child_objects.len(), 1);
    let text = &util.child_objects[0];
    assert_eq!(text.name, "Text");
    assert_eq!(text.members, vec!["external fun upper(s: Char): Char".to_string()]);
}

#[test]
fn test_build_binding_tree_reuses_containers() {
    let bindings = vec![
        "external fun A_B_f()".to_string(),
        "external fun A_g()".to_string(),
        "external fun A_B_h()".to_string(),
    ];
    let tree = build_binding_tree("Root", &bindings);
    assert_eq!(tree.child_objects.len(), 1);
    let a = &tree.child_objects[0];
    assert_eq!(a.name, "A");
    assert_eq!(a.members, vec!["external fun g()".to_string()]);
    assert_eq!(a.child_objects.len(), 1);
    let b = &a.child_objects[0];
    assert_eq!(b.name, "B");
    assert_eq!(
        b.members,
        vec!["external fun f()".to_string(), "external fun h()".to_string()]
    );
}

#[test]
fn test_render_node_lines_structure() {
    let bindings = vec![
        "external fun Math_add(a: Int): Int".to_string(),
        "external fun Math_Inner_neg(a: Int): Int".to_string(),
    ];
    let tree = build_binding_tree("Root", &bindings);
    let math = &tree.child_objects[0];
    let lines = render_node_lines(math);
    assert_eq!(
        lines,
        vec![
            "object Math {".to_string(),
            "    external fun add(a: Int): Int".to_string(),
            "    object Inner {".to_string(),
            "        external fun neg(a: Int): Int".to_string(),
            "    }".to_string(),
            "}".to_string(),
        ]
    );
}

// Re-splitting the generated text by container boundaries recovers the
// container names and the number of members of each container.
#[test]
fn test_generated_file_round_trips_structure() {
    let bindings = vec![
        "external fun topLevel()".to_string(),
        "external fun Math_add(a: Int, b: Int): Int".to_string(),
        "external fun Math_sub(a: Int, b: Int): Int".to_string(),
        "external fun Util_Text_upper(s: Char): Char".to_string(),
    ];
    let text = generate_kotlin_file("Bindings", "com.example", "nativelib", &bindings);

    let mut stack: Vec<(Option<String>, usize)> = Vec::new();
    let mut seen: Vec<(String, usize)> = Vec::new();
    for line in text.lines().skip(2) {
        let trimmed = line.trim_start();
        let depth = (line.len() - trimmed.len()) / 4;
        if trimmed.starts_with("object ") && trimmed.ends_with(" {") {
            let name = &trimmed["object ".len()..trimmed.len() - 2];
            assert_eq!(depth, stack.len(), "container opens one level deeper");
            stack.push((Some(name.to_string()), 0));
        } else if trimmed.ends_with("{") {
            stack.push((None, 0));
        } else if trimmed == "}" {
            let (name, count) = stack.pop().unwrap();
            if let Some(name) = name {
                seen.push((name, count));
            }
        } else if trimmed.starts_with("external fun ") {
            stack.last_mut().unwrap().1 += 1;
        }
    }
    assert!(stack.is_empty());
    seen.sort();
    assert_eq!(
        seen,
        vec![
            ("Bindings".to_string(), 1),
            ("Math".to_string(), 2),
            ("Text".to_string(), 1),
            ("Util".to_string(), 0),
        ]
    );
}

#[test]
fn test_generate_kotlin_file_empty() {
    let text = generate_kotlin_file("Bindings", "com.example", "lib", &Vec::new());
    let expected = r#"package com.example;

object Bindings {
    init {
        System.loadLibrary("lib")
    }

}
"#;
    assert_eq!(text, expected);
}

// End-to-end: one package with a single `math::add` member yields a native
// stub under the mangled export name and a managed declaration nested in a
// container named for the `math` module.
#[test]
fn test_end_to_end_math_add() {
    let member = jni_bindgen::config::Member {
        member_type: "function".to_string(),
        name: "math::add".to_string(),
        inputs: Some(vec![
            jni_bindgen::config::Input { rust_type: "i32".to_string(), name: "a".to_string() },
            jni_bindgen::config::Input { rust_type: "i32".to_string(), name: "b".to_string() },
        ]),
        output: Some("i32".to_string()),
    };

    let stub = jni_bindgen::functions::generate_jni_function("com.example", &member).unwrap();
    assert!(stub.contains("pub extern \"C\" fn Java_com_example_math_add("));
    assert!(stub.contains("a: jint"));
    assert!(stub.contains("b: jint"));
    assert!(stub.contains("-> jint"));
    assert!(stub.contains("let result = add(a, b);"));

    let decl = jni_bindgen::functions::generate_kotlin_function(&member).unwrap();
    assert_eq!(decl, "external fun Math_add(a: Int, b: Int): Int");

    let file = generate_kotlin_file("Bindings", "com.example", "mathlib", &vec![decl]);
    let expected = r#"package com.example;

object Bindings {
    init {
        System.loadLibrary("mathlib")
    }

    object Math {
        external fun add(a: Int, b: Int): Int
    }
}
"#;
    assert_eq!(file, expected);
}
