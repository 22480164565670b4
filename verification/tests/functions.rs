use jni_bindgen::config::{Input, Member};
use jni_bindgen::functions::{
    generate_jni_function, generate_kotlin_function, get_jni_function_name,
    get_kotlin_function_name,
};
use jni_bindgen::types::BindingError;

fn member(name: &str, inputs: Option<Vec<(&str, &str)>>, output: Option<&str>) -> Member {
    Member {
        member_type: "function".to_string(),
        name: name.to_string(),
        inputs: inputs.map(|v| {
            v.into_iter()
                .map(|(n, t)| Input { name: n.to_string(), rust_type: t.to_string() })
                .collect()
        }),
        output: output.map(|o| o.to_string()),
    }
}

#[test]
fn test_jni_function_name() {
    assert_eq!(get_jni_function_name("com.example", "test::func"), "Java_com_example_test_func");
    assert_eq!(
        get_jni_function_name("com.example_test", "test::func"),
        "Java_com_example_1test_test_func"
    );
    assert_eq!(
        get_jni_function_name("com.example", "mod1::mod2::func"),
        "Java_com_example_mod1_mod2_func"
    );
}

#[test]
fn test_jni_function_name_no_modules() {
    assert_eq!(get_jni_function_name("com.example", "func"), "Java_com_example_func");
}

#[test]
fn test_jni_function_name_deterministic() {
    let a = get_jni_function_name("com.example", "mod::my-function");
    let b = get_jni_function_name("com.example", "mod::my-function");
    assert_eq!(a, b);
    assert_eq!(a, "Java_com_example_mod_myFunction");
}

#[test]
fn test_generate_jni_function() {
    let function = member("test::func", Some(vec![("arg1", "i32")]), Some("bool"));

    let expected = r#"#[unsafe(no_mangle)]
pub extern "C" fn Java_com_example_test_func(
    mut env: JNIEnv,
    _: JClass,
    arg1: jint
) -> jboolean {
    let result = func(arg1);
    result
}"#;

    assert_eq!(generate_jni_function("com.example", &function).unwrap(), expected);
}

#[test]
fn test_generate_jni_function_no_inputs_no_output() {
    let function = member("ping", None, None);

    let expected = r#"#[unsafe(no_mangle)]
pub extern "C" fn Java_com_example_ping(
    mut env: JNIEnv,
    _: JClass,

) {
    ping();
    
}"#;

    assert_eq!(generate_jni_function("com.example", &function).unwrap(), expected);
}

#[test]
fn test_generate_jni_function_unsigned_coercion() {
    let function = member("m::f", Some(vec![("a", "u32"), ("b", "i32")]), Some("u64"));
    let stub = generate_jni_function("com.example", &function).unwrap();
    assert!(stub.contains("f(a.try_into().unwrap(), b);"));
    assert!(stub.contains("result.try_into().unwrap()"));
    assert!(stub.contains("a: jint"));
    assert!(stub.contains("b: jint"));
    assert!(stub.contains("-> jlong"));
}

#[test]
fn test_generate_jni_function_signed_no_coercion() {
    let function = member(
        "m::f",
        Some(vec![("a", "i8"), ("b", "f32"), ("c", "bool"), ("d", "char")]),
        Some("i64"),
    );
    let stub = generate_jni_function("com.example", &function).unwrap();
    assert!(stub.contains("f(a, b, c, d);"));
    assert!(!stub.contains("try_into"));
}

#[test]
fn test_generate_jni_function_unsupported_type() {
    let function = member("m::f", Some(vec![("a", "String")]), None);
    assert_eq!(
        generate_jni_function("com.example", &function),
        Err(BindingError::UnsupportedType)
    );
    let function = member("m::f", None, Some("Vec<u8>"));
    assert_eq!(
        generate_jni_function("com.example", &function),
        Err(BindingError::UnsupportedType)
    );
}

#[test]
fn test_kotlin_function_name() {
    assert_eq!(get_kotlin_function_name("math::add"), "Math_add");
    assert_eq!(get_kotlin_function_name("mod1::mod2::my-function"), "Mod1_Mod2_myFunction");
    assert_eq!(get_kotlin_function_name("solo"), "solo");
}

#[test]
fn test_generate_kotlin_function() {
    let function = member("math::add", Some(vec![("a", "i32"), ("b", "i32")]), Some("i32"));
    assert_eq!(
        generate_kotlin_function(&function).unwrap(),
        "external fun Math_add(a: Int, b: Int): Int"
    );
}

#[test]
fn test_generate_kotlin_function_no_output() {
    let function = member("log::write", Some(vec![("level", "u8")]), None);
    assert_eq!(
        generate_kotlin_function(&function).unwrap(),
        "external fun Log_write(level: Byte)"
    );
}

#[test]
fn test_generate_kotlin_function_unsupported_type() {
    let function = member("m::f", Some(vec![("a", "isize")]), None);
    assert_eq!(generate_kotlin_function(&function), Err(BindingError::UnsupportedType));
}
