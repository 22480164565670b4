use jni_bindgen::names::{get_modules, get_unqualified_name, to_camel_case, to_pascal_case};

#[test]
fn test_to_pascal_case() {
    assert_eq!(to_pascal_case("hello-world"), "HelloWorld");
    assert_eq!(to_pascal_case("foo_bar"), "FooBar");
    assert_eq!(to_pascal_case("simple"), "Simple");
    assert_eq!(to_pascal_case("ALREADY_UPPER"), "AlreadyUpper");
    assert_eq!(to_pascal_case(""), "");
}

#[test]
fn test_to_camel_case() {
    assert_eq!(to_camel_case("hello-world"), "helloWorld");
    assert_eq!(to_camel_case("foo_bar"), "fooBar");
    assert_eq!(to_camel_case("simple"), "simple");
    assert_eq!(to_camel_case("ALREADY_UPPER"), "alreadyUpper");
    assert_eq!(to_camel_case(""), "");
}

#[test]
fn test_get_modules() {
    assert_eq!(get_modules("a::b::c"), vec!["a".to_string(), "b".to_string()]);
    assert_eq!(get_modules("x::y"), vec!["x".to_string()]);
    assert_eq!(get_modules("single"), Vec::<String>::new());
}

#[test]
fn test_get_unqualified_name() {
    assert_eq!(get_unqualified_name("a::b::c"), "c");
    assert_eq!(get_unqualified_name("x::y"), "y");
    assert_eq!(get_unqualified_name("single"), "single");
}
