use jni_bindgen::template::populate_template;

#[test]
fn test_populate_template_substitutes_every_occurrence() {
    let params = vec![("name".to_string(), "World".to_string())];
    assert_eq!(populate_template("Hello {name}! Bye {name}!", &params), "Hello World! Bye World!");
}

#[test]
fn test_populate_template_keeps_unbound_markers() {
    let params = vec![("name".to_string(), "World".to_string())];
    assert_eq!(populate_template("{greeting} {name}", &params), "{greeting} World");
}

#[test]
fn test_populate_template_order_does_not_matter() {
    let a = vec![
        ("first".to_string(), "1".to_string()),
        ("second".to_string(), "2".to_string()),
    ];
    let b = vec![
        ("second".to_string(), "2".to_string()),
        ("first".to_string(), "1".to_string()),
    ];
    let template = "{first}-{second}-{first}";
    assert_eq!(populate_template(template, &a), populate_template(template, &b));
    assert_eq!(populate_template(template, &a), "1-2-1");
}

#[test]
fn test_populate_template_leaves_plain_braces_alone() {
    let params = vec![("body".to_string(), "x".to_string())];
    assert_eq!(populate_template("fn f() { {body} }", &params), "fn f() { x }");
}
