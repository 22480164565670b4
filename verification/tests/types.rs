use jni_bindgen::types::{
    convert_java_type_to_rust, convert_rust_type_to_java, get_jni_type, get_kotlin_type,
    BindingError,
};

#[test]
fn test_get_jni_type() {
    assert_eq!(get_jni_type("i8").unwrap(), "jbyte");
    assert_eq!(get_jni_type("i16").unwrap(), "jshort");
    assert_eq!(get_jni_type("i32").unwrap(), "jint");
    assert_eq!(get_jni_type("i64").unwrap(), "jlong");
    assert_eq!(get_jni_type("u8").unwrap(), "jbyte");
    assert_eq!(get_jni_type("u16").unwrap(), "jshort");
    assert_eq!(get_jni_type("u32").unwrap(), "jint");
    assert_eq!(get_jni_type("u64").unwrap(), "jlong");
    assert_eq!(get_jni_type("f32").unwrap(), "jfloat");
    assert_eq!(get_jni_type("f64").unwrap(), "jdouble");
    assert_eq!(get_jni_type("bool").unwrap(), "jboolean");
    assert_eq!(get_jni_type("char").unwrap(), "jchar");
}

#[test]
fn test_get_kotlin_type() {
    assert_eq!(get_kotlin_type("i8").unwrap(), "Byte");
    assert_eq!(get_kotlin_type("i16").unwrap(), "Short");
    assert_eq!(get_kotlin_type("i32").unwrap(), "Int");
    assert_eq!(get_kotlin_type("i64").unwrap(), "Long");
    assert_eq!(get_kotlin_type("u8").unwrap(), "Byte");
    assert_eq!(get_kotlin_type("u16").unwrap(), "Short");
    assert_eq!(get_kotlin_type("u32").unwrap(), "Int");
    assert_eq!(get_kotlin_type("u64").unwrap(), "Long");
    assert_eq!(get_kotlin_type("f32").unwrap(), "Float");
    assert_eq!(get_kotlin_type("f64").unwrap(), "Double");
    assert_eq!(get_kotlin_type("bool").unwrap(), "Boolean");
    assert_eq!(get_kotlin_type("char").unwrap(), "Char");
}

#[test]
fn test_get_jni_type_unsupported() {
    assert_eq!(get_jni_type("unsupported"), Err(BindingError::UnsupportedType));
    assert_eq!(get_jni_type("String"), Err(BindingError::UnsupportedType));
    assert_eq!(get_jni_type(""), Err(BindingError::UnsupportedType));
}

#[test]
fn test_get_kotlin_type_unsupported() {
    assert_eq!(get_kotlin_type("unsupported"), Err(BindingError::UnsupportedType));
    assert_eq!(get_kotlin_type("String"), Err(BindingError::UnsupportedType));
}

#[test]
fn test_convert_java_type_to_rust() {
    assert_eq!(convert_java_type_to_rust("x", "u8"), "x.try_into().unwrap()");
    assert_eq!(convert_java_type_to_rust("x", "u16"), "x.try_into().unwrap()");
    assert_eq!(convert_java_type_to_rust("x", "u32"), "x.try_into().unwrap()");
    assert_eq!(convert_java_type_to_rust("x", "u64"), "x.try_into().unwrap()");
    assert_eq!(convert_java_type_to_rust("x", "i32"), "x");
    assert_eq!(convert_java_type_to_rust("x", "f32"), "x");
    assert_eq!(convert_java_type_to_rust("x", "bool"), "x");
    assert_eq!(convert_java_type_to_rust("x", "char"), "x");
}

#[test]
fn test_convert_rust_type_to_java() {
    assert_eq!(convert_rust_type_to_java("result", "u32"), "result.try_into().unwrap()");
    assert_eq!(convert_rust_type_to_java("result", "i64"), "result");
    assert_eq!(convert_rust_type_to_java("result", "f64"), "result");
}
