//! The scalar type-mapping tables: abstract scalar type names are mapped to
//! JNI type names on the native side and to Kotlin type names on the managed
//! side, and unsigned values get a fallible coercion at the boundary.

use vstd::prelude::*;

verus! {

/// Failure of the binding generator.
#[derive(Clone, Copy, Debug, PartialEq, Eq, Structural)]
pub enum BindingError {
    /// An abstract type outside the supported scalar set: the mapping refuses
    /// it rather than emit invalid code.
    UnsupportedType,
}

/// The closed set of supported abstract scalar type names.
pub open spec fn is_supported_type(t: Seq<char>) -> bool {
    ||| t == "i8"@
    ||| t == "i16"@
    ||| t == "i32"@
    ||| t == "i64"@
    ||| t == "u8"@
    ||| t == "u16"@
    ||| t == "u32"@
    ||| t == "u64"@
    ||| t == "f32"@
    ||| t == "f64"@
    ||| t == "bool"@
    ||| t == "char"@
}

/// The unsigned abstract types, whose values need a checked conversion at the
/// native boundary.
pub open spec fn is_unsigned_type(t: Seq<char>) -> bool {
    ||| t == "u8"@
    ||| t == "u16"@
    ||| t == "u32"@
    ||| t == "u64"@
}

/// The JNI type name of each supported abstract type.
pub open spec fn spec_jni_type(t: Seq<char>) -> Seq<char> {
    if t == "i8"@ || t == "u8"@ {
        "jbyte"@
    } else if t == "i16"@ || t == "u16"@ {
        "jshort"@
    } else if t == "i32"@ || t == "u32"@ {
        "jint"@
    } else if t == "i64"@ || t == "u64"@ {
        "jlong"@
    } else if t == "f32"@ {
        "jfloat"@
    } else if t == "f64"@ {
        "jdouble"@
    } else if t == "bool"@ {
        "jboolean"@
    } else if t == "char"@ {
        "jchar"@
    } else {
        t
    }
}

/// The Kotlin type name of each supported abstract type.
pub open spec fn spec_kotlin_type(t: Seq<char>) -> Seq<char> {
    if t == "i8"@ || t == "u8"@ {
        "Byte"@
    } else if t == "i16"@ || t == "u16"@ {
        "Short"@
    } else if t == "i32"@ || t == "u32"@ {
        "Int"@
    } else if t == "i64"@ || t == "u64"@ {
        "Long"@
    } else if t == "f32"@ {
        "Float"@
    } else if t == "f64"@ {
        "Double"@
    } else if t == "bool"@ {
        "Boolean"@
    } else if t == "char"@ {
        "Char"@
    } else {
        t
    }
}

/// The expression that carries a value of abstract type `t` named `name`
/// across the boundary: unsigned values are wrapped in a checked conversion
/// that fails at run time on overflow, all others pass through unchanged.
pub open spec fn spec_coerced(name: Seq<char>, t: Seq<char>) -> Seq<char> {
    if is_unsigned_type(t) {
        name + ".try_into().unwrap()"@
    } else {
        name
    }
}

/// Map an abstract scalar type name to its JNI type name; a type outside the
/// supported set is refused.
pub fn get_jni_type(rust_type: &str) -> (r: Result<String, BindingError>)
    ensures
        r is Ok <==> is_supported_type(rust_type@),
        r is Ok ==> r->Ok_0@ == spec_jni_type(rust_type@),
{
    if crate::text::str_eq(rust_type, "i8") || crate::text::str_eq(rust_type, "u8") {
        Ok(String::from_str("jbyte"))
    } else if crate::text::str_eq(rust_type, "i16") || crate::text::str_eq(rust_type, "u16") {
        Ok(String::from_str("jshort"))
    } else if crate::text::str_eq(rust_type, "i32") || crate::text::str_eq(rust_type, "u32") {
        Ok(String::from_str("jint"))
    } else if crate::text::str_eq(rust_type, "i64") || crate::text::str_eq(rust_type, "u64") {
        Ok(String::from_str("jlong"))
    } else if crate::text::str_eq(rust_type, "f32") {
        Ok(String::from_str("jfloat"))
    } else if crate::text::str_eq(rust_type, "f64") {
        Ok(String::from_str("jdouble"))
    } else if crate::text::str_eq(rust_type, "bool") {
        Ok(String::from_str("jboolean"))
    } else if crate::text::str_eq(rust_type, "char") {
        Ok(String::from_str("jchar"))
    } else {
        Err(BindingError::UnsupportedType)
    }
}

/// Map an abstract scalar type name to its Kotlin type name; a type outside
/// the supported set is refused.
pub fn get_kotlin_type(rust_type: &str) -> (r: Result<String, BindingError>)
    ensures
        r is Ok <==> is_supported_type(rust_type@),
        r is Ok ==> r->Ok_0@ == spec_kotlin_type(rust_type@),
{
    if crate::text::str_eq(rust_type, "i8") || crate::text::str_eq(rust_type, "u8") {
        Ok(String::from_str("Byte"))
    } else if crate::text::str_eq(rust_type, "i16") || crate::text::str_eq(rust_type, "u16") {
        Ok(String::from_str("Short"))
    } else if crate::text::str_eq(rust_type, "i32") || crate::text::str_eq(rust_type, "u32") {
        Ok(String::from_str("Int"))
    } else if crate::text::str_eq(rust_type, "i64") || crate::text::str_eq(rust_type, "u64") {
        Ok(String::from_str("Long"))
    } else if crate::text::str_eq(rust_type, "f32") {
        Ok(String::from_str("Float"))
    } else if crate::text::str_eq(rust_type, "f64") {
        Ok(String::from_str("Double"))
    } else if crate::text::str_eq(rust_type, "bool") {
        Ok(String::from_str("Boolean"))
    } else if crate::text::str_eq(rust_type, "char") {
        Ok(String::from_str("Char"))
    } else {
        Err(BindingError::UnsupportedType)
    }
}

/// Decide whether an abstract type is one of the unsigned integer types.
pub fn is_unsigned(rust_type: &str) -> (r: bool)
    ensures
        r == is_unsigned_type(rust_type@),
{
    crate::text::str_eq(rust_type, "u8") || crate::text::str_eq(rust_type, "u16")
        || crate::text::str_eq(rust_type, "u32") || crate::text::str_eq(rust_type, "u64")
}

/// The expression with which a JNI-side value named `name` is passed to the
/// native implementation: unsigned values get a checked conversion, all
/// others pass through.
pub fn convert_java_type_to_rust(name: &str, rust_type: &str) -> (r: String)
    ensures
        r@ == spec_coerced(name@, rust_type@),
{
    let mut s = name.to_owned();
    if is_unsigned(rust_type) {
        s.append(".try_into().unwrap()");
    }
    s
}

/// The expression with which a native result named `name` is returned to the
/// JNI caller: unsigned values get a checked conversion, all others pass
/// through.
pub fn convert_rust_type_to_java(name: &str, rust_type: &str) -> (r: String)
    ensures
        r@ == spec_coerced(name@, rust_type@),
{
    let mut s = name.to_owned();
    if is_unsigned(rust_type) {
        s.append(".try_into().unwrap()");
    }
    s
}

} // verus!
