//! Generator for foreign-function bindings between a native library and a
//! managed runtime: JNI entry-point stubs on the native side and a mirrored
//! Kotlin declaration hierarchy on the managed side.

pub mod config;
pub mod functions;
pub mod kotlin;
pub mod names;
pub mod template;
pub mod text;
pub mod types;
