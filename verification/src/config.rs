//! The manifest data model: packages, their function members, and the typed
//! parameter lists of those members. Parsing from the wire format is an
//! external collaborator's job; this module only defines the parsed shape.

use vstd::prelude::*;

use crate::types::is_supported_type;

verus! {

/// One typed parameter of a function member.
pub struct Input {
    /// The abstract scalar type name of the parameter.
    pub rust_type: String,
    /// The parameter name.
    pub name: String,
}

/// One member of a package: a function to bind, with its qualified name, its
/// parameters and its optional return type.
pub struct Member {
    /// The kind tag of the member; only `function` members are generated.
    pub member_type: String,
    /// The qualified name, module-path segments separated by `::`.
    pub name: String,
    /// The ordered parameter list, if any.
    pub inputs: Option<Vec<Input>>,
    /// The abstract type name of the return value, if any.
    pub output: Option<String>,
}

/// One package of the manifest: a name and its member list.
pub struct Crate {
    /// The package name.
    pub name: String,
    /// The ordered member list.
    pub members: Vec<Member>,
}

/// The parameter list of a member; an absent list is the empty list.
pub open spec fn inputs_of(m: Member) -> Seq<Input> {
    if m.inputs is Some {
        m.inputs->0@
    } else {
        Seq::<Input>::empty()
    }
}

/// Every parameter type of the member lies in the supported scalar set.
pub open spec fn all_inputs_supported(m: Member) -> bool {
    forall|k: int|
        0 <= k < inputs_of(m).len() ==> is_supported_type(#[trigger] inputs_of(m)[k].rust_type@)
}

/// The member's return type, if present, lies in the supported scalar set.
pub open spec fn output_supported(m: Member) -> bool {
    m.output is Some ==> is_supported_type(m.output->0@)
}

/// Every abstract type the member mentions lies in the supported scalar set.
pub open spec fn member_types_supported(m: Member) -> bool {
    all_inputs_supported(m) && output_supported(m)
}

} // verus!
