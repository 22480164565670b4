//! Per-function generation: the mangled JNI export name, the native
//! entry-point stub, and the flat Kotlin external-function declaration.

use vstd::prelude::*;

use crate::config::{all_inputs_supported, inputs_of, member_types_supported, Input, Member};
use crate::names::{camel_chars, pascal_chars, spec_camel, spec_leaf, spec_modules, spec_pascal};
use crate::template::{pairs_view, populate_template, spec_populate};
use crate::text::{
    chars_to_string, join_chars, lemma_split_nonempty, matches_at, push_all, replace_chars,
    split_chars, spec_join, spec_replace_all, str_chars, views_of_chars,
};
use crate::types::{
    convert_java_type_to_rust, convert_rust_type_to_java, get_jni_type, get_kotlin_type,
    is_supported_type, is_unsigned_type, spec_coerced, spec_jni_type, spec_kotlin_type,
    BindingError,
};

verus! {

/// The package identifier with its literal underscores escaped and its dots
/// turned into underscores, so that the mangling scheme's own separators stay
/// unambiguous.
pub open spec fn spec_escaped_package(pkg: Seq<char>) -> Seq<char> {
    spec_replace_all(spec_replace_all(pkg, "_"@, "_1"@), "."@, "_"@)
}

/// The flat JNI export symbol of a function: the fixed `Java` prefix, the
/// escaped package, the module-path segments passed through unchanged, and
/// the camel-cased leaf name, all joined by underscores. An empty module path
/// contributes nothing.
pub open spec fn spec_mangled(pkg: Seq<char>, qualified: Seq<char>) -> Seq<char> {
    spec_join(
        seq!["Java"@, spec_escaped_package(pkg)] + spec_modules(qualified) + seq![
            spec_camel(spec_leaf(qualified)),
        ],
        "_"@,
    )
}

/// Derive the JNI export name of a function from the managed package
/// identifier and the function's qualified name.
pub fn get_jni_function_name(java_package: &str, name: &str) -> (r: String)
    ensures
        r@ == spec_mangled(java_package@, name@),
{
    let pkg = str_chars(java_package);
    let underscore = str_chars("_");
    let escaped_underscore = str_chars("_1");
    let dot = str_chars(".");
    proof {
        reveal_strlit("_");
        reveal_strlit(".");
    }
    let p1 = replace_chars(&pkg, &underscore, &escaped_underscore);
    let escaped = replace_chars(&p1, &dot, &underscore);

    let qv = str_chars(name);
    let path_sep = str_chars("::");
    proof {
        reveal_strlit("::");
    }
    let segs = split_chars(&qv, &path_sep);
    proof {
        lemma_split_nonempty(qv@, path_sep@);
        assert(views_of_chars(segs@).len() == segs@.len());
    }
    let nsegs: usize = segs.len();

    let mut parts: Vec<Vec<char>> = Vec::new();
    parts.push(str_chars("Java"));
    parts.push(escaped);
    proof {
        assert(views_of_chars(parts@) =~= seq!["Java"@, spec_escaped_package(java_package@)]);
    }
    let mut i: usize = 0;
    while i < nsegs - 1
        invariant
            nsegs == segs@.len(),
            nsegs >= 1,
            i <= nsegs - 1,
            views_of_chars(segs@) == crate::names::spec_segments(name@),
            views_of_chars(parts@) == seq!["Java"@, spec_escaped_package(java_package@)]
                + spec_modules(name@).take(i as int),
        decreases nsegs - i,
    {
        let mut seg: Vec<char> = Vec::new();
        push_all(&mut seg, &segs[i]);
        proof {
            assert(seg@ == views_of_chars(segs@)[i as int]);
            assert(views_of_chars(parts@.push(seg)) =~= views_of_chars(parts@).push(seg@));
            assert(spec_modules(name@).take(i + 1) =~= spec_modules(name@).take(i as int).push(
                spec_modules(name@)[i as int],
            ));
            assert((seq!["Java"@, spec_escaped_package(java_package@)] + spec_modules(name@).take(
                i as int,
            )).push(spec_modules(name@)[i as int]) =~= seq![
                "Java"@,
                spec_escaped_package(java_package@),
            ] + spec_modules(name@).take(i + 1));
        }
        parts.push(seg);
        i = i + 1;
    }
    proof {
        assert(spec_modules(name@).take(nsegs - 1) =~= spec_modules(name@));
        assert(views_of_chars(segs@)[nsegs - 1] == crate::names::spec_leaf(name@));
    }
    let leaf = camel_chars(&segs[nsegs - 1]);
    proof {
        assert(views_of_chars(parts@.push(leaf)) =~= views_of_chars(parts@).push(leaf@));
        assert((seq!["Java"@, spec_escaped_package(java_package@)] + spec_modules(name@)).push(
            spec_camel(spec_leaf(name@)),
        ) =~= seq!["Java"@, spec_escaped_package(java_package@)] + spec_modules(name@) + seq![
            spec_camel(spec_leaf(name@)),
        ]);
    }
    parts.push(leaf);
    let joined = join_chars(&parts, &underscore);
    chars_to_string(&joined)
}

/// Law: name mangling is deterministic and pure — the mangled symbol is a
/// function of the package identifier and the qualified name alone, so equal
/// inputs always give equal symbols.
pub proof fn lemma_mangle_deterministic(
    pkg1: Seq<char>,
    name1: Seq<char>,
    pkg2: Seq<char>,
    name2: Seq<char>,
)
    requires
        pkg1 == pkg2,
        name1 == name2,
    ensures
        spec_mangled(pkg1, name1) == spec_mangled(pkg2, name2),
{
}

/// The template of one native entry-point stub.
pub open spec fn jni_template() -> Seq<char> {
    "#[unsafe(no_mangle)]\npub extern \"C\" fn {name}(\n    mut env: JNIEnv,\n    _: JClass,\n{params}\n){ret_type} {\n    {result_assignment}{func_name}({args});\n    {return}\n}"@
}

/// The template of one Kotlin external-function declaration.
pub open spec fn kotlin_fn_template() -> Seq<char> {
    "external fun {name}({params}){ret_type}"@
}

/// One JNI stub parameter line.
pub open spec fn spec_jni_param(i: Input) -> Seq<char> {
    "    "@ + i.name@ + ": "@ + spec_jni_type(i.rust_type@)
}

/// The JNI stub parameter lines, joined.
pub open spec fn spec_jni_params(m: Member) -> Seq<char> {
    spec_join(inputs_of(m).map_values(|i: Input| spec_jni_param(i)), ",\n"@)
}

/// The argument list of the call-through, each argument coerced as its type
/// demands.
pub open spec fn spec_jni_args(m: Member) -> Seq<char> {
    spec_join(inputs_of(m).map_values(|i: Input| spec_coerced(i.name@, i.rust_type@)), ", "@)
}

/// The return-type suffix of the stub signature, or nothing.
pub open spec fn spec_jni_ret_type(m: Member) -> Seq<char> {
    if m.output is Some {
        " -> "@ + spec_jni_type(m.output->0@)
    } else {
        Seq::<char>::empty()
    }
}

/// The binding of the call-through's result, or nothing.
pub open spec fn spec_result_assignment(m: Member) -> Seq<char> {
    if m.output is Some {
        "let result = "@
    } else {
        Seq::<char>::empty()
    }
}

/// The returned expression, coerced as the return type demands, or nothing.
pub open spec fn spec_return_expr(m: Member) -> Seq<char> {
    if m.output is Some {
        spec_coerced("result"@, m.output->0@)
    } else {
        Seq::<char>::empty()
    }
}

/// The key/value bindings with which the stub template is rendered.
pub open spec fn spec_jni_bindings(pkg: Seq<char>, m: Member) -> Seq<(Seq<char>, Seq<char>)> {
    seq![
        ("name"@, spec_mangled(pkg, m.name@)),
        ("params"@, spec_jni_params(m)),
        ("ret_type"@, spec_jni_ret_type(m)),
        ("result_assignment"@, spec_result_assignment(m)),
        ("func_name"@, spec_leaf(m.name@)),
        ("args"@, spec_jni_args(m)),
        ("return"@, spec_return_expr(m)),
    ]
}

fn jni_template_text() -> (r: &'static str)
    ensures
        r@ == jni_template(),
{
    "#[unsafe(no_mangle)]\npub extern \"C\" fn {name}(\n    mut env: JNIEnv,\n    _: JClass,\n{params}\n){ret_type} {\n    {result_assignment}{func_name}({args});\n    {return}\n}"
}

fn kotlin_fn_template_text() -> (r: &'static str)
    ensures
        r@ == kotlin_fn_template(),
{
    "external fun {name}({params}){ret_type}"
}

/// Generate the native entry-point stub of one function member: the mangled
/// export name, the implicit JNI context parameters, the mapped parameter
/// list, the optional mapped return type, and a body that performs the
/// coerced call-through. A member mentioning an unsupported abstract type is
/// refused.
pub fn generate_jni_function(java_package: &str, function: &Member) -> (r: Result<
    String,
    BindingError,
>)
    ensures
        r is Ok <==> member_types_supported(*function),
        r is Ok ==> r->Ok_0@ == spec_populate(
            jni_template(),
            spec_jni_bindings(java_package@, *function),
        ),
        r is Err ==> r->Err_0 == BindingError::UnsupportedType,
{
    let mut param_parts: Vec<Vec<char>> = Vec::new();
    let mut arg_parts: Vec<Vec<char>> = Vec::new();
    match &function.inputs {
        Some(inputs) => {
            let n: usize = inputs.len();
            let mut k: usize = 0;
            proof {
                assert(inputs@ == inputs_of(*function));
            }
            while k < n
                invariant
                    inputs@ == inputs_of(*function),
                    n == inputs@.len(),
                    k <= n,
                    forall|j: int|
                        0 <= j < k ==> is_supported_type(#[trigger] inputs@[j].rust_type@),
                    views_of_chars(param_parts@) == inputs@.take(k as int).map_values(
                        |i: Input| spec_jni_param(i),
                    ),
                    views_of_chars(arg_parts@) == inputs@.take(k as int).map_values(
                        |i: Input| spec_coerced(i.name@, i.rust_type@),
                    ),
                decreases n - k,
            {
                let inp = &inputs[k];
                let jni_ty = match get_jni_type(inp.rust_type.as_str()) {
                    Ok(t) => t,
                    Err(e) => {
                        proof {
                            assert(inputs_of(*function)[k as int].rust_type@ == inp.rust_type@);
                            assert(!all_inputs_supported(*function));
                        }
                        return Err(e);
                    },
                };
                let indent = str_chars("    ");
                let colon = str_chars(": ");
                let name_chars = str_chars(inp.name.as_str());
                let ty_chars = str_chars(jni_ty.as_str());
                let mut pc: Vec<char> = Vec::new();
                push_all(&mut pc, &indent);
                push_all(&mut pc, &name_chars);
                push_all(&mut pc, &colon);
                push_all(&mut pc, &ty_chars);
                let arg = convert_java_type_to_rust(inp.name.as_str(), inp.rust_type.as_str());
                let ac = str_chars(arg.as_str());
                proof {
                    assert(pc@ =~= spec_jni_param(inputs@[k as int]));
                    assert(views_of_chars(param_parts@.push(pc)) =~= views_of_chars(
                        param_parts@,
                    ).push(pc@));
                    assert(views_of_chars(arg_parts@.push(ac)) =~= views_of_chars(
                        arg_parts@,
                    ).push(ac@));
                    assert(inputs@.take(k + 1) =~= inputs@.take(k as int).push(inputs@[k as int]));
                    assert(inputs@.take(k + 1).map_values(|i: Input| spec_jni_param(i))
                        =~= inputs@.take(k as int).map_values(|i: Input| spec_jni_param(i)).push(
                        spec_jni_param(inputs@[k as int]),
                    ));
                    assert(inputs@.take(k + 1).map_values(
                        |i: Input| spec_coerced(i.name@, i.rust_type@),
                    ) =~= inputs@.take(k as int).map_values(
                        |i: Input| spec_coerced(i.name@, i.rust_type@),
                    ).push(spec_coerced(inputs@[k as int].name@, inputs@[k as int].rust_type@)));
                }
                param_parts.push(pc);
                arg_parts.push(ac);
                k = k + 1;
            }
            proof {
                assert(inputs@.take(n as int) =~= inputs@);
            }
        },
        None => {
            proof {
                assert(inputs_of(*function) =~= Seq::<Input>::empty());
                assert(views_of_chars(param_parts@) =~= inputs_of(*function).map_values(
                    |i: Input| spec_jni_param(i),
                ));
                assert(views_of_chars(arg_parts@) =~= inputs_of(*function).map_values(
                    |i: Input| spec_coerced(i.name@, i.rust_type@),
                ));
            }
        },
    }
    let param_sep = str_chars(",\n");
    let arg_sep = str_chars(", ");
    let params_joined = join_chars(&param_parts, &param_sep);
    let args_joined = join_chars(&arg_parts, &arg_sep);

    let ret_type_s: String;
    let result_assign_s: String;
    let return_s: String;
    match &function.output {
        Some(o) => {
            let t = match get_jni_type(o.as_str()) {
                Ok(t) => t,
                Err(e) => {
                    return Err(e);
                },
            };
            let mut rt = String::from_str(" -> ");
            rt.append(t.as_str());
            ret_type_s = rt;
            result_assign_s = String::from_str("let result = ");
            return_s = convert_rust_type_to_java("result", o.as_str());
        },
        None => {
            ret_type_s = String::new();
            result_assign_s = String::new();
            return_s = String::new();
        },
    }

    let mangled = get_jni_function_name(java_package, function.name.as_str());
    let func_name = crate::names::get_unqualified_name(function.name.as_str());
    let params_s = chars_to_string(&params_joined);
    let args_s = chars_to_string(&args_joined);

    let mut bindings: Vec<(String, String)> = Vec::new();
    bindings.push((String::from_str("name"), mangled));
    bindings.push((String::from_str("params"), params_s));
    bindings.push((String::from_str("ret_type"), ret_type_s));
    bindings.push((String::from_str("result_assignment"), result_assign_s));
    bindings.push((String::from_str("func_name"), func_name));
    bindings.push((String::from_str("args"), args_s));
    bindings.push((String::from_str("return"), return_s));
    proof {
        assert(pairs_view(bindings@) =~= spec_jni_bindings(java_package@, *function));
    }
    Ok(populate_template(jni_template_text(), &bindings))
}

/// Law: unsigned-type coercion at the native boundary. In the argument list
/// of a stub's call-through, the argument generated for a parameter of an
/// unsigned abstract type is the parameter's name wrapped in a fallible
/// conversion that fails at run time on overflow; the argument generated for
/// a parameter of any other type is the bare name, unchanged.
pub proof fn lemma_unsigned_coercion(m: Member, k: int)
    requires
        0 <= k < inputs_of(m).len(),
    ensures
        is_unsigned_type(inputs_of(m)[k].rust_type@) ==> inputs_of(m).map_values(
            |i: Input| spec_coerced(i.name@, i.rust_type@),
        )[k] == inputs_of(m)[k].name@ + ".try_into().unwrap()"@,
        !is_unsigned_type(inputs_of(m)[k].rust_type@) ==> inputs_of(m).map_values(
            |i: Input| spec_coerced(i.name@, i.rust_type@),
        )[k] == inputs_of(m)[k].name@,
{
}

#[verifier::rlimit(100)]
#[verifier::spinoff_prover]
proof fn lemma_jni_template_text(
    v1: Seq<char>,
    v2: Seq<char>,
    v3: Seq<char>,
    v4: Seq<char>,
    v5: Seq<char>,
    v6: Seq<char>,
    v7: Seq<char>,
)
    requires
        crate::template::brace_free(v1),
        crate::template::brace_free(v2),
        crate::template::brace_free(v3),
        crate::template::brace_free(v4),
        crate::template::brace_free(v5),
        crate::template::brace_free(v6),
        crate::template::brace_free(v7),
    ensures
        spec_populate(
            jni_template(),
            seq![
                ("name"@, v1),
                ("params"@, v2),
                ("ret_type"@, v3),
                ("result_assignment"@, v4),
                ("func_name"@, v5),
                ("args"@, v6),
                ("return"@, v7),
            ],
        ) == "#[unsafe(no_mangle)]\npub extern \"C\" fn "@ + v1
            + "(\n    mut env: JNIEnv,\n    _: JClass,\n"@ + v2 + "\n)"@ + v3 + " {\n    "@ + v4
            + v5 + "("@ + v6 + ");\n    "@ + v7 + "\n}"@,
{
    reveal_strlit(
        "#[unsafe(no_mangle)]\npub extern \"C\" fn {name}(\n    mut env: JNIEnv,\n    _: JClass,\n{params}\n){ret_type} {\n    {result_assignment}{func_name}({args});\n    {return}\n}",
    );
    reveal_strlit("#[unsafe(no_mangle)]\npub extern \"C\" fn ");
    reveal_strlit("(\n    mut env: JNIEnv,\n    _: JClass,\n");
    reveal_strlit("\n)");
    reveal_strlit(" {\n    ");
    reveal_strlit("(");
    reveal_strlit(");\n    ");
    reveal_strlit("\n}");
    reveal_strlit("{name}");
    reveal_strlit("{params}");
    reveal_strlit("{ret_type}");
    reveal_strlit("{result_assignment}");
    reveal_strlit("{func_name}");
    reveal_strlit("{args}");
    reveal_strlit("{return}");
    reveal_strlit("name");
    reveal_strlit("params");
    reveal_strlit("ret_type");
    reveal_strlit("result_assignment");
    reveal_strlit("func_name");
    reveal_strlit("args");
    reveal_strlit("return");
    let c0 = "#[unsafe(no_mangle)]\npub extern \"C\" fn "@;
    let c1 = "(\n    mut env: JNIEnv,\n    _: JClass,\n"@;
    let c2 = "\n)"@;
    let c3 = " {\n    "@;
    let c5 = "("@;
    let c6 = ");\n    "@;
    let c7 = "\n}"@;
    let p1 = crate::template::marker_of("name"@);
    let p2 = crate::template::marker_of("params"@);
    let p3 = crate::template::marker_of("ret_type"@);
    let p4 = crate::template::marker_of("result_assignment"@);
    let p5 = crate::template::marker_of("func_name"@);
    let p6 = crate::template::marker_of("args"@);
    let p7 = crate::template::marker_of("return"@);
    assert(p1 =~= "{name}"@);
    assert(p2 =~= "{params}"@);
    assert(p3 =~= "{ret_type}"@);
    assert(p4 =~= "{result_assignment}"@);
    assert(p5 =~= "{func_name}"@);
    assert(p6 =~= "{args}"@);
    assert(p7 =~= "{return}"@);

    let s7 = c7;
    let s6 = c6 + p7 + c7;
    let s5 = c5 + p6 + s6;
    let s4 = p5 + s5;
    let s3 = c3 + p4 + s4;
    let s2 = c2 + p3 + s3;
    let s1 = c1 + p2 + s2;
    assert(jni_template() =~= c0 + (p1 + s1));

    let x1 = c0;
    assert(crate::template::brace_free(x1));
    crate::template::lemma_marker_skips_brace_free_prefix(x1, p1 + s1, "name"@, v1);
    crate::template::lemma_replace_at_head(s1, p1, v1);
    assert forall|i: int| !matches_at(s1, p1, i) by {
        if matches_at(s1, p1, i) {
            assert(s1.subrange(i, i + p1.len())[0] == s1[i]);
            assert(s1.subrange(i, i + p1.len())[1] == s1[i + 1]);
            assert(s1.subrange(i, i + p1.len())[3] == s1[i + 3]);
            assert(s1.subrange(i, i + p1.len())[4] == s1[i + 4]);
            assert(false);
        }
    }
    crate::template::lemma_replace_none(s1, p1, v1);
    let r1 = spec_replace_all(jni_template(), p1, v1);
    assert((p1 + s1).skip(p1.len() as int) =~= s1);
    assert(r1 == x1 + (v1 + s1));

    let x2 = x1 + v1 + c1;
    assert(crate::template::brace_free(x2));
    assert(r1 =~= x2 + (p2 + s2));
    crate::template::lemma_marker_skips_brace_free_prefix(x2, p2 + s2, "params"@, v2);
    crate::template::lemma_replace_at_head(s2, p2, v2);
    assert forall|i: int| !matches_at(s2, p2, i) by {
        if matches_at(s2, p2, i) {
            assert(s2.subrange(i, i + p2.len())[0] == s2[i]);
            assert(s2.subrange(i, i + p2.len())[1] == s2[i + 1]);
            assert(s2.subrange(i, i + p2.len())[3] == s2[i + 3]);
            assert(s2.subrange(i, i + p2.len())[4] == s2[i + 4]);
            assert(false);
        }
    }
    crate::template::lemma_replace_none(s2, p2, v2);
    let r2 = spec_replace_all(r1, p2, v2);
    assert((p2 + s2).skip(p2.len() as int) =~= s2);
    assert(r2 == x2 + (v2 + s2));

    let x3 = x2 + v2 + c2;
    assert(crate::template::brace_free(x3));
    assert(r2 =~= x3 + (p3 + s3));
    crate::template::lemma_marker_skips_brace_free_prefix(x3, p3 + s3, "ret_type"@, v3);
    crate::template::lemma_replace_at_head(s3, p3, v3);
    assert forall|i: int| !matches_at(s3, p3, i) by {
        if matches_at(s3, p3, i) {
            assert(s3.subrange(i, i + p3.len())[0] == s3[i]);
            assert(s3.subrange(i, i + p3.len())[1] == s3[i + 1]);
            assert(s3.subrange(i, i + p3.len())[3] == s3[i + 3]);
            assert(s3.subrange(i, i + p3.len())[4] == s3[i + 4]);
            assert(false);
        }
    }
    crate::template::lemma_replace_none(s3, p3, v3);
    let r3 = spec_replace_all(r2, p3, v3);
    assert((p3 + s3).skip(p3.len() as int) =~= s3);
    assert(r3 == x3 + (v3 + s3));

    // From here on the settled prefix holds the literal opening brace of the
    // stub body; a marker match there is refuted by the newline after it.
    let x4 = x3 + v3 + c3;
    assert(r3 =~= x4 + (p4 + s4));
    assert forall|i: int| 0 <= i < x4.len() implies !matches_at(x4 + (p4 + s4), p4, i) by {
        let t = x4 + (p4 + s4);
        if matches_at(t, p4, i) {
            assert(t.subrange(i, i + p4.len())[0] == t[i]);
            assert(t.subrange(i, i + p4.len())[1] == t[i + 1]);
            assert(false);
        }
    }
    crate::template::lemma_replace_skips_prefix(x4, p4 + s4, p4, v4);
    crate::template::lemma_replace_at_head(s4, p4, v4);
    assert forall|i: int| !matches_at(s4, p4, i) by {
        if matches_at(s4, p4, i) {
            assert(s4.subrange(i, i + p4.len())[0] == s4[i]);
            assert(s4.subrange(i, i + p4.len())[1] == s4[i + 1]);
            assert(s4.subrange(i, i + p4.len())[3] == s4[i + 3]);
            assert(false);
        }
    }
    crate::template::lemma_replace_none(s4, p4, v4);
    let r4 = spec_replace_all(r3, p4, v4);
    assert((p4 + s4).skip(p4.len() as int) =~= s4);
    assert(r4 == x4 + (v4 + s4));

    let x5 = x4 + v4;
    assert(r4 =~= x5 + (p5 + s5));
    assert forall|i: int| 0 <= i < x5.len() implies !matches_at(x5 + (p5 + s5), p5, i) by {
        let t = x5 + (p5 + s5);
        if matches_at(t, p5, i) {
            assert(t.subrange(i, i + p5.len())[0] == t[i]);
            assert(t.subrange(i, i + p5.len())[1] == t[i + 1]);
            assert(false);
        }
    }
    crate::template::lemma_replace_skips_prefix(x5, p5 + s5, p5, v5);
    crate::template::lemma_replace_at_head(s5, p5, v5);
    assert forall|i: int| !matches_at(s5, p5, i) by {
        if matches_at(s5, p5, i) {
            assert(s5.subrange(i, i + p5.len())[0] == s5[i]);
            assert(s5.subrange(i, i + p5.len())[1] == s5[i + 1]);
            assert(false);
        }
    }
    crate::template::lemma_replace_none(s5, p5, v5);
    let r5 = spec_replace_all(r4, p5, v5);
    assert((p5 + s5).skip(p5.len() as int) =~= s5);
    assert(r5 == x5 + (v5 + s5));

    let x6 = x5 + v5 + c5;
    assert(r5 =~= x6 + (p6 + s6));
    assert forall|i: int| 0 <= i < x6.len() implies !matches_at(x6 + (p6 + s6), p6, i) by {
        let t = x6 + (p6 + s6);
        if matches_at(t, p6, i) {
            assert(t.subrange(i, i + p6.len())[0] == t[i]);
            assert(t.subrange(i, i + p6.len())[1] == t[i + 1]);
            assert(false);
        }
    }
    crate::template::lemma_replace_skips_prefix(x6, p6 + s6, p6, v6);
    crate::template::lemma_replace_at_head(s6, p6, v6);
    assert forall|i: int| !matches_at(s6, p6, i) by {
        if matches_at(s6, p6, i) {
            assert(s6.subrange(i, i + p6.len())[0] == s6[i]);
            assert(s6.subrange(i, i + p6.len())[1] == s6[i + 1]);
            assert(false);
        }
    }
    crate::template::lemma_replace_none(s6, p6, v6);
    let r6 = spec_replace_all(r5, p6, v6);
    assert((p6 + s6).skip(p6.len() as int) =~= s6);
    assert(r6 == x6 + (v6 + s6));

    let x7 = x6 + v6 + c6;
    assert(r6 =~= x7 + (p7 + s7));
    assert forall|i: int| 0 <= i < x7.len() implies !matches_at(x7 + (p7 + s7), p7, i) by {
        let t = x7 + (p7 + s7);
        if matches_at(t, p7, i) {
            assert(t.subrange(i, i + p7.len())[0] == t[i]);
            assert(t.subrange(i, i + p7.len())[1] == t[i + 1]);
            assert(false);
        }
    }
    crate::template::lemma_replace_skips_prefix(x7, p7 + s7, p7, v7);
    crate::template::lemma_replace_at_head(s7, p7, v7);
    assert(crate::template::brace_free(s7));
    crate::template::lemma_marker_misses_brace_free(s7, "return"@, v7);
    let r7 = spec_replace_all(r6, p7, v7);
    assert((p7 + s7).skip(p7.len() as int) =~= s7);
    assert(r7 == x7 + (v7 + s7));

    let bs = seq![
        ("name"@, v1),
        ("params"@, v2),
        ("ret_type"@, v3),
        ("result_assignment"@, v4),
        ("func_name"@, v5),
        ("args"@, v6),
        ("return"@, v7),
    ];
    let bs1 = bs.drop_first();
    let bs2 = bs1.drop_first();
    let bs3 = bs2.drop_first();
    let bs4 = bs3.drop_first();
    let bs5 = bs4.drop_first();
    let bs6 = bs5.drop_first();
    let bs7 = bs6.drop_first();
    assert(bs1 =~= bs.subrange(1, 7));
    assert(bs2 =~= bs.subrange(2, 7));
    assert(bs3 =~= bs.subrange(3, 7));
    assert(bs4 =~= bs.subrange(4, 7));
    assert(bs5 =~= bs.subrange(5, 7));
    assert(bs6 =~= bs.subrange(6, 7));
    assert(bs7 =~= Seq::<(Seq<char>, Seq<char>)>::empty());
    assert(spec_populate(jni_template(), bs) == spec_populate(r1, bs1));
    assert(spec_populate(r1, bs1) == spec_populate(r2, bs2));
    assert(spec_populate(r2, bs2) == spec_populate(r3, bs3));
    assert(spec_populate(r3, bs3) == spec_populate(r4, bs4));
    assert(spec_populate(r4, bs4) == spec_populate(r5, bs5));
    assert(spec_populate(r5, bs5) == spec_populate(r6, bs6));
    assert(spec_populate(r6, bs6) == spec_populate(r7, bs7));
    assert(spec_populate(r7, bs7) == r7);
    assert(r7 =~= c0 + v1 + c1 + v2 + c2 + v3 + c3 + v4 + v5 + c5 + v6 + c6 + v7 + c7);
}

/// Law: for brace-free rendered pieces — as every generated symbol, mapped
/// type and coerced expression is — the rendered native stub is exactly the
/// fixed calling-convention wording around them: the export attribute and
/// signature with the mangled name, the implicit context parameters, the
/// mapped parameter lines, the optional return type, and the body with the
/// coerced call-through and return.
pub proof fn lemma_jni_stub_text(pkg: Seq<char>, m: Member)
    requires
        crate::template::brace_free(spec_mangled(pkg, m.name@)),
        crate::template::brace_free(spec_jni_params(m)),
        crate::template::brace_free(spec_jni_ret_type(m)),
        crate::template::brace_free(spec_result_assignment(m)),
        crate::template::brace_free(spec_leaf(m.name@)),
        crate::template::brace_free(spec_jni_args(m)),
        crate::template::brace_free(spec_return_expr(m)),
    ensures
        spec_populate(jni_template(), spec_jni_bindings(pkg, m))
            == "#[unsafe(no_mangle)]\npub extern \"C\" fn "@ + spec_mangled(pkg, m.name@)
            + "(\n    mut env: JNIEnv,\n    _: JClass,\n"@ + spec_jni_params(m) + "\n)"@
            + spec_jni_ret_type(m) + " {\n    "@ + spec_result_assignment(m) + spec_leaf(m.name@)
            + "("@ + spec_jni_args(m) + ");\n    "@ + spec_return_expr(m) + "\n}"@,
{
    lemma_jni_template_text(
        spec_mangled(pkg, m.name@),
        spec_jni_params(m),
        spec_jni_ret_type(m),
        spec_result_assignment(m),
        spec_leaf(m.name@),
        spec_jni_args(m),
        spec_return_expr(m),
    );
    assert(spec_jni_bindings(pkg, m) =~= seq![
        ("name"@, spec_mangled(pkg, m.name@)),
        ("params"@, spec_jni_params(m)),
        ("ret_type"@, spec_jni_ret_type(m)),
        ("result_assignment"@, spec_result_assignment(m)),
        ("func_name"@, spec_leaf(m.name@)),
        ("args"@, spec_jni_args(m)),
        ("return"@, spec_return_expr(m)),
    ]);
}

/// The flat Kotlin function name of a qualified name: the pascal-cased module
/// segments and the camel-cased leaf, joined by underscores. An empty module
/// path contributes nothing.
pub open spec fn spec_kotlin_fn_name(qualified: Seq<char>) -> Seq<char> {
    spec_join(
        spec_modules(qualified).map_values(|s: Seq<char>| spec_pascal(s)) + seq![
            spec_camel(spec_leaf(qualified)),
        ],
        "_"@,
    )
}

/// One Kotlin parameter.
pub open spec fn spec_kotlin_param(i: Input) -> Seq<char> {
    i.name@ + ": "@ + spec_kotlin_type(i.rust_type@)
}

/// The Kotlin parameter list, joined.
pub open spec fn spec_kotlin_params(m: Member) -> Seq<char> {
    spec_join(inputs_of(m).map_values(|i: Input| spec_kotlin_param(i)), ", "@)
}

/// The Kotlin return-type suffix, or nothing.
pub open spec fn spec_kotlin_ret(m: Member) -> Seq<char> {
    if m.output is Some {
        ": "@ + spec_kotlin_type(m.output->0@)
    } else {
        Seq::<char>::empty()
    }
}

/// The key/value bindings with which the declaration template is rendered.
pub open spec fn spec_kotlin_bindings(m: Member) -> Seq<(Seq<char>, Seq<char>)> {
    seq![
        ("name"@, spec_kotlin_fn_name(m.name@)),
        ("params"@, spec_kotlin_params(m)),
        ("ret_type"@, spec_kotlin_ret(m)),
    ]
}

/// Derive the flat Kotlin function name of a qualified name.
pub fn get_kotlin_function_name(name: &str) -> (r: String)
    ensures
        r@ == spec_kotlin_fn_name(name@),
{
    let qv = str_chars(name);
    let path_sep = str_chars("::");
    proof {
        reveal_strlit("::");
    }
    let segs = split_chars(&qv, &path_sep);
    proof {
        lemma_split_nonempty(qv@, path_sep@);
        assert(views_of_chars(segs@).len() == segs@.len());
    }
    let nsegs: usize = segs.len();
    let mut parts: Vec<Vec<char>> = Vec::new();
    proof {
        assert(views_of_chars(parts@) =~= spec_modules(name@).map_values(
            |s: Seq<char>| spec_pascal(s),
        ).take(0));
    }
    let mut i: usize = 0;
    while i < nsegs - 1
        invariant
            nsegs == segs@.len(),
            nsegs >= 1,
            i <= nsegs - 1,
            views_of_chars(segs@) == crate::names::spec_segments(name@),
            views_of_chars(parts@) == spec_modules(name@).map_values(
                |s: Seq<char>| spec_pascal(s),
            ).take(i as int),
        decreases nsegs - i,
    {
        let p = pascal_chars(&segs[i]);
        proof {
            assert(p@ == spec_pascal(views_of_chars(segs@)[i as int]));
            assert(views_of_chars(parts@.push(p)) =~= views_of_chars(parts@).push(p@));
            assert(spec_modules(name@).map_values(|s: Seq<char>| spec_pascal(s)).take(i + 1)
                =~= spec_modules(name@).map_values(|s: Seq<char>| spec_pascal(s)).take(
                i as int,
            ).push(spec_pascal(spec_modules(name@)[i as int])));
        }
        parts.push(p);
        i = i + 1;
    }
    proof {
        assert(spec_modules(name@).map_values(|s: Seq<char>| spec_pascal(s)).take(nsegs - 1)
            =~= spec_modules(name@).map_values(|s: Seq<char>| spec_pascal(s)));
        assert(views_of_chars(segs@)[nsegs - 1] == spec_leaf(name@));
    }
    let leaf = camel_chars(&segs[nsegs - 1]);
    proof {
        assert(views_of_chars(parts@.push(leaf)) =~= views_of_chars(parts@).push(leaf@));
        assert(spec_modules(name@).map_values(|s: Seq<char>| spec_pascal(s)).push(
            spec_camel(spec_leaf(name@)),
        ) =~= spec_modules(name@).map_values(|s: Seq<char>| spec_pascal(s)) + seq![
            spec_camel(spec_leaf(name@)),
        ]);
    }
    parts.push(leaf);
    let underscore = str_chars("_");
    let joined = join_chars(&parts, &underscore);
    chars_to_string(&joined)
}

proof fn lemma_kotlin_template_text(name: Seq<char>, params: Seq<char>, ret: Seq<char>)
    requires
        crate::template::brace_free(name),
        crate::template::brace_free(params),
        crate::template::brace_free(ret),
    ensures
        spec_populate(
            kotlin_fn_template(),
            seq![("name"@, name), ("params"@, params), ("ret_type"@, ret)],
        ) == "external fun "@ + name + "("@ + params + ")"@ + ret,
{
    reveal_strlit("external fun {name}({params}){ret_type}");
    reveal_strlit("external fun ");
    reveal_strlit("{name}");
    reveal_strlit("(");
    reveal_strlit("{params}");
    reveal_strlit(")");
    reveal_strlit("{ret_type}");
    reveal_strlit("name");
    reveal_strlit("params");
    reveal_strlit("ret_type");
    let bs = seq![("name"@, name), ("params"@, params), ("ret_type"@, ret)];
    let x1 = "external fun "@;
    let p1 = crate::template::marker_of("name"@);
    let p2 = crate::template::marker_of("params"@);
    let p3 = crate::template::marker_of("ret_type"@);
    assert(p1 =~= "{name}"@);
    assert(p2 =~= "{params}"@);
    assert(p3 =~= "{ret_type}"@);
    assert(crate::template::brace_free(x1));

    // Substituting the first binding passes over the leading words, replaces
    // the first marker, and leaves the later markers alone.
    let y1 = "("@ + "{params}"@ + ")"@ + "{ret_type}"@;
    assert(kotlin_fn_template() =~= x1 + (p1 + y1));
    crate::template::lemma_marker_skips_brace_free_prefix(x1, p1 + y1, "name"@, name);
    crate::template::lemma_replace_at_head(y1, p1, name);
    assert forall|i: int| !matches_at(y1, p1, i) by {
        if matches_at(y1, p1, i) {
            assert(y1.subrange(i, i + p1.len())[0] == y1[i]);
            assert(y1.subrange(i, i + p1.len())[1] == y1[i + 1]);
            assert(false);
        }
    }
    crate::template::lemma_replace_none(y1, p1, name);
    let r1 = spec_replace_all(kotlin_fn_template(), p1, name);
    assert(r1 == x1 + (name + (p1 + y1).skip(p1.len() as int)));
    assert((p1 + y1).skip(p1.len() as int) =~= y1);
    assert(r1 == x1 + (name + y1));

    // The second binding passes over the already substituted front.
    let x2 = x1 + name + "("@;
    let y2 = ")"@ + "{ret_type}"@;
    assert(crate::template::brace_free(x2));
    assert(r1 =~= x2 + (p2 + y2));
    crate::template::lemma_marker_skips_brace_free_prefix(x2, p2 + y2, "params"@, params);
    crate::template::lemma_replace_at_head(y2, p2, params);
    assert forall|i: int| !matches_at(y2, p2, i) by {
        if matches_at(y2, p2, i) {
            assert(y2.subrange(i, i + p2.len())[0] == y2[i]);
            assert(y2.subrange(i, i + p2.len())[1] == y2[i + 1]);
            assert(false);
        }
    }
    crate::template::lemma_replace_none(y2, p2, params);
    let r2 = spec_replace_all(r1, p2, params);
    assert((p2 + y2).skip(p2.len() as int) =~= y2);
    assert(r2 == x2 + (params + y2));

    // The third binding replaces the final marker at the very end.
    let x3 = x1 + name + "("@ + params + ")"@;
    assert(crate::template::brace_free(x3));
    assert(r2 =~= x3 + (p3 + Seq::<char>::empty()));
    crate::template::lemma_marker_skips_brace_free_prefix(
        x3,
        p3 + Seq::<char>::empty(),
        "ret_type"@,
        ret,
    );
    crate::template::lemma_replace_at_head(Seq::<char>::empty(), p3, ret);
    assert((p3 + Seq::<char>::empty()).skip(p3.len() as int) =~= Seq::<char>::empty());
    let r3 = spec_replace_all(r2, p3, ret);
    assert(spec_replace_all(Seq::<char>::empty(), p3, ret) =~= Seq::<char>::empty());
    assert(r3 == x3 + (ret + Seq::<char>::empty()));

    // The three substitutions are exactly the populate fold.
    assert(bs.drop_first() =~= seq![("params"@, params), ("ret_type"@, ret)]);
    assert(bs.drop_first().drop_first() =~= seq![("ret_type"@, ret)]);
    assert(bs.drop_first().drop_first().drop_first() =~= Seq::<(Seq<char>, Seq<char>)>::empty());
    assert(spec_populate(kotlin_fn_template(), bs) == spec_populate(r1, bs.drop_first()));
    assert(spec_populate(r1, bs.drop_first()) == spec_populate(r2, bs.drop_first().drop_first()));
    assert(spec_populate(r2, bs.drop_first().drop_first()) == spec_populate(
        r3,
        bs.drop_first().drop_first().drop_first(),
    ));
    assert(spec_populate(r3, Seq::<(Seq<char>, Seq<char>)>::empty()) == r3);
    assert(r3 =~= "external fun "@ + name + "("@ + params + ")"@ + ret);
}

/// Law: for brace-free rendered pieces — as every generated name, parameter
/// list and return-type suffix is — the rendered declaration is exactly the
/// fixed wording around them: `external fun `, the flat name, the
/// parenthesised parameter list, and the return-type suffix.
pub proof fn lemma_kotlin_declaration_text(m: Member)
    requires
        crate::template::brace_free(spec_kotlin_fn_name(m.name@)),
        crate::template::brace_free(spec_kotlin_params(m)),
        crate::template::brace_free(spec_kotlin_ret(m)),
    ensures
        spec_populate(kotlin_fn_template(), spec_kotlin_bindings(m)) == "external fun "@
            + spec_kotlin_fn_name(m.name@) + "("@ + spec_kotlin_params(m) + ")"@
            + spec_kotlin_ret(m),
{
    lemma_kotlin_template_text(
        spec_kotlin_fn_name(m.name@),
        spec_kotlin_params(m),
        spec_kotlin_ret(m),
    );
    assert(spec_kotlin_bindings(m) =~= seq![
        ("name"@, spec_kotlin_fn_name(m.name@)),
        ("params"@, spec_kotlin_params(m)),
        ("ret_type"@, spec_kotlin_ret(m)),
    ]);
}

/// Generate the flat Kotlin external-function declaration of one member:
/// its flattened name, its parameter list with managed types, and its
/// optional managed return type. A member mentioning an unsupported abstract
/// type is refused.
pub fn generate_kotlin_function(function: &Member) -> (r: Result<String, BindingError>)
    ensures
        r is Ok <==> member_types_supported(*function),
        r is Ok ==> r->Ok_0@ == spec_populate(kotlin_fn_template(), spec_kotlin_bindings(*function)),
        r is Err ==> r->Err_0 == BindingError::UnsupportedType,
{
    let mut param_parts: Vec<Vec<char>> = Vec::new();
    match &function.inputs {
        Some(inputs) => {
            let n: usize = inputs.len();
            let mut k: usize = 0;
            while k < n
                invariant
                    inputs@ == inputs_of(*function),
                    n == inputs@.len(),
                    k <= n,
                    forall|j: int|
                        0 <= j < k ==> is_supported_type(#[trigger] inputs@[j].rust_type@),
                    views_of_chars(param_parts@) == inputs@.take(k as int).map_values(
                        |i: Input| spec_kotlin_param(i),
                    ),
                decreases n - k,
            {
                let inp = &inputs[k];
                let kotlin_ty = match get_kotlin_type(inp.rust_type.as_str()) {
                    Ok(t) => t,
                    Err(e) => {
                        proof {
                            assert(inputs_of(*function)[k as int].rust_type@ == inp.rust_type@);
                            assert(!all_inputs_supported(*function));
                        }
                        return Err(e);
                    },
                };
                let colon = str_chars(": ");
                let name_chars = str_chars(inp.name.as_str());
                let ty_chars = str_chars(kotlin_ty.as_str());
                let mut pc: Vec<char> = Vec::new();
                push_all(&mut pc, &name_chars);
                push_all(&mut pc, &colon);
                push_all(&mut pc, &ty_chars);
                proof {
                    assert(pc@ =~= spec_kotlin_param(inputs@[k as int]));
                    assert(views_of_chars(param_parts@.push(pc)) =~= views_of_chars(
                        param_parts@,
                    ).push(pc@));
                    assert(inputs@.take(k + 1) =~= inputs@.take(k as int).push(inputs@[k as int]));
                    assert(inputs@.take(k + 1).map_values(|i: Input| spec_kotlin_param(i))
                        =~= inputs@.take(k as int).map_values(|i: Input| spec_kotlin_param(i)).push(
                        spec_kotlin_param(inputs@[k as int]),
                    ));
                }
                param_parts.push(pc);
                k = k + 1;
            }
            proof {
                assert(inputs@.take(n as int) =~= inputs@);
            }
        },
        None => {
            proof {
                assert(inputs_of(*function) =~= Seq::<Input>::empty());
                assert(views_of_chars(param_parts@) =~= inputs_of(*function).map_values(
                    |i: Input| spec_kotlin_param(i),
                ));
            }
        },
    }
    let param_sep = str_chars(", ");
    let params_joined = join_chars(&param_parts, &param_sep);

    let ret_type_s: String;
    match &function.output {
        Some(o) => {
            let t = match get_kotlin_type(o.as_str()) {
                Ok(t) => t,
                Err(e) => {
                    return Err(e);
                },
            };
            let mut rt = String::from_str(": ");
            rt.append(t.as_str());
            ret_type_s = rt;
        },
        None => {
            ret_type_s = String::new();
        },
    }

    let fn_name = get_kotlin_function_name(function.name.as_str());
    let params_s = chars_to_string(&params_joined);

    let mut bindings: Vec<(String, String)> = Vec::new();
    bindings.push((String::from_str("name"), fn_name));
    bindings.push((String::from_str("params"), params_s));
    bindings.push((String::from_str("ret_type"), ret_type_s));
    proof {
        assert(pairs_view(bindings@) =~= spec_kotlin_bindings(*function));
    }
    Ok(populate_template(kotlin_fn_template_text(), &bindings))
}

} // verus!
