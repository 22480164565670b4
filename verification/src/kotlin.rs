//! The binding tree and its serialisation: the flat Kotlin declarations are
//! regrouped into a hierarchy of namespace objects mirroring their
//! underscore-encoded module paths, and the hierarchy is rendered as nested
//! object blocks with per-depth indentation.

use vstd::multiset::Multiset;
use vstd::prelude::*;

use crate::template::spec_populate;
use crate::text::{
    chars_to_string, join_chars, lemma_split_nonempty, matches_at, push_all, replace_chars,
    split_chars, spec_join, spec_replace_all, spec_split, str_chars, strings_of, views_of_chars,
    views_of_strings,
};

verus! {

/// The mathematical shape of a namespace object: a name, the member
/// declarations held directly, and the child objects in order.
#[verifier::ext_equal]
pub ghost struct NodeModel {
    pub name: Seq<char>,
    pub members: Seq<Seq<char>>,
    pub children: Seq<NodeModel>,
}

/// A node with the given name and nothing in it.
pub open spec fn empty_node(name: Seq<char>) -> NodeModel {
    NodeModel { name, members: Seq::<Seq<char>>::empty(), children: Seq::<NodeModel>::empty() }
}

/// The position of the first child with the given name, or `-1` if there is
/// none.
pub open spec fn find_child(s: Seq<NodeModel>, name: Seq<char>) -> int
    decreases s.len(),
{
    if s.len() == 0 {
        -1
    } else if s[0].name == name {
        0
    } else {
        let r = find_child(s.drop_first(), name);
        if r < 0 {
            -1
        } else {
            r + 1
        }
    }
}

pub proof fn lemma_find_child(s: Seq<NodeModel>, name: Seq<char>)
    ensures
        find_child(s, name) >= 0 ==> 0 <= find_child(s, name) < s.len() && s[find_child(
            s,
            name,
        )].name == name && (forall|k: int| 0 <= k < find_child(s, name) ==> s[k].name != name),
        find_child(s, name) < 0 ==> forall|k: int| 0 <= k < s.len() ==> s[k].name != name,
    decreases s.len(),
{
    if s.len() > 0 && s[0].name != name {
        lemma_find_child(s.drop_first(), name);
        assert(forall|k: int| 1 <= k < s.len() ==> s[k] == s.drop_first()[k - 1]);
    }
}

/// The tree after one member is filed under the given module path: the walk
/// follows existing children by name and creates missing ones, and the
/// member is appended at the terminal container.
pub open spec fn insert_m(n: NodeModel, path: Seq<Seq<char>>, member: Seq<char>) -> NodeModel
    decreases path.len(),
{
    if path.len() == 0 {
        NodeModel { name: n.name, members: n.members.push(member), children: n.children }
    } else {
        let j = find_child(n.children, path[0]);
        if j < 0 {
            NodeModel {
                name: n.name,
                members: n.members,
                children: n.children.push(
                    insert_m(empty_node(path[0]), path.drop_first(), member),
                ),
            }
        } else {
            NodeModel {
                name: n.name,
                members: n.members,
                children: n.children.update(j, insert_m(n.children[j], path.drop_first(), member)),
            }
        }
    }
}

/// The components of a declaration's flat name: the text between `fun ` and
/// the parameter list, split on underscores. A text without both delimiters
/// has no components.
pub open spec fn spec_name_components(b: Seq<char>) -> Seq<Seq<char>> {
    let after = spec_split(b, "fun "@);
    if after.len() < 2 {
        Seq::<Seq<char>>::empty()
    } else {
        spec_split(spec_split(after[1], "("@)[0], "_"@)
    }
}

/// The declaration with its flat name replaced by `new_name`; a declaration
/// whose flat name is empty is left unchanged.
pub open spec fn spec_replaced(b: Seq<char>, new_name: Seq<char>) -> Seq<char> {
    let joined = spec_join(spec_name_components(b), "_"@);
    if joined.len() == 0 {
        b
    } else {
        spec_replace_all(b, joined, new_name)
    }
}

/// The module path under which a declaration is filed: its name components
/// but the last, or nothing for an unqualified name.
pub open spec fn binding_path(b: Seq<char>) -> Seq<Seq<char>> {
    let comps = spec_name_components(b);
    if comps.len() <= 1 {
        Seq::<Seq<char>>::empty()
    } else {
        comps.drop_last()
    }
}

/// The member text a declaration contributes to its container: the
/// declaration with its display name cut down to the leaf component, or the
/// declaration itself for an unqualified name.
pub open spec fn binding_member(b: Seq<char>) -> Seq<char> {
    let comps = spec_name_components(b);
    if comps.len() <= 1 {
        b
    } else {
        spec_replaced(b, comps.last())
    }
}

/// The tree after all the bindings are filed, in order, starting from `n`.
pub open spec fn build_m(n: NodeModel, bindings: Seq<Seq<char>>) -> NodeModel
    decreases bindings.len(),
{
    if bindings.len() == 0 {
        n
    } else {
        insert_m(
            build_m(n, bindings.drop_last()),
            binding_path(bindings.last()),
            binding_member(bindings.last()),
        )
    }
}

/// One namespace object of the generated Kotlin hierarchy.
pub struct KotlinObject {
    /// The object name.
    pub name: String,
    /// The member declarations held directly by this object.
    pub members: Vec<String>,
    /// The nested child objects, in order of first need.
    pub child_objects: Vec<KotlinObject>,
}

/// The mathematical shape of an object.
pub open spec fn view_of(o: KotlinObject) -> NodeModel
    decreases o,
{
    NodeModel {
        name: o.name@,
        members: views_of_strings(o.members@),
        children: children_views(o.child_objects@),
    }
}

/// The shapes of a list of objects.
pub open spec fn children_views(s: Seq<KotlinObject>) -> Seq<NodeModel>
    decreases s,
{
    if s.len() == 0 {
        Seq::<NodeModel>::empty()
    } else {
        children_views(s.drop_last()).push(view_of(s.last()))
    }
}

pub proof fn lemma_children_views(s: Seq<KotlinObject>)
    ensures
        children_views(s).len() == s.len(),
        forall|i: int|
            0 <= i < s.len() ==> #[trigger] children_views(s)[i] == view_of(s[i]),
    decreases s.len(),
{
    if s.len() > 0 {
        lemma_children_views(s.drop_last());
        assert(forall|i: int| 0 <= i < s.len() - 1 ==> s.drop_last()[i] == s[i]);
        assert(forall|i: int|
            0 <= i < s.len() - 1 ==> #[trigger] children_views(s)[i] == children_views(
                s.drop_last(),
            )[i]);
    }
}

/// File one member into the tree under the path segments from `depth` on:
/// walk existing children by name, create the missing ones, and append the
/// member at the terminal container.
pub fn insert_at(node: &mut KotlinObject, path: &Vec<String>, depth: usize, member: String)
    requires
        depth <= path@.len(),
    ensures
        view_of(*final(node)) == insert_m(
            view_of(*old(node)),
            views_of_strings(path@).skip(depth as int),
            member@,
        ),
    decreases path@.len() - depth,
{
    if depth == path.len() {
        proof {
            assert(views_of_strings(path@).skip(depth as int) =~= Seq::<Seq<char>>::empty());
            assert(views_of_strings(old(node).members@.push(member)) =~= views_of_strings(
                old(node).members@,
            ).push(member@));
        }
        node.members.push(member);
        return ;
    }
    let target = &path[depth];
    let n: usize = node.child_objects.len();
    let mut idx: usize = n;
    let mut j: usize = 0;
    while j < n
        invariant
            n == node.child_objects@.len(),
            j <= n,
            idx <= n,
            *node == *old(node),
            idx == n ==> forall|k: int|
                0 <= k < j ==> (#[trigger] node.child_objects@[k]).name@ != target@,
            idx < n ==> idx < j && node.child_objects@[idx as int].name@ == target@ && (forall|
                k: int,
            |
                0 <= k < idx ==> (#[trigger] node.child_objects@[k]).name@ != target@),
        decreases n - j,
    {
        if idx == n && crate::text::str_eq(node.child_objects[j].name.as_str(), target.as_str()) {
            idx = j;
        }
        j = j + 1;
    }
    proof {
        lemma_children_views(node.child_objects@);
        lemma_find_child(children_views(node.child_objects@), target@);
    }
    let ghost pre = *node;
    let ghost tail = views_of_strings(path@).skip(depth as int);
    proof {
        assert(tail[0] == target@);
        assert(tail.drop_first() =~= views_of_strings(path@).skip(depth + 1));
    }
    let ghost was_new = idx == n;
    if idx == n {
        proof {
            let cv = children_views(node.child_objects@);
            if find_child(cv, target@) >= 0 {
                let f = find_child(cv, target@);
                assert(cv[f] == view_of(node.child_objects@[f]));
                assert(view_of(node.child_objects@[f]).name == node.child_objects@[f].name@);
                assert(node.child_objects@[f].name@ != target@);
                assert(false);
            }
        }
        let child = KotlinObject {
            name: target.clone(),
            members: Vec::new(),
            child_objects: Vec::new(),
        };
        proof {
            assert(view_of(child) =~= empty_node(target@));
        }
        node.child_objects.push(child);
        proof {
            assert(node.child_objects@.len() == n + 1);
        }
    }
    proof {
        assert(idx < node.child_objects@.len());
    }
    let mut child = node.child_objects.remove(idx);
    let ghost child_pre = child;
    insert_at(&mut child, path, depth + 1, member);
    node.child_objects.insert(idx, child);
    proof {
        let cpre = children_views(pre.child_objects@);
        let jx = find_child(cpre, target@);
        if was_new {
            assert(jx < 0);
            // A new, empty child was appended at position `idx == n` and the
            // member was filed into it.
            assert(view_of(child_pre) == empty_node(target@));
            lemma_children_views(node.child_objects@);
            assert(node.child_objects@ =~= pre.child_objects@.push(child));
            assert(children_views(node.child_objects@) =~= cpre.push(view_of(child)));
            assert(view_of(*node) =~= insert_m(view_of(pre), tail, member@));
        } else {
            assert(idx < n);
            assert(jx == idx) by {
                lemma_children_views(pre.child_objects@);
                assert(cpre[idx as int] == view_of(pre.child_objects@[idx as int]));
                assert(cpre[idx as int].name == target@);
                assert(forall|k: int|
                    0 <= k < idx ==> (#[trigger] cpre[k]).name == view_of(
                        pre.child_objects@[k],
                    ).name);
                assert(forall|k: int| 0 <= k < idx ==> (#[trigger] cpre[k]).name != target@);
                lemma_find_child(cpre, target@);
            }
            assert(view_of(child_pre) == cpre[jx]) by {
                lemma_children_views(pre.child_objects@);
            }
            assert(node.child_objects@ =~= pre.child_objects@.update(idx as int, child));
            lemma_children_views(node.child_objects@);
            lemma_children_views(pre.child_objects@);
            assert(children_views(node.child_objects@) =~= cpre.update(jx, view_of(child)));
            assert(view_of(*node) =~= insert_m(view_of(pre), tail, member@));
        }
    }
}

fn name_components_chars(b: &Vec<char>) -> (r: Vec<Vec<char>>)
    ensures
        views_of_chars(r@) == spec_name_components(b@),
{
    let fun_sep = str_chars("fun ");
    proof {
        reveal_strlit("fun ");
    }
    let parts = split_chars(b, &fun_sep);
    proof {
        lemma_split_nonempty(b@, fun_sep@);
        assert(views_of_chars(parts@).len() == parts@.len());
    }
    if parts.len() < 2 {
        let r: Vec<Vec<char>> = Vec::new();
        proof {
            assert(views_of_chars(r@) =~= Seq::<Seq<char>>::empty());
        }
        return r;
    }
    let paren = str_chars("(");
    proof {
        reveal_strlit("(");
    }
    let name_parts = split_chars(&parts[1], &paren);
    proof {
        assert(views_of_chars(parts@)[1] == parts@[1]@);
        lemma_split_nonempty(parts@[1]@, paren@);
        assert(views_of_chars(name_parts@).len() == name_parts@.len());
        assert(views_of_chars(name_parts@)[0] == name_parts@[0]@);
    }
    let us = str_chars("_");
    proof {
        reveal_strlit("_");
    }
    split_chars(&name_parts[0], &us)
}

/// The components of a declaration's flat name: the text between `fun ` and
/// the opening parenthesis, split on underscores.
pub fn get_name_components(binding: &String) -> (r: Vec<String>)
    ensures
        views_of_strings(r@) == spec_name_components(binding@),
{
    let b = str_chars(binding.as_str());
    let comps = name_components_chars(&b);
    strings_of(&comps)
}

/// Replace the flat name of a declaration by `new_name`; a declaration whose
/// flat name is empty is returned unchanged.
pub fn replace_name(binding: &String, new_name: &String) -> (r: String)
    ensures
        r@ == spec_replaced(binding@, new_name@),
{
    let b = str_chars(binding.as_str());
    let comps = name_components_chars(&b);
    let us = str_chars("_");
    let joined = join_chars(&comps, &us);
    if joined.len() == 0 {
        binding.clone()
    } else {
        let nv = str_chars(new_name.as_str());
        let replaced = replace_chars(&b, &joined, &nv);
        chars_to_string(&replaced)
    }
}

/// Regroup the flat declarations into a tree of namespace objects rooted at
/// `root_object_name`: a declaration with an unqualified flat name becomes a
/// root member; every other declaration is filed under the chain of objects
/// named by its leading name components, with its display name cut down to
/// the leaf component.
pub fn build_binding_tree(root_object_name: &str, bindings: &Vec<String>) -> (r: KotlinObject)
    ensures
        view_of(r) == build_m(empty_node(root_object_name@), views_of_strings(bindings@)),
{
    let mut root = KotlinObject {
        name: root_object_name.to_owned(),
        members: Vec::new(),
        child_objects: Vec::new(),
    };
    proof {
        assert(view_of(root) =~= empty_node(root_object_name@));
        assert(views_of_strings(bindings@).take(0) =~= Seq::<Seq<char>>::empty());
    }
    let n: usize = bindings.len();
    let mut i: usize = 0;
    while i < n
        invariant
            n == bindings@.len(),
            i <= n,
            view_of(root) == build_m(
                empty_node(root_object_name@),
                views_of_strings(bindings@).take(i as int),
            ),
        decreases n - i,
    {
        let binding = &bindings[i];
        let ghost bview = binding@;
        proof {
            assert(views_of_strings(bindings@)[i as int] == bview);
        }
        let mut comps = get_name_components(binding);
        proof {
            assert(views_of_strings(comps@).len() == comps@.len());
        }
        if comps.len() <= 1 {
            let path: Vec<String> = Vec::new();
            proof {
                assert(views_of_strings(path@).skip(0) =~= binding_path(bview));
                assert(binding_member(bview) == bview);
            }
            insert_at(&mut root, &path, 0, binding.clone());
        } else {
            let last = match comps.pop() {
                Some(x) => x,
                None => vstd::pervasive::unreached(),
            };
            proof {
                assert(last@ == spec_name_components(bview).last());
                assert(views_of_strings(comps@) =~= spec_name_components(bview).drop_last());
                assert(views_of_strings(comps@).skip(0) =~= binding_path(bview));
            }
            let m = replace_name(binding, &last);
            proof {
                assert(m@ == binding_member(bview));
            }
            insert_at(&mut root, &comps, 0, m);
        }
        proof {
            assert(views_of_strings(bindings@).take(i + 1).drop_last() =~= views_of_strings(
                bindings@,
            ).take(i as int));
            assert(views_of_strings(bindings@).take(i + 1).last() == bview);
        }
        i = i + 1;
    }
    proof {
        assert(views_of_strings(bindings@).take(n as int) =~= views_of_strings(bindings@));
    }
    root
}

/// The members a node holds directly, each paired with the path under which
/// it stands.
pub open spec fn members_entries(ms: Seq<Seq<char>>, prefix: Seq<Seq<char>>) -> Multiset<
    (Seq<Seq<char>>, Seq<char>),
>
    decreases ms.len(),
{
    if ms.len() == 0 {
        Multiset::<(Seq<Seq<char>>, Seq<char>)>::empty()
    } else {
        members_entries(ms.drop_last(), prefix).insert((prefix, ms.last()))
    }
}

/// Every leaf member of the subtree at `n`, paired with its container path
/// from the root; `prefix` is the path of `n` itself.
pub open spec fn leaves_at(n: NodeModel, prefix: Seq<Seq<char>>) -> Multiset<
    (Seq<Seq<char>>, Seq<char>),
>
    decreases n,
{
    members_entries(n.members, prefix).add(children_leaves(n.children, prefix))
}

/// The leaf members of a list of subtrees.
pub open spec fn children_leaves(s: Seq<NodeModel>, prefix: Seq<Seq<char>>) -> Multiset<
    (Seq<Seq<char>>, Seq<char>),
>
    decreases s,
{
    if s.len() == 0 {
        Multiset::<(Seq<Seq<char>>, Seq<char>)>::empty()
    } else {
        children_leaves(s.drop_last(), prefix).add(
            leaves_at(s.last(), prefix.push(s.last().name)),
        )
    }
}

/// Filing a member never changes a node's name.
pub proof fn lemma_insert_name(n: NodeModel, path: Seq<Seq<char>>, member: Seq<char>)
    ensures
        insert_m(n, path, member).name == n.name,
{
}

proof fn lemma_children_leaves_update(
    s: Seq<NodeModel>,
    j: int,
    c: NodeModel,
    prefix: Seq<Seq<char>>,
)
    requires
        0 <= j < s.len(),
        c.name == s[j].name,
    ensures
        children_leaves(s.update(j, c), prefix).add(
            leaves_at(s[j], prefix.push(s[j].name)),
        ) =~= children_leaves(s, prefix).add(leaves_at(c, prefix.push(c.name))),
    decreases s.len(),
{
    let y = leaves_at(s[j], prefix.push(s[j].name));
    let x = leaves_at(c, prefix.push(c.name));
    assert(prefix.push(s[j].name) == prefix.push(c.name));
    if j == s.len() - 1 {
        assert(s.update(j, c).drop_last() =~= s.drop_last());
        assert(s.update(j, c).last() == c);
        let a = children_leaves(s.drop_last(), prefix);
        assert(children_leaves(s.update(j, c), prefix) == a.add(x));
        assert(children_leaves(s, prefix) == a.add(y));
        assert forall|v: (Seq<Seq<char>>, Seq<char>)|
            (a.add(x).add(y)).count(v) == (a.add(y).add(x)).count(v) by {
            assert((a.add(x)).count(v) == a.count(v) + x.count(v));
            assert((a.add(x).add(y)).count(v) == (a.add(x)).count(v) + y.count(v));
            assert((a.add(y)).count(v) == a.count(v) + y.count(v));
            assert((a.add(y).add(x)).count(v) == (a.add(y)).count(v) + x.count(v));
        }
        assert(a.add(x).add(y) =~= a.add(y).add(x));
    } else {
        assert(s.update(j, c).drop_last() =~= s.drop_last().update(j, c));
        assert(s.update(j, c).last() == s.last());
        assert(s.drop_last()[j] == s[j]);
        lemma_children_leaves_update(s.drop_last(), j, c, prefix);
        let b = children_leaves(s.drop_last().update(j, c), prefix);
        let d = children_leaves(s.drop_last(), prefix);
        let z = leaves_at(s.last(), prefix.push(s.last().name));
        assert(children_leaves(s.update(j, c), prefix) == b.add(z));
        assert(children_leaves(s, prefix) == d.add(z));
        assert(b.add(y) == d.add(x));
        assert forall|v: (Seq<Seq<char>>, Seq<char>)|
            (b.add(z).add(y)).count(v) == (d.add(z).add(x)).count(v) by {
            assert((b.add(y)).count(v) == (d.add(x)).count(v));
            assert((b.add(y)).count(v) == b.count(v) + y.count(v));
            assert((d.add(x)).count(v) == d.count(v) + x.count(v));
            assert((b.add(z)).count(v) == b.count(v) + z.count(v));
            assert((b.add(z).add(y)).count(v) == (b.add(z)).count(v) + y.count(v));
            assert((d.add(z)).count(v) == d.count(v) + z.count(v));
            assert((d.add(z).add(x)).count(v) == (d.add(z)).count(v) + x.count(v));
        }
        assert(b.add(z).add(y) =~= d.add(z).add(x));
    }
}

/// Filing one member adds exactly one leaf entry — the member, under the
/// concatenation of the node's own path and the given module path — and
/// leaves every other leaf entry unchanged.
pub proof fn lemma_insert_leaves(
    n: NodeModel,
    path: Seq<Seq<char>>,
    member: Seq<char>,
    prefix: Seq<Seq<char>>,
)
    ensures
        leaves_at(insert_m(n, path, member), prefix) =~= leaves_at(n, prefix).insert(
            ((prefix + path), member),
        ),
    decreases path.len(),
{
    let e = ((prefix + path), member);
    let sgl = Multiset::<(Seq<Seq<char>>, Seq<char>)>::singleton(e);
    let me_ = members_entries(n.members, prefix);
    let cl = children_leaves(n.children, prefix);
    assert(leaves_at(n, prefix).insert(e) == me_.add(cl).add(sgl));
    if path.len() == 0 {
        assert(n.members.push(member).drop_last() =~= n.members);
        assert(prefix + path =~= prefix);
        assert(members_entries(n.members.push(member), prefix) == me_.insert((prefix, member)));
        assert((prefix, member) == e);
        assert(leaves_at(insert_m(n, path, member), prefix) == me_.add(sgl).add(cl));
        assert forall|v: (Seq<Seq<char>>, Seq<char>)|
            (me_.add(sgl).add(cl)).count(v) == (me_.add(cl).add(sgl)).count(v) by {
            assert((me_.add(sgl)).count(v) == me_.count(v) + sgl.count(v));
            assert((me_.add(sgl).add(cl)).count(v) == (me_.add(sgl)).count(v) + cl.count(v));
            assert((me_.add(cl)).count(v) == me_.count(v) + cl.count(v));
            assert((me_.add(cl).add(sgl)).count(v) == (me_.add(cl)).count(v) + sgl.count(v));
        }
        assert(me_.add(sgl).add(cl) =~= me_.add(cl).add(sgl));
    } else {
        let j = find_child(n.children, path[0]);
        let pp = prefix.push(path[0]);
        assert(pp + path.drop_first() =~= prefix + path);
        lemma_find_child(n.children, path[0]);
        if j < 0 {
            let sub = insert_m(empty_node(path[0]), path.drop_first(), member);
            lemma_insert_name(empty_node(path[0]), path.drop_first(), member);
            lemma_insert_leaves(empty_node(path[0]), path.drop_first(), member, pp);
            let emp = Multiset::<(Seq<Seq<char>>, Seq<char>)>::empty();
            assert(leaves_at(empty_node(path[0]), pp) == emp.add(emp));
            assert(leaves_at(sub, pp) == emp.add(emp).add(sgl));
            assert(n.children.push(sub).drop_last() =~= n.children);
            assert(n.children.push(sub).last() == sub);
            let ls = leaves_at(sub, pp);
            assert(children_leaves(n.children.push(sub), prefix) == cl.add(ls));
            assert(leaves_at(insert_m(n, path, member), prefix) == me_.add(cl.add(ls)));
            assert forall|v: (Seq<Seq<char>>, Seq<char>)|
                (me_.add(cl.add(ls))).count(v) == (me_.add(cl).add(sgl)).count(v) by {
                assert((emp.add(emp)).count(v) == 0);
                assert((emp.add(emp).add(sgl)).count(v) == (emp.add(emp)).count(v) + sgl.count(v));
                assert(ls.count(v) == sgl.count(v));
                assert((cl.add(ls)).count(v) == cl.count(v) + ls.count(v));
                assert((me_.add(cl.add(ls))).count(v) == me_.count(v) + (cl.add(ls)).count(v));
                assert((me_.add(cl)).count(v) == me_.count(v) + cl.count(v));
                assert((me_.add(cl).add(sgl)).count(v) == (me_.add(cl)).count(v) + sgl.count(v));
            }
            assert(me_.add(cl.add(ls)) =~= me_.add(cl).add(sgl));
        } else {
            let sub = insert_m(n.children[j], path.drop_first(), member);
            lemma_insert_name(n.children[j], path.drop_first(), member);
            lemma_insert_leaves(n.children[j], path.drop_first(), member, pp);
            lemma_children_leaves_update(n.children, j, sub, prefix);
            let cu = children_leaves(n.children.update(j, sub), prefix);
            let lj = leaves_at(n.children[j], pp);
            let ls = leaves_at(sub, pp);
            assert(pp == prefix.push(n.children[j].name));
            assert(pp == prefix.push(sub.name));
            assert(cu.add(lj) == cl.add(ls));
            assert(ls == lj.add(sgl));
            assert(leaves_at(insert_m(n, path, member), prefix) == me_.add(cu));
            assert forall|v: (Seq<Seq<char>>, Seq<char>)|
                (me_.add(cu)).count(v) == (me_.add(cl).add(sgl)).count(v) by {
                assert((cu.add(lj)).count(v) == (cl.add(ls)).count(v));
                assert((cu.add(lj)).count(v) == cu.count(v) + lj.count(v));
                assert((cl.add(ls)).count(v) == cl.count(v) + ls.count(v));
                assert((lj.add(sgl)).count(v) == lj.count(v) + sgl.count(v));
                assert((me_.add(cu)).count(v) == me_.count(v) + cu.count(v));
                assert((me_.add(cl)).count(v) == me_.count(v) + cl.count(v));
                assert((me_.add(cl).add(sgl)).count(v) == (me_.add(cl)).count(v) + sgl.count(v));
            }
            assert(me_.add(cu) =~= me_.add(cl).add(sgl));
        }
    }
}

/// The declarations' contribution to the tree: each paired as (module path,
/// renamed member text).
pub open spec fn bindings_entries(bs: Seq<Seq<char>>) -> Multiset<(Seq<Seq<char>>, Seq<char>)>
    decreases bs.len(),
{
    if bs.len() == 0 {
        Multiset::<(Seq<Seq<char>>, Seq<char>)>::empty()
    } else {
        bindings_entries(bs.drop_last()).insert(
            (binding_path(bs.last()), binding_member(bs.last())),
        )
    }
}

/// Law: the tree builder files every input declaration exactly once. The
/// multiset of leaf members of the built tree, each paired with its container
/// path from the root, equals the multiset of input declarations, each
/// renamed to its leaf component and paired with its module path. In
/// particular, each declaration stands at tree depth equal to the number of
/// its leading name components.
pub proof fn lemma_tree_regroups_bindings(root_name: Seq<char>, bs: Seq<Seq<char>>)
    ensures
        leaves_at(build_m(empty_node(root_name), bs), Seq::<Seq<char>>::empty())
            =~= bindings_entries(bs),
    decreases bs.len(),
{
    if bs.len() == 0 {
    } else {
        lemma_tree_regroups_bindings(root_name, bs.drop_last());
        lemma_insert_leaves(
            build_m(empty_node(root_name), bs.drop_last()),
            binding_path(bs.last()),
            binding_member(bs.last()),
            Seq::<Seq<char>>::empty(),
        );
        assert(Seq::<Seq<char>>::empty() + binding_path(bs.last()) =~= binding_path(bs.last()));
    }
}

/// No two sibling containers share a name.
pub open spec fn unique_names(s: Seq<NodeModel>) -> bool {
    forall|i: int, j: int| 0 <= i < j < s.len() ==> s[i].name != s[j].name
}

/// Containers are never duplicated anywhere in the tree.
pub open spec fn wf_m(n: NodeModel) -> bool
    decreases n,
{
    unique_names(n.children) && children_wf(n.children)
}

/// Well-formedness of a list of subtrees.
pub open spec fn children_wf(s: Seq<NodeModel>) -> bool
    decreases s,
{
    if s.len() == 0 {
        true
    } else {
        children_wf(s.drop_last()) && wf_m(s.last())
    }
}

pub proof fn lemma_children_wf_index(s: Seq<NodeModel>)
    ensures
        children_wf(s) <==> (forall|i: int| 0 <= i < s.len() ==> wf_m(#[trigger] s[i])),
    decreases s.len(),
{
    if s.len() > 0 {
        lemma_children_wf_index(s.drop_last());
        assert(forall|i: int| 0 <= i < s.len() - 1 ==> s.drop_last()[i] == s[i]);
        assert(s[s.len() - 1] == s.last());
    }
}

/// Filing a member keeps the tree well formed: the walk reuses an existing
/// child of the same name wherever there is one, so no sibling names are
/// ever duplicated.
pub proof fn lemma_insert_wf(n: NodeModel, path: Seq<Seq<char>>, member: Seq<char>)
    requires
        wf_m(n),
    ensures
        wf_m(insert_m(n, path, member)),
    decreases path.len(),
{
    if path.len() == 0 {
    } else {
        let j = find_child(n.children, path[0]);
        lemma_find_child(n.children, path[0]);
        lemma_children_wf_index(n.children);
        if j < 0 {
            let sub = insert_m(empty_node(path[0]), path.drop_first(), member);
            lemma_insert_name(empty_node(path[0]), path.drop_first(), member);
            lemma_insert_wf(empty_node(path[0]), path.drop_first(), member);
            lemma_children_wf_index(n.children.push(sub));
            assert(forall|i: int|
                0 <= i < n.children.len() ==> n.children.push(sub)[i] == n.children[i]);
            assert(unique_names(n.children.push(sub)));
        } else {
            let sub = insert_m(n.children[j], path.drop_first(), member);
            lemma_insert_name(n.children[j], path.drop_first(), member);
            lemma_insert_wf(n.children[j], path.drop_first(), member);
            lemma_children_wf_index(n.children.update(j, sub));
            assert(forall|i: int|
                0 <= i < n.children.len() && i != j ==> n.children.update(j, sub)[i]
                    == n.children[i]);
            assert(unique_names(n.children.update(j, sub)));
        }
    }
}

/// Law: the built tree is well formed — no container is ever duplicated for
/// the same name at the same nesting level.
pub proof fn lemma_tree_unique_containers(root_name: Seq<char>, bs: Seq<Seq<char>>)
    ensures
        wf_m(build_m(empty_node(root_name), bs)),
    decreases bs.len(),
{
    if bs.len() == 0 {
        assert(wf_m(empty_node(root_name)));
    } else {
        lemma_tree_unique_containers(root_name, bs.drop_last());
        lemma_insert_wf(
            build_m(empty_node(root_name), bs.drop_last()),
            binding_path(bs.last()),
            binding_member(bs.last()),
        );
    }
}

/// The opening line of an object block.
pub open spec fn obj_header(name: Seq<char>) -> Seq<char> {
    "object "@ + name + " {"@
}

/// Each line shifted right by one indentation unit.
pub open spec fn indent_lines(ls: Seq<Seq<char>>) -> Seq<Seq<char>> {
    ls.map_values(|l: Seq<char>| "    "@ + l)
}

/// The rendered lines of an object block: its header, its indented body —
/// member declarations first, then the blocks of its children — and its
/// closing brace.
pub open spec fn node_lines(n: NodeModel) -> Seq<Seq<char>>
    decreases n,
{
    seq![obj_header(n.name)] + indent_lines(n.members + children_lines(n.children)) + seq!["}"@]
}

/// The rendered lines of a list of objects, one block after the other.
pub open spec fn children_lines(s: Seq<NodeModel>) -> Seq<Seq<char>>
    decreases s,
{
    if s.len() == 0 {
        Seq::<Seq<char>>::empty()
    } else {
        children_lines(s.drop_last()) + node_lines(s.last())
    }
}

/// The lines flattened into text, each line closed by a newline.
pub open spec fn lines_text(ls: Seq<Seq<char>>) -> Seq<char>
    decreases ls.len(),
{
    if ls.len() == 0 {
        Seq::<char>::empty()
    } else {
        lines_text(ls.drop_last()) + ls.last() + seq!['\n']
    }
}

/// The body lines of an object: its member declarations, then the rendered
/// blocks of its children.
fn body_lines_of(o: &KotlinObject) -> (r: Vec<String>)
    ensures
        views_of_strings(r@) == views_of_strings(o.members@) + children_lines(
            children_views(o.child_objects@),
        ),
    decreases *o, 0int,
{
    let mut body: Vec<String> = Vec::new();
    crate::text::append_strings(&mut body, &o.members);
    proof {
        lemma_children_views(o.child_objects@);
        assert(views_of_strings(body@) =~= views_of_strings(o.members@) + children_lines(
            children_views(o.child_objects@).take(0),
        ));
    }
    let nc: usize = o.child_objects.len();
    let mut k: usize = 0;
    while k < nc
        invariant
            nc == o.child_objects@.len(),
            k <= nc,
            views_of_strings(body@) == views_of_strings(o.members@) + children_lines(
                children_views(o.child_objects@).take(k as int),
            ),
        decreases nc - k,
    {
        let cl = render_node_lines(&o.child_objects[k]);
        proof {
            lemma_children_views(o.child_objects@);
            let cv = children_views(o.child_objects@);
            assert(cv.take(k + 1).drop_last() =~= cv.take(k as int));
            assert(cv.take(k + 1).last() == view_of(o.child_objects@[k as int]));
            assert(views_of_strings(body@ + cl@) =~= views_of_strings(body@) + views_of_strings(
                cl@,
            ));
            assert(views_of_strings(o.members@) + children_lines(cv.take(k as int)) + node_lines(
                view_of(o.child_objects@[k as int]),
            ) =~= views_of_strings(o.members@) + children_lines(cv.take(k + 1)));
        }
        crate::text::append_strings(&mut body, &cl);
        k = k + 1;
    }
    proof {
        lemma_children_views(o.child_objects@);
        assert(children_views(o.child_objects@).take(nc as int) =~= children_views(
            o.child_objects@,
        ));
    }
    body
}

/// Render one object block: its header line, its indented body, and its
/// closing brace, each line as one string.
pub fn render_node_lines(o: &KotlinObject) -> (r: Vec<String>)
    ensures
        views_of_strings(r@) == node_lines(view_of(*o)),
    decreases *o, 1int,
{
    let body = body_lines_of(o);
    let mut out: Vec<String> = Vec::new();
    let mut hdr = String::from_str("object ");
    hdr.append(o.name.as_str());
    hdr.append(" {");
    proof {
        assert(hdr@ == obj_header(o.name@));
    }
    out.push(hdr);
    let nb: usize = body.len();
    let mut t: usize = 0;
    proof {
        assert(views_of_strings(out@) =~= seq![obj_header(o.name@)] + indent_lines(
            views_of_strings(body@),
        ).take(0));
    }
    while t < nb
        invariant
            nb == body@.len(),
            t <= nb,
            views_of_strings(out@) == seq![obj_header(o.name@)] + indent_lines(
                views_of_strings(body@),
            ).take(t as int),
        decreases nb - t,
    {
        let mut il = String::from_str("    ");
        il.append(body[t].as_str());
        proof {
            let ind = indent_lines(views_of_strings(body@));
            assert(il@ == ind[t as int]);
            assert(views_of_strings(out@.push(il)) =~= views_of_strings(out@).push(il@));
            assert(seq![obj_header(o.name@)] + ind.take(t + 1) =~= (seq![obj_header(o.name@)]
                + ind.take(t as int)).push(ind[t as int]));
        }
        out.push(il);
        t = t + 1;
    }
    let close = String::from_str("}");
    proof {
        let ind = indent_lines(views_of_strings(body@));
        assert(ind.take(nb as int) =~= ind);
        assert(views_of_strings(out@.push(close)) =~= views_of_strings(out@).push(close@));
        assert((seq![obj_header(o.name@)] + ind).push("}"@) =~= seq![obj_header(o.name@)] + ind
            + seq!["}"@]);
        assert(node_lines(view_of(*o)) == seq![obj_header(o.name@)] + indent_lines(
            views_of_strings(o.members@) + children_lines(children_views(o.child_objects@)),
        ) + seq!["}"@]);
    }
    out.push(close);
    out
}

/// The template of the generated Kotlin source file.
pub open spec fn root_template() -> Seq<char> {
    "package {package_name};\n\nobject {name} {\n    init {\n        System.loadLibrary(\"{library_name}\")\n    }\n\n{contents}}\n"@
}

fn root_template_text() -> (r: &'static str)
    ensures
        r@ == root_template(),
{
    "package {package_name};\n\nobject {name} {\n    init {\n        System.loadLibrary(\"{library_name}\")\n    }\n\n{contents}}\n"
}

/// The indented body text of the root object: its direct members first, then
/// the blocks of its children, each line shifted one unit and closed by a
/// newline.
pub open spec fn spec_root_contents(n: NodeModel) -> Seq<char> {
    lines_text(indent_lines(n.members + children_lines(n.children)))
}

/// The key/value bindings with which the file template is rendered.
pub open spec fn spec_kotlin_file_bindings(
    root_name: Seq<char>,
    pkg: Seq<char>,
    lib: Seq<char>,
    bindings: Seq<Seq<char>>,
) -> Seq<(Seq<char>, Seq<char>)> {
    seq![
        ("package_name"@, pkg),
        ("name"@, root_name),
        ("library_name"@, lib),
        ("contents"@, spec_root_contents(build_m(empty_node(root_name), bindings))),
    ]
}

/// The whole generated Kotlin source file.
pub open spec fn spec_kotlin_file(
    root_name: Seq<char>,
    pkg: Seq<char>,
    lib: Seq<char>,
    bindings: Seq<Seq<char>>,
) -> Seq<char> {
    spec_populate(root_template(), spec_kotlin_file_bindings(root_name, pkg, lib, bindings))
}

/// The structural summary of a namespace object: its name, how many members
/// it holds directly, and the summaries of its children.
#[verifier::ext_equal]
pub ghost struct ShapeModel {
    pub name: Seq<char>,
    pub n_members: nat,
    pub children: Seq<ShapeModel>,
}

/// The structural summary of a node.
pub open spec fn shape_of(n: NodeModel) -> ShapeModel
    decreases n,
{
    ShapeModel {
        name: n.name,
        n_members: n.members.len(),
        children: shapes_of(n.children),
    }
}

/// The structural summaries of a list of nodes.
pub open spec fn shapes_of(s: Seq<NodeModel>) -> Seq<ShapeModel>
    decreases s,
{
    if s.len() == 0 {
        Seq::<ShapeModel>::empty()
    } else {
        shapes_of(s.drop_last()).push(shape_of(s.last()))
    }
}

/// The line opens a container block.
pub open spec fn is_header(l: Seq<char>) -> bool {
    l.len() >= 9 && l.take(7) == "object "@ && l.skip(l.len() - 2) == " {"@
}

/// The container name carried by a header line.
pub open spec fn header_name(l: Seq<char>) -> Seq<char> {
    l.subrange(7, l.len() - 2)
}

/// The line starts with one indentation unit.
pub open spec fn is_indented(l: Seq<char>) -> bool {
    l.len() >= 4 && l.take(4) == "    "@
}

/// Each line with one leading indentation unit removed.
pub open spec fn unindent(ls: Seq<Seq<char>>) -> Seq<Seq<char>> {
    ls.map_values(|l: Seq<char>| l.skip(4))
}

/// How many lines at the front are indented.
pub open spec fn indented_prefix_len(ls: Seq<Seq<char>>) -> int
    decreases ls.len(),
{
    if ls.len() == 0 {
        0
    } else if !is_indented(ls[0]) {
        0
    } else {
        1 + indented_prefix_len(ls.drop_first())
    }
}

pub proof fn lemma_indented_prefix_len_bounds(ls: Seq<Seq<char>>)
    ensures
        0 <= indented_prefix_len(ls) <= ls.len(),
    decreases ls.len(),
{
    if ls.len() > 0 && is_indented(ls[0]) {
        lemma_indented_prefix_len_bounds(ls.drop_first());
    }
}

/// Re-split rendered lines by container boundaries: a header line opens a
/// container whose body is the following run of indented lines, closed by a
/// bare brace; any other line is one member of the enclosing container. The
/// result is the containers at this level and the count of members lying
/// directly at this level, or nothing if the lines are not block-shaped.
pub open spec fn parse_block(lines: Seq<Seq<char>>) -> Option<(Seq<ShapeModel>, nat)>
    decreases lines.len()
    via parse_block_decreases
{
    if lines.len() == 0 {
        Some((Seq::<ShapeModel>::empty(), 0nat))
    } else if is_header(lines[0]) {
        let bl = indented_prefix_len(lines.drop_first());
        let body = lines.drop_first().take(bl);
        let rest = lines.skip(1 + bl);
        if rest.len() == 0 || rest[0] != "}"@ {
            None
        } else {
            match parse_block(unindent(body)) {
                Option::Some(inner) => match parse_block(rest.drop_first()) {
                    Option::Some(outer) => Some(
                        (
                            seq![
                                ShapeModel {
                                    name: header_name(lines[0]),
                                    n_members: inner.1,
                                    children: inner.0,
                                },
                            ] + outer.0,
                            outer.1,
                        ),
                    ),
                    Option::None => None,
                },
                Option::None => None,
            }
        }
    } else {
        match parse_block(lines.drop_first()) {
            Option::Some(r) => Some((r.0, r.1 + 1nat)),
            Option::None => None,
        }
    }
}

#[via_fn]
proof fn parse_block_decreases(lines: Seq<Seq<char>>) {
    if lines.len() > 0 {
        lemma_indented_prefix_len_bounds(lines.drop_first());
    }
}

/// No member text anywhere in the tree looks like a container header.
pub open spec fn members_ok(n: NodeModel) -> bool
    decreases n,
{
    (forall|i: int| 0 <= i < n.members.len() ==> !is_header(#[trigger] n.members[i]))
        && children_members_ok(n.children)
}

/// The member condition over a list of subtrees.
pub open spec fn children_members_ok(s: Seq<NodeModel>) -> bool
    decreases s,
{
    if s.len() == 0 {
        true
    } else {
        children_members_ok(s.drop_last()) && members_ok(s.last())
    }
}

pub proof fn lemma_children_members_ok_index(s: Seq<NodeModel>)
    ensures
        children_members_ok(s) <==> (forall|i: int|
            0 <= i < s.len() ==> members_ok(#[trigger] s[i])),
    decreases s.len(),
{
    if s.len() > 0 {
        lemma_children_members_ok_index(s.drop_last());
        assert(forall|i: int| 0 <= i < s.len() - 1 ==> s.drop_last()[i] == s[i]);
        assert(s[s.len() - 1] == s.last());
    }
}

proof fn lemma_header_line(name: Seq<char>)
    ensures
        is_header(obj_header(name)),
        header_name(obj_header(name)) == name,
        !is_indented(obj_header(name)),
{
    reveal_strlit("object ");
    reveal_strlit(" {");
    reveal_strlit("    ");
    let l = obj_header(name);
    assert(l.len() == 9 + name.len());
    assert(l.take(7) =~= "object "@);
    assert(l.skip(l.len() - 2) =~= " {"@);
    assert(header_name(l) =~= name);
    if is_indented(l) {
        assert(l.take(4)[0] == "object "@[0]);
        assert("object "@[0] == 'o' && "    "@[0] == ' ');
        assert(false);
    }
}

proof fn lemma_close_line()
    ensures
        !is_indented("}"@),
        !is_header("}"@),
        "}"@.len() == 1,
{
    reveal_strlit("}");
}

proof fn lemma_indent_block(b: Seq<Seq<char>>, tail: Seq<Seq<char>>)
    requires
        tail.len() > 0,
        !is_indented(tail[0]),
    ensures
        indented_prefix_len(indent_lines(b) + tail) == b.len(),
        (indent_lines(b) + tail).take(b.len() as int) =~= indent_lines(b),
        (indent_lines(b) + tail).skip(b.len() as int) =~= tail,
    decreases b.len(),
{
    reveal_strlit("    ");
    let ls = indent_lines(b) + tail;
    if b.len() == 0 {
        assert(ls =~= tail);
    } else {
        assert(ls[0] == "    "@ + b[0]);
        assert(ls[0].take(4) =~= "    "@);
        assert(is_indented(ls[0]));
        assert(ls.drop_first() =~= indent_lines(b.drop_first()) + tail);
        lemma_indent_block(b.drop_first(), tail);
    }
}

proof fn lemma_unindent_indent(b: Seq<Seq<char>>)
    ensures
        unindent(indent_lines(b)) =~~= b,
{
    assert forall|i: int| 0 <= i < b.len() implies unindent(indent_lines(b))[i] =~= b[i] by {
        assert(indent_lines(b)[i] == "    "@ + b[i]);
        reveal_strlit("    ");
        assert(("    "@ + b[i]).skip(4) =~= b[i]);
    }
}

proof fn lemma_children_lines_front(s: Seq<NodeModel>)
    requires
        s.len() > 0,
    ensures
        children_lines(s) == node_lines(s[0]) + children_lines(s.drop_first()),
    decreases s.len(),
{
    if s.len() == 1 {
        assert(s.drop_last() =~= Seq::<NodeModel>::empty());
        assert(s.drop_first() =~= Seq::<NodeModel>::empty());
        assert(s.last() == s[0]);
        assert(children_lines(s) =~= node_lines(s[0]) + children_lines(s.drop_first()));
    } else {
        lemma_children_lines_front(s.drop_last());
        assert(s.drop_last()[0] == s[0]);
        assert(s.drop_last().drop_first() =~= s.drop_first().drop_last());
        assert(s.drop_first().last() == s.last());
        assert(s.drop_first().len() > 0);
        assert(children_lines(s) == children_lines(s.drop_last()) + node_lines(s.last()));
        assert(children_lines(s.drop_first()) == children_lines(s.drop_first().drop_last())
            + node_lines(s.drop_first().last()));
        assert(node_lines(s[0]) + (children_lines(s.drop_first().drop_last()) + node_lines(
            s.last(),
        )) =~= (node_lines(s[0]) + children_lines(s.drop_first().drop_last())) + node_lines(
            s.last(),
        ));
    }
}

proof fn lemma_shapes_front(s: Seq<NodeModel>)
    requires
        s.len() > 0,
    ensures
        shapes_of(s) == seq![shape_of(s[0])] + shapes_of(s.drop_first()),
    decreases s.len(),
{
    if s.len() == 1 {
        assert(s.drop_last() =~= Seq::<NodeModel>::empty());
        assert(s.drop_first() =~= Seq::<NodeModel>::empty());
        assert(shapes_of(s) =~= seq![shape_of(s[0])] + shapes_of(s.drop_first()));
    } else {
        lemma_shapes_front(s.drop_last());
        assert(s.drop_last()[0] == s[0]);
        assert(s.drop_last().drop_first() =~= s.drop_first().drop_last());
        assert(s.drop_first().last() == s.last());
        assert(shapes_of(s) == shapes_of(s.drop_last()).push(shape_of(s.last())));
        assert(shapes_of(s.drop_first()) == shapes_of(s.drop_first().drop_last()).push(
            shape_of(s.drop_first().last()),
        ));
        assert((seq![shape_of(s[0])] + shapes_of(s.drop_first().drop_last())).push(
            shape_of(s.last()),
        ) =~= seq![shape_of(s[0])] + shapes_of(s.drop_first().drop_last()).push(
            shape_of(s.last()),
        ));
    }
}

proof fn lemma_parse_body(members: Seq<Seq<char>>, cs: Seq<NodeModel>)
    requires
        forall|i: int| 0 <= i < members.len() ==> !is_header(#[trigger] members[i]),
        children_members_ok(cs),
    ensures
        parse_block(members + children_lines(cs)) == Some((shapes_of(cs), members.len() as nat)),
    decreases cs, members.len(), 1int,
{
    let lines = members + children_lines(cs);
    if members.len() > 0 {
        assert(lines[0] == members[0]);
        assert(!is_header(lines[0]));
        assert(lines.drop_first() =~= members.drop_first() + children_lines(cs));
        lemma_parse_body(members.drop_first(), cs);
    } else if cs.len() == 0 {
        assert(lines =~= Seq::<Seq<char>>::empty());
        assert(shapes_of(cs) =~= Seq::<ShapeModel>::empty());
    } else {
        lemma_children_lines_front(cs);
        assert(lines =~= node_lines(cs[0]) + children_lines(cs.drop_first()));
        lemma_children_members_ok_index(cs);
        assert(members_ok(cs[0]));
        assert(children_members_ok(cs.drop_first())) by {
            lemma_children_members_ok_index(cs.drop_first());
            assert(forall|i: int| 0 <= i < cs.len() - 1 ==> cs.drop_first()[i] == cs[i + 1]);
        }
        lemma_parse_body(Seq::<Seq<char>>::empty(), cs.drop_first());
        assert(Seq::<Seq<char>>::empty() + children_lines(cs.drop_first()) =~= children_lines(
            cs.drop_first(),
        ));
        if children_lines(cs.drop_first()).len() > 0 {
            lemma_children_lines_front(cs.drop_first());
            let first_line = children_lines(cs.drop_first())[0];
            assert(first_line == node_lines(cs.drop_first()[0])[0]) by {
                assert(node_lines(cs.drop_first()[0]).len() > 0);
            }
            assert(first_line == obj_header(cs.drop_first()[0].name));
            lemma_header_line(cs.drop_first()[0].name);
        }
        lemma_parse_node(cs[0], children_lines(cs.drop_first()));
        lemma_shapes_front(cs);
    }
}

proof fn lemma_parse_node(n: NodeModel, rest: Seq<Seq<char>>)
    requires
        members_ok(n),
        parse_block(rest) is Some,
        rest.len() > 0 ==> !is_indented(rest[0]),
    ensures
        parse_block(node_lines(n) + rest) == Some(
            (
                seq![shape_of(n)] + (parse_block(rest)->0).0,
                (parse_block(rest)->0).1,
            ),
        ),
    decreases n, 0int, 0int,
{
    let body = n.members + children_lines(n.children);
    let lines = node_lines(n) + rest;
    lemma_header_line(n.name);
    lemma_close_line();
    assert(lines[0] == obj_header(n.name));
    let tail = seq!["}"@] + rest;
    assert(tail.len() > 0 && !is_indented(tail[0]));
    assert(lines.drop_first() =~= indent_lines(body) + tail);
    lemma_indent_block(body, tail);
    assert(indent_lines(body).len() == body.len());
    let bl = indented_prefix_len(lines.drop_first());
    assert(bl == body.len());
    assert(lines.drop_first().take(bl) =~= indent_lines(body));
    assert(lines.skip(1 + bl) =~= lines.drop_first().skip(bl));
    assert(lines.skip(1 + bl) =~= tail);
    assert(tail[0] == "}"@);
    lemma_unindent_indent(body);
    lemma_parse_body(n.members, n.children);
    assert(parse_block(unindent(lines.drop_first().take(bl))) == Some(
        (shapes_of(n.children), n.members.len() as nat),
    ));
    assert(tail.drop_first() =~= rest);
    assert(shape_of(n) == ShapeModel {
        name: header_name(lines[0]),
        n_members: n.members.len() as nat,
        children: shapes_of(n.children),
    });
}

/// Law (structural round trip): re-splitting the rendered lines of a
/// well-formed object block by container boundaries recovers exactly the
/// structural summary of the tree — the same container names, nesting and
/// per-container member counts — provided no member text itself looks like a
/// container header.
pub proof fn lemma_render_round_trip(n: NodeModel)
    requires
        members_ok(n),
    ensures
        parse_block(node_lines(n)) == Some((seq![shape_of(n)], 0nat)),
{
    lemma_parse_node(n, Seq::<Seq<char>>::empty());
    assert(node_lines(n) + Seq::<Seq<char>>::empty() =~= node_lines(n));
    assert(seq![shape_of(n)] + Seq::<ShapeModel>::empty() =~= seq![shape_of(n)]);
}

/// Filing a member whose text does not look like a container header keeps
/// the member condition.
pub proof fn lemma_insert_members_ok(n: NodeModel, path: Seq<Seq<char>>, member: Seq<char>)
    requires
        members_ok(n),
        !is_header(member),
    ensures
        members_ok(insert_m(n, path, member)),
    decreases path.len(),
{
    if path.len() == 0 {
        assert(forall|i: int|
            0 <= i < n.members.len() ==> n.members.push(member)[i] == n.members[i]);
    } else {
        let j = find_child(n.children, path[0]);
        lemma_children_members_ok_index(n.children);
        if j < 0 {
            let sub = insert_m(empty_node(path[0]), path.drop_first(), member);
            lemma_insert_members_ok(empty_node(path[0]), path.drop_first(), member);
            lemma_children_members_ok_index(n.children.push(sub));
            assert(forall|i: int|
                0 <= i < n.children.len() ==> n.children.push(sub)[i] == n.children[i]);
        } else {
            lemma_find_child(n.children, path[0]);
            let sub = insert_m(n.children[j], path.drop_first(), member);
            lemma_insert_members_ok(n.children[j], path.drop_first(), member);
            lemma_children_members_ok_index(n.children.update(j, sub));
            assert(forall|i: int|
                0 <= i < n.children.len() && i != j ==> n.children.update(j, sub)[i]
                    == n.children[i]);
        }
    }
}

/// Law (round trip of the built tree): when no declaration's member text
/// looks like a container header — as holds of every generated external
/// declaration — re-splitting the rendered block of the built tree recovers
/// the built tree's structural summary exactly.
pub proof fn lemma_built_tree_round_trip(root_name: Seq<char>, bs: Seq<Seq<char>>)
    requires
        forall|i: int| 0 <= i < bs.len() ==> !is_header(binding_member(#[trigger] bs[i])),
    ensures
        parse_block(node_lines(build_m(empty_node(root_name), bs))) == Some(
            (seq![shape_of(build_m(empty_node(root_name), bs))], 0nat),
        ),
    decreases bs.len(),
{
    assert(members_ok(build_m(empty_node(root_name), bs))) by {
        lemma_build_members_ok(root_name, bs);
    }
    lemma_render_round_trip(build_m(empty_node(root_name), bs));
}

proof fn lemma_build_members_ok(root_name: Seq<char>, bs: Seq<Seq<char>>)
    requires
        forall|i: int| 0 <= i < bs.len() ==> !is_header(binding_member(#[trigger] bs[i])),
    ensures
        members_ok(build_m(empty_node(root_name), bs)),
    decreases bs.len(),
{
    if bs.len() == 0 {
    } else {
        assert(forall|i: int|
            0 <= i < bs.len() - 1 ==> !is_header(binding_member(#[trigger] bs.drop_last()[i])));
        lemma_build_members_ok(root_name, bs.drop_last());
        assert(!is_header(binding_member(bs.last())));
        lemma_insert_members_ok(
            build_m(empty_node(root_name), bs.drop_last()),
            binding_path(bs.last()),
            binding_member(bs.last()),
        );
    }
}

/// The text holds no line break.
pub open spec fn no_newline(l: Seq<char>) -> bool {
    forall|j: int| 0 <= j < l.len() ==> l[j] != '\n'
}

/// Every line holds no line break.
pub open spec fn lines_clean(ls: Seq<Seq<char>>) -> bool {
    forall|i: int| 0 <= i < ls.len() ==> no_newline(#[trigger] ls[i])
}

/// Neither the node's name nor any member text anywhere in the tree holds a
/// line break.
pub open spec fn tree_text_clean(n: NodeModel) -> bool
    decreases n,
{
    no_newline(n.name) && (forall|i: int|
        0 <= i < n.members.len() ==> no_newline(#[trigger] n.members[i])) && children_text_clean(
        n.children,
    )
}

/// The cleanliness condition over a list of subtrees.
pub open spec fn children_text_clean(s: Seq<NodeModel>) -> bool
    decreases s,
{
    if s.len() == 0 {
        true
    } else {
        children_text_clean(s.drop_last()) && tree_text_clean(s.last())
    }
}

proof fn lemma_split_one_line(line: Seq<char>, t: Seq<char>)
    requires
        no_newline(line),
    ensures
        spec_split(line + "\n"@ + t, "\n"@) == seq![line] + spec_split(t, "\n"@),
    decreases line.len(),
{
    reveal_strlit("\n");
    let text = line + "\n"@ + t;
    if line.len() == 0 {
        assert(text.subrange(0, 1) =~= "\n"@);
        assert(matches_at(text, "\n"@, 0));
        assert(text.skip(1) =~= t);
        assert(line =~= Seq::<char>::empty());
        assert(seq![Seq::<char>::empty()] + spec_split(t, "\n"@) =~= seq![line] + spec_split(
            t,
            "\n"@,
        ));
    } else {
        assert(text[0] == line[0]);
        assert(line[0] != '\n');
        if matches_at(text, "\n"@, 0) {
            assert(text.subrange(0, 1)[0] == "\n"@[0]);
            assert(false);
        }
        assert(text.drop_first() =~= line.drop_first() + "\n"@ + t);
        lemma_split_one_line(line.drop_first(), t);
        let rest = spec_split(text.drop_first(), "\n"@);
        assert(rest == seq![line.drop_first()] + spec_split(t, "\n"@));
        assert(rest[0] == line.drop_first());
        assert(rest.drop_first() =~= spec_split(t, "\n"@));
        assert(seq![text[0]] + rest[0] =~= line);
        assert(spec_split(text, "\n"@) == seq![seq![text[0]] + rest[0]] + rest.drop_first());
        assert(seq![seq![text[0]] + rest[0]] + rest.drop_first() =~= seq![line] + spec_split(
            t,
            "\n"@,
        ));
    }
}

proof fn lemma_lines_text_front(ls: Seq<Seq<char>>)
    requires
        ls.len() > 0,
    ensures
        lines_text(ls) == ls[0] + "\n"@ + lines_text(ls.drop_first()),
    decreases ls.len(),
{
    if ls.len() == 1 {
        assert(ls.drop_last() =~= Seq::<Seq<char>>::empty());
        assert(ls.drop_first() =~= Seq::<Seq<char>>::empty());
        assert(lines_text(ls) == lines_text(ls.drop_last()) + ls.last() + seq!['\n']);
        reveal_strlit("\n");
        assert(seq!['\n'] =~= "\n"@);
        assert(Seq::<char>::empty() + ls[0] + seq!['\n'] =~= ls[0] + "\n"@ + Seq::<char>::empty());
    } else {
        lemma_lines_text_front(ls.drop_last());
        assert(ls.drop_last()[0] == ls[0]);
        assert(ls.drop_last().drop_first() =~= ls.drop_first().drop_last());
        assert(ls.drop_first().last() == ls.last());
        assert(lines_text(ls) == lines_text(ls.drop_last()) + ls.last() + seq!['\n']);
        assert(lines_text(ls.drop_first()) == lines_text(ls.drop_first().drop_last())
            + ls.drop_first().last() + seq!['\n']);
        assert((ls[0] + "\n"@ + lines_text(ls.drop_first().drop_last())) + ls.last() + seq!['\n']
            =~= ls[0] + "\n"@ + (lines_text(ls.drop_first().drop_last()) + ls.last()
            + seq!['\n']));
    }
}

/// Law: flattening newline-free lines into text and re-splitting the text on
/// line breaks loses nothing — the lines come back exactly, followed by the
/// one empty segment after the final line break.
pub proof fn lemma_lines_text_split(ls: Seq<Seq<char>>)
    requires
        lines_clean(ls),
    ensures
        spec_split(lines_text(ls), "\n"@) == ls.push(Seq::<char>::empty()),
    decreases ls.len(),
{
    reveal_strlit("\n");
    if ls.len() == 0 {
        assert(lines_text(ls) =~= Seq::<char>::empty());
        assert(spec_split(Seq::<char>::empty(), "\n"@) =~= seq![Seq::<char>::empty()]);
        assert(ls.push(Seq::<char>::empty()) =~= seq![Seq::<char>::empty()]);
    } else {
        lemma_lines_text_front(ls);
        assert(forall|i: int| 0 <= i < ls.len() - 1 ==> ls.drop_first()[i] == ls[i + 1]);
        lemma_lines_text_split(ls.drop_first());
        lemma_split_one_line(ls[0], lines_text(ls.drop_first()));
        assert(seq![ls[0]] + ls.drop_first().push(Seq::<char>::empty()) =~= ls.push(
            Seq::<char>::empty(),
        ));
    }
}

proof fn lemma_node_lines_clean(n: NodeModel)
    requires
        tree_text_clean(n),
    ensures
        lines_clean(node_lines(n)),
    decreases n, 1int,
{
    reveal_strlit("object ");
    reveal_strlit(" {");
    reveal_strlit("}");
    reveal_strlit("    ");
    let body = n.members + children_lines(n.children);
    lemma_children_lines_clean(n.children);
    assert(lines_clean(body));
    assert forall|i: int| 0 <= i < indent_lines(body).len() implies no_newline(
        #[trigger] indent_lines(body)[i],
    ) by {
        assert(indent_lines(body)[i] == "    "@ + body[i]);
        assert(no_newline(body[i]));
    }
    assert(no_newline(obj_header(n.name)));
    assert(no_newline("}"@));
    let lines = node_lines(n);
    assert forall|i: int| 0 <= i < lines.len() implies no_newline(#[trigger] lines[i]) by {
        if i == 0 {
            assert(lines[i] == obj_header(n.name));
        } else if i == lines.len() - 1 {
            assert(lines[i] == "}"@);
        } else {
            assert(lines[i] == indent_lines(body)[i - 1]);
        }
    }
}

proof fn lemma_children_lines_clean(s: Seq<NodeModel>)
    requires
        children_text_clean(s),
    ensures
        lines_clean(children_lines(s)),
    decreases s, 0int,
{
    if s.len() > 0 {
        lemma_children_lines_clean(s.drop_last());
        lemma_node_lines_clean(s.last());
        assert forall|i: int| 0 <= i < children_lines(s).len() implies no_newline(
            #[trigger] children_lines(s)[i],
        ) by {
            let pre = children_lines(s.drop_last());
            if i < pre.len() {
                assert(children_lines(s)[i] == pre[i]);
            } else {
                assert(children_lines(s)[i] == node_lines(s.last())[i - pre.len()]);
            }
        }
    }
}

/// Law (text-level structural round trip): the serializer's flat text of a
/// well-formed, newline-free object block re-splits on line breaks into its
/// rendered lines, and those lines re-split by container boundaries into the
/// tree's exact structural summary.
pub proof fn lemma_text_round_trip(n: NodeModel)
    requires
        members_ok(n),
        tree_text_clean(n),
    ensures
        spec_split(lines_text(node_lines(n)), "\n"@).drop_last() == node_lines(n),
        parse_block(spec_split(lines_text(node_lines(n)), "\n"@).drop_last()) == Some(
            (seq![shape_of(n)], 0nat),
        ),
{
    lemma_node_lines_clean(n);
    lemma_lines_text_split(node_lines(n));
    assert(node_lines(n).push(Seq::<char>::empty()).drop_last() =~= node_lines(n));
    lemma_render_round_trip(n);
}

/// Generate the Kotlin source file: a package header, a root object that
/// loads the native library once, and the serialized namespace hierarchy of
/// the given declarations.
pub fn generate_kotlin_file(
    root_object_name: &str,
    package_name: &str,
    library_name: &str,
    bindings: &Vec<String>,
) -> (r: String)
    ensures
        r@ == spec_kotlin_file(
            root_object_name@,
            package_name@,
            library_name@,
            views_of_strings(bindings@),
        ),
{
    let root = build_binding_tree(root_object_name, bindings);
    let body = body_lines_of(&root);
    let indent = str_chars("    ");
    let mut contents: Vec<char> = Vec::new();
    let nb: usize = body.len();
    let mut t: usize = 0;
    proof {
        assert(contents@ =~= lines_text(indent_lines(views_of_strings(body@)).take(0)));
    }
    while t < nb
        invariant
            nb == body@.len(),
            indent@ == "    "@,
            t <= nb,
            contents@ == lines_text(indent_lines(views_of_strings(body@)).take(t as int)),
        decreases nb - t,
    {
        let lc = str_chars(body[t].as_str());
        proof {
            let ind = indent_lines(views_of_strings(body@));
            assert(ind.take(t + 1).drop_last() =~= ind.take(t as int));
            assert(ind.take(t + 1).last() == ind[t as int]);
            assert(ind[t as int] == "    "@ + body@[t as int]@);
            assert(contents@ + "    "@ + body@[t as int]@ + seq!['\n'] =~= lines_text(ind.take(
                t + 1,
            )));
        }
        push_all(&mut contents, &indent);
        push_all(&mut contents, &lc);
        contents.push('\n');
        proof {
            let ind = indent_lines(views_of_strings(body@));
            assert(contents@ =~= lines_text(ind.take(t + 1)));
        }
        t = t + 1;
    }
    proof {
        let ind = indent_lines(views_of_strings(body@));
        assert(ind.take(nb as int) =~= ind);
        assert(view_of(root).members == views_of_strings(root.members@));
        assert(view_of(root).children == children_views(root.child_objects@));
    }
    let contents_s = chars_to_string(&contents);
    let mut bvec: Vec<(String, String)> = Vec::new();
    bvec.push((String::from_str("package_name"), package_name.to_owned()));
    bvec.push((String::from_str("name"), root_object_name.to_owned()));
    bvec.push((String::from_str("library_name"), library_name.to_owned()));
    bvec.push((String::from_str("contents"), contents_s));
    proof {
        assert(crate::template::pairs_view(bvec@) =~= spec_kotlin_file_bindings(
            root_object_name@,
            package_name@,
            library_name@,
            views_of_strings(bindings@),
        ));
    }
    crate::template::populate_template(root_template_text(), &bvec)
}

} // verus!
