//! The placeholder-substitution engine: every occurrence of each key's
//! `{key}` marker in a template is replaced by the bound value, in the order
//! the bindings are given; markers of unbound keys stay in the output.

use vstd::prelude::*;

use crate::text::{chars_to_string, matches_at, push_all, replace_chars, spec_replace_all, str_chars};

verus! {

/// The text holds no opening brace, so no placeholder marker can start in it.
pub open spec fn brace_free(s: Seq<char>) -> bool {
    forall|i: int| 0 <= i < s.len() ==> s[i] != '{'
}

/// Replacement walks over a prefix in which no occurrence of the pattern
/// starts.
pub proof fn lemma_replace_skips_prefix(x: Seq<char>, y: Seq<char>, p: Seq<char>, v: Seq<char>)
    requires
        p.len() > 0,
        forall|i: int| 0 <= i < x.len() ==> !matches_at(x + y, p, i),
    ensures
        spec_replace_all(x + y, p, v) == x + spec_replace_all(y, p, v),
    decreases x.len(),
{
    if x.len() == 0 {
        assert(x + y =~= y);
        assert(x + spec_replace_all(y, p, v) =~= spec_replace_all(y, p, v));
    } else {
        let t = x + y;
        assert(!matches_at(t, p, 0));
        assert(t.drop_first() =~= x.drop_first() + y);
        assert forall|i: int| 0 <= i < x.drop_first().len() implies !matches_at(
            x.drop_first() + y,
            p,
            i,
        ) by {
            assert(!matches_at(t, p, i + 1));
            if matches_at(x.drop_first() + y, p, i) {
                assert((x.drop_first() + y).subrange(i, i + p.len()) =~= t.subrange(
                    i + 1,
                    i + 1 + p.len(),
                ));
                assert(matches_at(t, p, i + 1));
            }
        }
        lemma_replace_skips_prefix(x.drop_first(), y, p, v);
        assert(seq![t[0]] + (x.drop_first() + spec_replace_all(y, p, v)) =~= x + spec_replace_all(
            y,
            p,
            v,
        ));
    }
}

/// Replacement at an occurrence substitutes the value and goes on behind it.
pub proof fn lemma_replace_at_head(y: Seq<char>, p: Seq<char>, v: Seq<char>)
    requires
        p.len() > 0,
    ensures
        spec_replace_all(p + y, p, v) == v + spec_replace_all(y, p, v),
{
    assert((p + y).subrange(0, p.len() as int) =~= p);
    assert(matches_at(p + y, p, 0));
    assert((p + y).skip(p.len() as int) =~= y);
}

/// A text in which the pattern nowhere occurs is left unchanged.
pub proof fn lemma_replace_none(y: Seq<char>, p: Seq<char>, v: Seq<char>)
    requires
        p.len() > 0,
        forall|i: int| !matches_at(y, p, i),
    ensures
        spec_replace_all(y, p, v) == y,
    decreases y.len(),
{
    if y.len() > 0 {
        assert(!matches_at(y, p, 0));
        assert forall|i: int| !matches_at(y.drop_first(), p, i) by {
            assert(!matches_at(y, p, i + 1));
            if matches_at(y.drop_first(), p, i) {
                assert(y.drop_first().subrange(i, i + p.len()) =~= y.subrange(
                    i + 1,
                    i + 1 + p.len(),
                ));
                assert(matches_at(y, p, i + 1));
            }
        }
        lemma_replace_none(y.drop_first(), p, v);
        assert(seq![y[0]] + y.drop_first() =~= y);
    }
}

/// A marker starts with an opening brace, so replacement walks unchanged
/// over a brace-free prefix.
pub proof fn lemma_marker_skips_brace_free_prefix(
    x: Seq<char>,
    y: Seq<char>,
    key: Seq<char>,
    v: Seq<char>,
)
    requires
        brace_free(x),
    ensures
        spec_replace_all(x + y, marker_of(key), v) == x + spec_replace_all(y, marker_of(key), v),
{
    let p = marker_of(key);
    assert(p[0] == '{');
    assert forall|i: int| 0 <= i < x.len() implies !matches_at(x + y, p, i) by {
        if matches_at(x + y, p, i) {
            assert((x + y).subrange(i, i + p.len())[0] == (x + y)[i]);
            assert((x + y)[i] == x[i]);
            assert(x[i] == '{');
        }
    }
    lemma_replace_skips_prefix(x, y, p, v);
}

/// A marker starts with an opening brace, so it nowhere occurs in a
/// brace-free text.
pub proof fn lemma_marker_misses_brace_free(y: Seq<char>, key: Seq<char>, v: Seq<char>)
    requires
        brace_free(y),
    ensures
        spec_replace_all(y, marker_of(key), v) == y,
{
    let p = marker_of(key);
    assert(p[0] == '{');
    assert forall|i: int| !matches_at(y, p, i) by {
        if matches_at(y, p, i) {
            assert(y.subrange(i, i + p.len())[0] == y[i]);
            assert(y[i] == '{');
        }
    }
    lemma_replace_none(y, p, v);
}

/// The placeholder marker of a key.
pub open spec fn marker_of(key: Seq<char>) -> Seq<char> {
    seq!['{'] + key + seq!['}']
}

/// The character contents of a sequence of key/value bindings.
pub open spec fn pairs_view(ps: Seq<(String, String)>) -> Seq<(Seq<char>, Seq<char>)> {
    ps.map_values(|p: (String, String)| (p.0@, p.1@))
}

/// The template after substituting the bindings one after the other: for each
/// binding, every occurrence of its marker is replaced by its value.
pub open spec fn spec_populate(t: Seq<char>, bs: Seq<(Seq<char>, Seq<char>)>) -> Seq<char>
    decreases bs.len(),
{
    if bs.len() == 0 {
        t
    } else {
        spec_populate(spec_replace_all(t, marker_of(bs[0].0), bs[0].1), bs.drop_first())
    }
}

/// Substitute each binding's value for its `{key}` marker in the template.
pub fn populate_template(template: &str, parameters: &Vec<(String, String)>) -> (r: String)
    ensures
        r@ == spec_populate(template@, pairs_view(parameters@)),
{
    let mut cur: Vec<char> = str_chars(template);
    let n: usize = parameters.len();
    let mut i: usize = 0;
    proof {
        assert(pairs_view(parameters@).skip(0) =~= pairs_view(parameters@));
    }
    while i < n
        invariant
            n == parameters@.len(),
            i <= n,
            spec_populate(template@, pairs_view(parameters@)) == spec_populate(
                cur@,
                pairs_view(parameters@).skip(i as int),
            ),
        decreases n - i,
    {
        let key_chars = str_chars(parameters[i].0.as_str());
        let mut pat: Vec<char> = Vec::new();
        pat.push('{');
        push_all(&mut pat, &key_chars);
        pat.push('}');
        let sub = str_chars(parameters[i].1.as_str());
        proof {
            assert(pat@ =~= marker_of(parameters@[i as int].0@));
            assert(pairs_view(parameters@).skip(i as int)[0] == pairs_view(
                parameters@,
            )[i as int]);
            assert(pairs_view(parameters@)[i as int] == (
                parameters@[i as int].0@,
                parameters@[i as int].1@,
            ));
            assert(pairs_view(parameters@).skip(i as int).drop_first() =~= pairs_view(
                parameters@,
            ).skip(i + 1));
        }
        cur = replace_chars(&cur, &pat, &sub);
        i = i + 1;
    }
    proof {
        assert(pairs_view(parameters@).skip(n as int) =~= Seq::<(Seq<char>, Seq<char>)>::empty());
    }
    chars_to_string(&cur)
}

} // verus!
