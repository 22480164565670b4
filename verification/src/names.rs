//! Identifier casing and qualified-name handling: pascal-case and camel-case
//! normalisation of identifier words, and splitting a module-path-qualified
//! name into its module segments and its leaf name.

use vstd::prelude::*;

use crate::text::{
    chars_to_string, lemma_split_nonempty, split_chars, spec_split, str_chars, views_of_chars,
    views_of_strings,
};

verus! {

/// ASCII lower-case letters map to the corresponding capital; every other
/// character is left unchanged.
pub open spec fn upper_char(c: char) -> char {
    if 'a' <= c && c <= 'z' {
        ((c as u8) - 0x20) as char
    } else {
        c
    }
}

/// ASCII capital letters map to the corresponding lower-case letter; every
/// other character is left unchanged.
pub open spec fn lower_char(c: char) -> char {
    if 'A' <= c && c <= 'Z' {
        ((c as u8) + 0x20) as char
    } else {
        c
    }
}

/// The characters that separate the words of an identifier.
pub open spec fn is_word_sep(c: char) -> bool {
    c == '-' || c == '_' || c == ' ' || c == '\t' || c == '\n' || c == '\r'
}

/// Pascal-case normalisation of the suffix of an identifier: word separators
/// are dropped, the first letter of each word is capitalised and the other
/// letters of a word are lowered. `word_start` says whether the scan stands at
/// the beginning of a word.
pub open spec fn spec_pascal_rec(s: Seq<char>, word_start: bool) -> Seq<char>
    decreases s.len(),
{
    if s.len() == 0 {
        Seq::<char>::empty()
    } else if is_word_sep(s[0]) {
        spec_pascal_rec(s.drop_first(), true)
    } else if word_start {
        seq![upper_char(s[0])] + spec_pascal_rec(s.drop_first(), false)
    } else {
        seq![lower_char(s[0])] + spec_pascal_rec(s.drop_first(), false)
    }
}

/// Pascal-case form of a whole identifier.
pub open spec fn spec_pascal(s: Seq<char>) -> Seq<char> {
    spec_pascal_rec(s, true)
}

/// Camel-case form of an identifier: its pascal-case form with the first
/// character lowered.
pub open spec fn spec_camel(s: Seq<char>) -> Seq<char> {
    let p = spec_pascal(s);
    if p.len() == 0 {
        p
    } else {
        seq![lower_char(p[0])] + p.drop_first()
    }
}

/// The segments of a qualified name, separated by `::`.
pub open spec fn spec_segments(s: Seq<char>) -> Seq<Seq<char>> {
    spec_split(s, "::"@)
}

/// The module-path segments of a qualified name: all segments but the last.
pub open spec fn spec_modules(s: Seq<char>) -> Seq<Seq<char>> {
    spec_segments(s).drop_last()
}

/// The leaf name of a qualified name: its last segment.
pub open spec fn spec_leaf(s: Seq<char>) -> Seq<char> {
    spec_segments(s).last()
}

fn upper_char_exec(c: char) -> (r: char)
    ensures
        r == upper_char(c),
{
    if 'a' <= c && c <= 'z' {
        ((c as u8) - 0x20) as char
    } else {
        c
    }
}

fn lower_char_exec(c: char) -> (r: char)
    ensures
        r == lower_char(c),
{
    if 'A' <= c && c <= 'Z' {
        ((c as u8) + 0x20) as char
    } else {
        c
    }
}

fn is_word_sep_exec(c: char) -> (r: bool)
    ensures
        r == is_word_sep(c),
{
    c == '-' || c == '_' || c == ' ' || c == '\t' || c == '\n' || c == '\r'
}

/// Pascal-case the characters of an identifier.
pub fn pascal_chars(v: &Vec<char>) -> (r: Vec<char>)
    ensures
        r@ == spec_pascal(v@),
{
    let n: usize = v.len();
    let mut out: Vec<char> = Vec::new();
    let mut word_start: bool = true;
    let mut i: usize = 0;
    proof {
        assert(v@.skip(0) =~= v@);
        assert(Seq::<char>::empty() + spec_pascal_rec(v@, true) =~= spec_pascal_rec(v@, true));
    }
    while i < n
        invariant
            n == v@.len(),
            i <= n,
            spec_pascal(v@) == out@ + spec_pascal_rec(v@.skip(i as int), word_start),
        decreases n - i,
    {
        proof {
            assert(v@.skip(i as int).drop_first() =~= v@.skip(i + 1));
            assert(v@.skip(i as int)[0] == v@[i as int]);
        }
        let c = v[i];
        if is_word_sep_exec(c) {
            word_start = true;
        } else if word_start {
            proof {
                assert(out@ + (seq![upper_char(v@[i as int])] + spec_pascal_rec(
                    v@.skip(i + 1),
                    false,
                )) =~= out@.push(upper_char(v@[i as int])) + spec_pascal_rec(
                    v@.skip(i + 1),
                    false,
                ));
            }
            out.push(upper_char_exec(c));
            word_start = false;
        } else {
            proof {
                assert(out@ + (seq![lower_char(v@[i as int])] + spec_pascal_rec(
                    v@.skip(i + 1),
                    false,
                )) =~= out@.push(lower_char(v@[i as int])) + spec_pascal_rec(
                    v@.skip(i + 1),
                    false,
                ));
            }
            out.push(lower_char_exec(c));
            word_start = false;
        }
        i = i + 1;
    }
    proof {
        assert(v@.skip(n as int) =~= Seq::<char>::empty());
        assert(out@ + Seq::<char>::empty() =~= out@);
    }
    out
}

/// Camel-case the characters of an identifier.
pub fn camel_chars(v: &Vec<char>) -> (r: Vec<char>)
    ensures
        r@ == spec_camel(v@),
{
    let p = pascal_chars(v);
    if p.len() == 0 {
        return p;
    }
    let n: usize = p.len();
    let mut out: Vec<char> = Vec::new();
    out.push(lower_char_exec(p[0]));
    let mut i: usize = 1;
    while i < n
        invariant
            n == p@.len(),
            1 <= i <= n,
            out@ == seq![lower_char(p@[0])] + p@.subrange(1, i as int),
        decreases n - i,
    {
        out.push(p[i]);
        i = i + 1;
        proof {
            assert(seq![lower_char(p@[0])] + p@.subrange(1, i - 1) + seq![p@[i - 1]] =~= seq![
                lower_char(p@[0]),
            ] + p@.subrange(1, i as int));
        }
    }
    proof {
        assert(p@.subrange(1, n as int) =~= p@.drop_first());
    }
    out
}

/// Rewrite an identifier in pascal case: words are split on hyphens,
/// underscores and whitespace, each word is capitalised, and the words are
/// concatenated.
pub fn to_pascal_case(name: &str) -> (r: String)
    ensures
        r@ == spec_pascal(name@),
{
    let v = str_chars(name);
    let p = pascal_chars(&v);
    chars_to_string(&p)
}

/// Rewrite an identifier in camel case: its pascal-case form with the first
/// character lowered.
pub fn to_camel_case(name: &str) -> (r: String)
    ensures
        r@ == spec_camel(name@),
{
    let v = str_chars(name);
    let c = camel_chars(&v);
    chars_to_string(&c)
}

/// The module-path segments of a qualified name, in order, without the leaf.
pub fn get_modules(full_path: &str) -> (r: Vec<String>)
    ensures
        views_of_strings(r@) == spec_modules(full_path@),
{
    let v = str_chars(full_path);
    let sep = str_chars("::");
    proof {
        reveal_strlit("::");
    }
    let parts = split_chars(&v, &sep);
    let count: usize = parts.len();
    proof {
        lemma_split_nonempty(v@, sep@);
        assert(views_of_chars(parts@).len() == parts@.len());
        assert(views_of_strings(Seq::<String>::empty()) =~= spec_segments(full_path@).take(0));
    }
    let mut out: Vec<String> = Vec::new();
    let mut i: usize = 0;
    while i < count - 1
        invariant
            count == parts@.len(),
            count >= 1,
            i <= count - 1,
            views_of_chars(parts@) == spec_segments(full_path@),
            views_of_strings(out@) == spec_segments(full_path@).take(i as int),
        decreases count - i,
    {
        let s = chars_to_string(&parts[i]);
        proof {
            assert(s@ == views_of_chars(parts@)[i as int]);
            assert(views_of_strings(out@.push(s)) =~= views_of_strings(out@).push(s@));
            assert(spec_segments(full_path@).take(i + 1) =~= spec_segments(full_path@).take(
                i as int,
            ).push(spec_segments(full_path@)[i as int]));
        }
        out.push(s);
        i = i + 1;
    }
    proof {
        assert(spec_segments(full_path@).take(count - 1) =~= spec_modules(full_path@));
    }
    out
}

/// The leaf name of a qualified name: everything after the last `::`.
pub fn get_unqualified_name(full_path: &str) -> (r: String)
    ensures
        r@ == spec_leaf(full_path@),
{
    let v = str_chars(full_path);
    let sep = str_chars("::");
    proof {
        reveal_strlit("::");
    }
    let parts = split_chars(&v, &sep);
    proof {
        lemma_split_nonempty(v@, sep@);
        assert(views_of_chars(parts@).len() == parts@.len());
        assert(views_of_chars(parts@)[parts@.len() - 1] == parts@[parts@.len() - 1]@);
    }
    let last = &parts[parts.len() - 1];
    chars_to_string(last)
}

} // verus!
