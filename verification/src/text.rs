//! Character-sequence utilities shared by the generators: conversions between
//! `str`/`String` and `Vec<char>`, substring matching, replacement, and
//! splitting and joining on separators.

use vstd::prelude::*;

verus! {

/// The pattern `pat` occurs in `s` starting at position `i`.
pub open spec fn matches_at(s: Seq<char>, pat: Seq<char>, i: int) -> bool {
    0 <= i && i + pat.len() <= s.len() && s.subrange(i, i + pat.len()) == pat
}

/// Collect the characters of a string slice.
pub fn str_chars(s: &str) -> (v: Vec<char>)
    ensures
        v@ == s@,
{
    let n: usize = s.unicode_len();
    let mut v: Vec<char> = Vec::new();
    let mut i: usize = 0;
    while i < n
        invariant
            n == s@.len(),
            i <= n,
            v@ == s@.subrange(0, i as int),
        decreases n - i,
    {
        let c = s.get_char(i);
        v.push(c);
        i = i + 1;
        proof {
            assert(v@ =~= s@.subrange(0, i as int));
        }
    }
    proof {
        assert(v@ =~= s@);
    }
    v
}

/// Relies on `String::from_iter` over `char`: the resulting string consists of
/// exactly the characters of the iterator, in order.
#[verifier::external_body]
pub fn chars_to_string(v: &Vec<char>) -> (r: String)
    ensures
        r@ == v@,
{
    v.iter().collect()
}

/// Compare two character vectors for equality.
pub fn chars_eq(a: &Vec<char>, b: &Vec<char>) -> (r: bool)
    ensures
        r == (a@ == b@),
{
    if a.len() != b.len() {
        proof {
            assert(a@ != b@);
        }
        return false;
    }
    let n: usize = a.len();
    let mut i: usize = 0;
    while i < n
        invariant
            n == a@.len() && n == b@.len(),
            i <= n,
            forall|k: int| 0 <= k < i ==> a@[k] == b@[k],
        decreases n - i,
    {
        if a[i] != b[i] {
            return false;
        }
        i = i + 1;
    }
    proof {
        assert(a@ =~= b@);
    }
    true
}

/// Compare two string slices for equality of their character contents.
pub fn str_eq(a: &str, b: &str) -> (r: bool)
    ensures
        r == (a@ == b@),
{
    let va = str_chars(a);
    let vb = str_chars(b);
    chars_eq(&va, &vb)
}

/// Decide whether `pat` occurs in `v` at position `i`.
pub fn has_match_at(v: &Vec<char>, pat: &Vec<char>, i: usize) -> (r: bool)
    requires
        i <= v@.len(),
    ensures
        r == matches_at(v@, pat@, i as int),
{
    if pat.len() > v.len() - i {
        return false;
    }
    let vlen: usize = v.len();
    let n: usize = pat.len();
    let mut k: usize = 0;
    while k < n
        invariant
            n == pat@.len(),
            vlen == v@.len(),
            i + n <= vlen,
            k <= n,
            forall|j: int| 0 <= j < k ==> v@[i + j] == pat@[j],
        decreases n - k,
    {
        if v[i + k] != pat[k] {
            proof {
                assert(v@.subrange(i as int, i + pat@.len())[k as int] == v@[i + k]);
            }
            return false;
        }
        k = k + 1;
    }
    proof {
        assert(v@.subrange(i as int, i + pat@.len()) =~= pat@);
    }
    true
}

/// Append the contents of `src` to `dst`.
pub fn push_all(dst: &mut Vec<char>, src: &Vec<char>)
    ensures
        final(dst)@ == old(dst)@ + src@,
{
    let n: usize = src.len();
    let mut i: usize = 0;
    while i < n
        invariant
            n == src@.len(),
            i <= n,
            dst@ == old(dst)@ + src@.subrange(0, i as int),
        decreases n - i,
    {
        dst.push(src[i]);
        i = i + 1;
        proof {
            assert(old(dst)@ + src@.subrange(0, i - 1) + seq![src@[i - 1]] =~= old(dst)@
                + src@.subrange(0, i as int));
        }
    }
    proof {
        assert(old(dst)@ + src@.subrange(0, n as int) =~= old(dst)@ + src@);
    }
}

/// The character contents of each vector in a sequence of vectors.
pub open spec fn views_of_chars(s: Seq<Vec<char>>) -> Seq<Seq<char>> {
    s.map_values(|v: Vec<char>| v@)
}

/// The character contents of each string in a sequence of strings.
pub open spec fn views_of_strings(s: Seq<String>) -> Seq<Seq<char>> {
    s.map_values(|x: String| x@)
}

/// Leftmost, non-overlapping replacement of every occurrence of `pat` by
/// `sub`, scanning left to right. For an empty `pat` the scan finds no
/// occurrence and returns `s` unchanged.
pub open spec fn spec_replace_all(s: Seq<char>, pat: Seq<char>, sub: Seq<char>) -> Seq<char>
    decreases s.len(),
{
    if pat.len() > 0 && matches_at(s, pat, 0) {
        sub + spec_replace_all(s.skip(pat.len() as int), pat, sub)
    } else if s.len() == 0 {
        s
    } else {
        seq![s[0]] + spec_replace_all(s.skip(1), pat, sub)
    }
}

/// Matching at position `i` of the whole string is matching at position 0 of
/// the tail that starts at `i`.
pub proof fn lemma_skip_match(s: Seq<char>, pat: Seq<char>, i: int)
    requires
        0 <= i <= s.len(),
    ensures
        matches_at(s, pat, i) == matches_at(s.skip(i), pat, 0),
{
    if i + pat.len() <= s.len() {
        assert(s.skip(i).subrange(0, pat.len() as int) =~= s.subrange(i, i + pat.len()));
    }
}

/// Replace every occurrence of `pat` in `text` by `sub`.
pub fn replace_chars(text: &Vec<char>, pat: &Vec<char>, sub: &Vec<char>) -> (r: Vec<char>)
    requires
        pat@.len() > 0,
    ensures
        r@ == spec_replace_all(text@, pat@, sub@),
{
    let n: usize = text.len();
    let plen: usize = pat.len();
    let mut out: Vec<char> = Vec::new();
    let mut i: usize = 0;
    proof {
        assert(text@.skip(0) =~= text@);
        assert(Seq::<char>::empty() + spec_replace_all(text@, pat@, sub@) =~= spec_replace_all(
            text@,
            pat@,
            sub@,
        ));
    }
    while i < n
        invariant
            n == text@.len(),
            plen == pat@.len(),
            plen > 0,
            i <= n,
            spec_replace_all(text@, pat@, sub@) == out@ + spec_replace_all(
                text@.skip(i as int),
                pat@,
                sub@,
            ),
        decreases n - i,
    {
        if has_match_at(text, pat, i) {
            proof {
                lemma_skip_match(text@, pat@, i as int);
                assert(text@.skip(i as int).skip(plen as int) =~= text@.skip(i + plen));
                assert(out@ + (sub@ + spec_replace_all(text@.skip(i + plen), pat@, sub@)) =~= (out@
                    + sub@) + spec_replace_all(text@.skip(i + plen), pat@, sub@));
            }
            push_all(&mut out, sub);
            i = i + plen;
        } else {
            proof {
                lemma_skip_match(text@, pat@, i as int);
                assert(text@.skip(i as int).drop_first() =~= text@.skip(i + 1));
                assert(text@.skip(i as int)[0] == text@[i as int]);
                assert(out@ + (seq![text@[i as int]] + spec_replace_all(
                    text@.skip(i + 1),
                    pat@,
                    sub@,
                )) =~= out@.push(text@[i as int]) + spec_replace_all(text@.skip(i + 1), pat@, sub@));
            }
            out.push(text[i]);
            i = i + 1;
        }
    }
    proof {
        assert(text@.skip(n as int) =~= Seq::<char>::empty());
        assert(out@ + Seq::<char>::empty() =~= out@);
    }
    out
}

/// The segments of `s` between the occurrences of the separator `sep`,
/// scanning left to right; there is always at least one segment.
pub open spec fn spec_split(s: Seq<char>, sep: Seq<char>) -> Seq<Seq<char>>
    decreases s.len(),
{
    if sep.len() > 0 && matches_at(s, sep, 0) {
        seq![Seq::<char>::empty()] + spec_split(s.skip(sep.len() as int), sep)
    } else if s.len() == 0 {
        seq![Seq::<char>::empty()]
    } else {
        let rest = spec_split(s.skip(1), sep);
        seq![seq![s[0]] + rest[0]] + rest.drop_first()
    }
}

pub proof fn lemma_split_nonempty(s: Seq<char>, sep: Seq<char>)
    ensures
        spec_split(s, sep).len() >= 1,
    decreases s.len(),
{
    if sep.len() > 0 && matches_at(s, sep, 0) {
    } else if s.len() == 0 {
    } else {
        lemma_split_nonempty(s.skip(1), sep);
    }
}

/// The first segment extended at the front by `p`, the rest unchanged.
pub open spec fn cons_first(p: Seq<char>, ss: Seq<Seq<char>>) -> Seq<Seq<char>>
    recommends
        ss.len() >= 1,
{
    seq![p + ss[0]] + ss.drop_first()
}

/// Split `text` on the separator `sep`.
pub fn split_chars(text: &Vec<char>, sep: &Vec<char>) -> (r: Vec<Vec<char>>)
    requires
        sep@.len() > 0,
    ensures
        views_of_chars(r@) == spec_split(text@, sep@),
{
    let n: usize = text.len();
    let slen: usize = sep.len();
    let mut out: Vec<Vec<char>> = Vec::new();
    let mut cur: Vec<char> = Vec::new();
    let mut i: usize = 0;
    proof {
        lemma_split_nonempty(text@, sep@);
        assert(text@.skip(0) =~= text@);
        assert(cur@ + spec_split(text@, sep@)[0] =~= spec_split(text@, sep@)[0]);
        assert(cons_first(cur@, spec_split(text@, sep@)) =~= spec_split(text@, sep@));
        assert(views_of_chars(out@) + cons_first(cur@, spec_split(text@, sep@)) =~= cons_first(
            cur@,
            spec_split(text@, sep@),
        ));
    }
    while i < n
        invariant
            n == text@.len(),
            slen == sep@.len(),
            slen > 0,
            i <= n,
            spec_split(text@, sep@) == views_of_chars(out@) + cons_first(
                cur@,
                spec_split(text@.skip(i as int), sep@),
            ),
        decreases n - i,
    {
        if has_match_at(text, sep, i) {
            proof {
                lemma_skip_match(text@, sep@, i as int);
                assert(text@.skip(i as int).skip(slen as int) =~= text@.skip(i + slen));
                lemma_split_nonempty(text@.skip(i + slen), sep@);
                let tail = spec_split(text@.skip(i + slen), sep@);
                assert(cons_first(cur@, seq![Seq::<char>::empty()] + tail) =~= seq![cur@] + tail);
                assert(views_of_chars(out@.push(cur)) =~= views_of_chars(out@) + seq![cur@]);
                assert(cons_first(Seq::<char>::empty(), tail) =~= tail);
                assert(views_of_chars(out@) + (seq![cur@] + tail) =~= (views_of_chars(out@) + seq![
                    cur@,
                ]) + tail);
            }
            out.push(cur);
            cur = Vec::new();
            i = i + slen;
        } else {
            proof {
                lemma_skip_match(text@, sep@, i as int);
                assert(text@.skip(i as int).drop_first() =~= text@.skip(i + 1));
                assert(text@.skip(i as int)[0] == text@[i as int]);
                lemma_split_nonempty(text@.skip(i + 1), sep@);
                let rest = spec_split(text@.skip(i + 1), sep@);
                assert(cur@ + (seq![text@[i as int]] + rest[0]) =~= cur@.push(text@[i as int])
                    + rest[0]);
                assert(cons_first(cur@, seq![seq![text@[i as int]] + rest[0]] + rest.drop_first())
                    =~= cons_first(cur@.push(text@[i as int]), rest));
            }
            cur.push(text[i]);
            i = i + 1;
        }
    }
    proof {
        assert(text@.skip(n as int) =~= Seq::<char>::empty());
        let last = spec_split(Seq::<char>::empty(), sep@);
        assert(cons_first(cur@, last) =~= seq![cur@]);
        assert(views_of_chars(out@.push(cur)) =~= views_of_chars(out@) + seq![cur@]);
    }
    out.push(cur);
    out
}

/// Append copies of the strings in `src` to `dst`.
pub fn append_strings(dst: &mut Vec<String>, src: &Vec<String>)
    ensures
        final(dst)@ == old(dst)@ + src@,
{
    let n: usize = src.len();
    let mut i: usize = 0;
    while i < n
        invariant
            n == src@.len(),
            i <= n,
            dst@ == old(dst)@ + src@.subrange(0, i as int),
        decreases n - i,
    {
        let s = src[i].clone();
        dst.push(s);
        i = i + 1;
        proof {
            assert(old(dst)@ + src@.subrange(0, i - 1) + seq![src@[i - 1]] =~= old(dst)@
                + src@.subrange(0, i as int));
        }
    }
    proof {
        assert(old(dst)@ + src@.subrange(0, n as int) =~= old(dst)@ + src@);
    }
}

/// Turn a list of character vectors into a list of strings with the same
/// contents.
pub fn strings_of(parts: &Vec<Vec<char>>) -> (r: Vec<String>)
    ensures
        views_of_strings(r@) == views_of_chars(parts@),
{
    let n: usize = parts.len();
    let mut out: Vec<String> = Vec::new();
    let mut i: usize = 0;
    proof {
        assert(views_of_strings(out@) =~= views_of_chars(parts@).take(0));
    }
    while i < n
        invariant
            n == parts@.len(),
            i <= n,
            views_of_strings(out@) == views_of_chars(parts@).take(i as int),
        decreases n - i,
    {
        let s = chars_to_string(&parts[i]);
        proof {
            assert(s@ == views_of_chars(parts@)[i as int]);
            assert(views_of_strings(out@.push(s)) =~= views_of_strings(out@).push(s@));
            assert(views_of_chars(parts@).take(i + 1) =~= views_of_chars(parts@).take(
                i as int,
            ).push(views_of_chars(parts@)[i as int]));
        }
        out.push(s);
        i = i + 1;
    }
    proof {
        assert(views_of_chars(parts@).take(n as int) =~= views_of_chars(parts@));
    }
    out
}

/// The parts joined by the separator `sep`.
pub open spec fn spec_join(parts: Seq<Seq<char>>, sep: Seq<char>) -> Seq<char>
    decreases parts.len(),
{
    if parts.len() == 0 {
        Seq::<char>::empty()
    } else if parts.len() == 1 {
        parts[0]
    } else {
        parts[0] + sep + spec_join(parts.drop_first(), sep)
    }
}

pub proof fn lemma_join_push(parts: Seq<Seq<char>>, sep: Seq<char>, x: Seq<char>)
    requires
        parts.len() >= 1,
    ensures
        spec_join(parts.push(x), sep) == spec_join(parts, sep) + sep + x,
    decreases parts.len(),
{
    if parts.len() == 1 {
        assert(parts.push(x).drop_first() =~= seq![x]);
        assert(parts.push(x)[0] == parts[0]);
        assert(spec_join(seq![x], sep) == x);
        assert(spec_join(parts.push(x), sep) == parts[0] + sep + x);
    } else {
        assert(parts.push(x).drop_first() =~= parts.drop_first().push(x));
        lemma_join_push(parts.drop_first(), sep, x);
        assert(parts[0] + sep + (spec_join(parts.drop_first(), sep) + sep + x) =~= (parts[0] + sep
            + spec_join(parts.drop_first(), sep)) + sep + x);
    }
}

/// Join the parts with the separator `sep`.
pub fn join_chars(parts: &Vec<Vec<char>>, sep: &Vec<char>) -> (r: Vec<char>)
    ensures
        r@ == spec_join(views_of_chars(parts@), sep@),
{
    let n: usize = parts.len();
    let mut out: Vec<char> = Vec::new();
    let mut i: usize = 0;
    while i < n
        invariant
            n == parts@.len(),
            i <= n,
            i == 0 ==> out@ == Seq::<char>::empty(),
            i > 0 ==> out@ == spec_join(views_of_chars(parts@.take(i as int)), sep@),
        decreases n - i,
    {
        proof {
            assert(views_of_chars(parts@.take(i + 1)) =~= views_of_chars(
                parts@.take(i as int),
            ).push(parts@[i as int]@));
        }
        if i > 0 {
            proof {
                assert(views_of_chars(parts@.take(i as int)).len() == i);
                lemma_join_push(views_of_chars(parts@.take(i as int)), sep@, parts@[i as int]@);
            }
            push_all(&mut out, sep);
        } else {
            proof {
                assert(views_of_chars(parts@.take(1))
                    =~= seq![parts@[0]@]);
            }
        }
        let part = &parts[i];
        push_all(&mut out, part);
        i = i + 1;
    }
    proof {
        if n > 0 {
            assert(parts@.take(n as int) =~= parts@);
        }
    }
    out
}

} // verus!
