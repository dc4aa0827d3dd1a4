//! String helpers the engine is built on: equality, prefix tests, the
//! module-path separator convention, path joining, and literal substring
//! replacement.  Every helper is specified against the `Seq<char>` view of
//! the strings involved.

use vstd::prelude::*;
use vstd::string::*;

verus! {

/// `pre` is a prefix of `s`.
pub open spec fn spec_starts_with(s: Seq<char>, pre: Seq<char>) -> bool {
    pre.len() <= s.len() && s.take(pre.len() as int) == pre
}

/// `sub` lies strictly inside `parent`: it starts with `parent` followed by
/// the `::` separator.
pub open spec fn spec_is_scope_child(sub: Seq<char>, parent: Seq<char>) -> bool {
    &&& sub.len() >= parent.len() + 2
    &&& sub.take(parent.len() as int) == parent
    &&& sub[parent.len() as int] == ':'
    &&& sub[parent.len() as int + 1] == ':'
}

/// Character-for-character string equality.
pub fn str_eq(a: &str, b: &str) -> (r: bool)
    ensures
        r == (a@ == b@),
{
    let alen = a.unicode_len();
    let blen = b.unicode_len();
    if alen != blen {
        return false;
    }
    let mut i: usize = 0;
    while i < alen
        invariant
            alen == a@.len(),
            blen == b@.len(),
            alen == blen,
            i <= alen,
            forall|j: int| 0 <= j < i ==> a@[j] == b@[j],
        decreases alen - i,
    {
        if a.get_char(i) != b.get_char(i) {
            return false;
        }
        i = i + 1;
    }
    proof {
        assert(a@ =~= b@);
    }
    true
}

/// Does `s` start with `pre`?
pub fn str_starts_with(s: &str, pre: &str) -> (r: bool)
    ensures
        r == spec_starts_with(s@, pre@),
{
    let slen = s.unicode_len();
    let plen = pre.unicode_len();
    if plen > slen {
        return false;
    }
    let mut i: usize = 0;
    while i < plen
        invariant
            slen == s@.len(),
            plen == pre@.len(),
            plen <= slen,
            i <= plen,
            forall|j: int| 0 <= j < i ==> s@[j] == pre@[j],
        decreases plen - i,
    {
        if s.get_char(i) != pre.get_char(i) {
            return false;
        }
        i = i + 1;
    }
    proof {
        assert(s@.take(plen as int) =~= pre@);
    }
    true
}

/// Does `sub` denote a module strictly inside `parent` (that is, does it
/// start with `parent` followed by `::`)?
pub fn is_scope_child(sub: &str, parent: &str) -> (r: bool)
    ensures
        r == spec_is_scope_child(sub@, parent@),
{
    if !str_starts_with(sub, parent) {
        return false;
    }
    let sublen = sub.unicode_len();
    let plen = parent.unicode_len();
    if sublen < plen || sublen - plen < 2 {
        return false;
    }
    sub.get_char(plen) == ':' && sub.get_char(plen + 1) == ':'
}

/// Does the vector contain the given string?
pub fn vec_contains_str(v: &Vec<String>, s: &str) -> (r: bool)
    ensures
        r == v.deep_view().contains(s@),
{
    let mut i: usize = 0;
    while i < v.len()
        invariant
            i <= v.len(),
            v.deep_view().len() == v.len(),
            forall|j: int| 0 <= j < i ==> v.deep_view()[j] != s@,
        decreases v.len() - i,
    {
        if str_eq(v[i].as_str(), s) {
            proof {
                assert(v.deep_view()[i as int] == s@);
            }
            return true;
        }
        i = i + 1;
    }
    false
}

/// The module path denoted by a sequence of path segments: the segments
/// joined by `::`, except that empty accumulated prefixes take no separator.
pub open spec fn spec_joined_path(parts: Seq<Seq<char>>) -> Seq<char>
    decreases parts.len(),
{
    if parts.len() == 0 {
        Seq::empty()
    } else {
        let init = spec_joined_path(parts.drop_last());
        if init.len() == 0 {
            init + parts.last()
        } else {
            init + seq![':', ':'] + parts.last()
        }
    }
}

/// Join the first `n` of the given segments into one module path.
pub fn joined_path_upto(parts: &Vec<String>, n: usize) -> (r: String)
    requires
        n <= parts.len(),
    ensures
        r@ == spec_joined_path(parts.deep_view().take(n as int)),
{
    let mut out = String::new();
    let mut i: usize = 0;
    proof {
        assert(parts.deep_view().take(0) =~= Seq::<Seq<char>>::empty());
    }
    while i < n
        invariant
            n <= parts.len(),
            i <= n,
            parts.deep_view().len() == parts.len(),
            out@ == spec_joined_path(parts.deep_view().take(i as int)),
        decreases n - i,
    {
        if !out.as_str().is_empty() {
            out.append("::");
            proof {
                reveal_strlit("::");
                assert("::"@ =~= seq![':', ':']);
            }
        }
        out.append(parts[i].as_str());
        proof {
            let dv = parts.deep_view();
            assert(dv.take(i + 1).drop_last() =~= dv.take(i as int));
            assert(dv.take(i + 1).last() == dv[i as int]);
        }
        i = i + 1;
    }
    out
}

/// Literal substring replacement, scanning left to right and never
/// rescanning replaced text.  An empty pattern replaces nothing.
pub open spec fn spec_replaced(text: Seq<char>, pat: Seq<char>, rep: Seq<char>) -> Seq<char>
    decreases text.len(),
{
    if pat.len() == 0 {
        text
    } else if text.len() < pat.len() {
        text
    } else if text.take(pat.len() as int) == pat {
        rep + spec_replaced(text.skip(pat.len() as int), pat, rep)
    } else {
        seq![text[0]] + spec_replaced(text.skip(1), pat, rep)
    }
}

/// Does `pat` occur in `text` starting at position `at`?
fn matches_at(text: &str, pat: &str, at: usize) -> (r: bool)
    requires
        at + pat@.len() <= text@.len(),
        text@.len() <= usize::MAX,
    ensures
        r == (text@.subrange(at as int, at + pat@.len()) == pat@),
{
    let plen = pat.unicode_len();
    let mut i: usize = 0;
    while i < plen
        invariant
            plen == pat@.len(),
            at + plen <= text@.len(),
            text@.len() <= usize::MAX,
            i <= plen,
            forall|j: int| 0 <= j < i ==> text@[at + j] == pat@[j],
        decreases plen - i,
    {
        if text.get_char(at + i) != pat.get_char(i) {
            proof {
                assert(text@.subrange(at as int, at + plen)[i as int] != pat@[i as int]);
            }
            return false;
        }
        i = i + 1;
    }
    proof {
        assert(text@.subrange(at as int, at + plen) =~= pat@);
    }
    true
}

/// Replace every occurrence of `pat` in `text` by `rep`, scanning left to
/// right.
pub fn replace_all(text: &str, pat: &str, rep: &str) -> (r: String)
    ensures
        r@ == spec_replaced(text@, pat@, rep@),
{
    let tlen = text.unicode_len();
    let plen = pat.unicode_len();
    if plen == 0 {
        return text.to_owned();
    }
    let mut out = String::new();
    let mut i: usize = 0;
    proof {
        assert(text@.skip(0) =~= text@);
        assert(Seq::<char>::empty() + spec_replaced(text@, pat@, rep@) =~= spec_replaced(
            text@,
            pat@,
            rep@,
        ));
    }
    while i < tlen
        invariant
            tlen == text@.len(),
            plen == pat@.len(),
            plen >= 1,
            i <= tlen,
            out@ + spec_replaced(text@.skip(i as int), pat@, rep@) == spec_replaced(
                text@,
                pat@,
                rep@,
            ),
        decreases tlen - i,
    {
        let ghost rest = text@.skip(i as int);
        if plen <= tlen - i && matches_at(text, pat, i) {
            out.append(rep);
            proof {
                assert(rest.take(plen as int) =~= text@.subrange(i as int, i + plen));
                assert(rest.skip(plen as int) =~= text@.skip(i + plen));
            }
            i = i + plen;
        } else {
            let c = text.substring_char(i, i + 1);
            out.append(c);
            proof {
                if rest.len() >= plen {
                    assert(rest.take(plen as int) =~= text@.subrange(i as int, i + plen));
                }
                assert(seq![rest[0]] =~= c@);
                assert(rest.skip(1) =~= text@.skip(i + 1));
            }
            i = i + 1;
        }
    }
    proof {
        assert(text@.skip(tlen as int) =~= Seq::<char>::empty());
        assert(out@ =~= out@ + Seq::<char>::empty());
    }
    out
}

} // verus!
