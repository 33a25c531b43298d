//! Small verified helpers on strings, stated over their `Seq<char>` views.

use vstd::prelude::*;
use vstd::string::StringExecFns;

verus! {

/// `needle` occurs in `hay` starting at position `i`.
pub open spec fn occurs_at(needle: Seq<char>, hay: Seq<char>, i: int) -> bool {
    &&& 0 <= i
    &&& i + needle.len() <= hay.len()
    &&& hay.subrange(i, i + needle.len()) == needle
}

/// `needle` occurs somewhere in `hay` as a contiguous run of characters.
/// The empty string occurs in every string.
pub open spec fn is_substring(needle: Seq<char>, hay: Seq<char>) -> bool {
    exists|i: int| occurs_at(needle, hay, i)
}

/// `path` names `root` itself or something below it, where path components
/// are separated by `/`: `root` is a prefix of `path` that ends at a
/// component boundary.
pub open spec fn path_under(path: Seq<char>, root: Seq<char>) -> bool {
    &&& root.is_prefix_of(path)
    &&& (path.len() == root.len() || (root.len() > 0 && root.last() == '/') || path[root.len() as int]
        == '/')
}

/// `rel` adjoined to `base`: a `rel` that starts at the root replaces
/// `base`; otherwise the two are put together with exactly one `/` between
/// them unless `base` is empty or already ends with one.
pub open spec fn join_path(base: Seq<char>, rel: Seq<char>) -> Seq<char> {
    if rel.len() > 0 && rel[0] == '/' {
        rel
    } else if base.len() == 0 || base.last() == '/' {
        base + rel
    } else {
        base + seq!['/'] + rel
    }
}

/// `text` with a `/` appended unless it already ends with one.
pub open spec fn with_trailing_slash(text: Seq<char>) -> Seq<char> {
    if text.len() > 0 && text.last() == '/' {
        text
    } else {
        text.push('/')
    }
}

/// The UTF-8 bytes of `text` can be cut at byte offset `n` without
/// splitting a character.
pub open spec fn splits_at(text: Seq<char>, n: int) -> bool {
    &&& 0 <= n <= vstd::utf8::encode_utf8(text).len()
    &&& vstd::utf8::is_char_boundary(vstd::utf8::encode_utf8(text), n)
}

/// What is left of `text` after its first `n` UTF-8 bytes.
pub open spec fn after_bytes(text: Seq<char>, n: int) -> Seq<char> {
    vstd::utf8::decode_utf8(
        vstd::utf8::encode_utf8(text).subrange(n, vstd::utf8::encode_utf8(text).len() as int),
    )
}

/// Whether `a` and `b` hold the same text.
pub fn str_eq(a: &str, b: &str) -> (r: bool)
    ensures
        r == (a@ == b@),
{
    let x = a.as_bytes();
    let y = b.as_bytes();
    proof {
        vstd::utf8::encode_utf8_decode_utf8(a@);
        vstd::utf8::encode_utf8_decode_utf8(b@);
    }
    if x.len() != y.len() {
        return false;
    }
    let mut i: usize = 0;
    while i < x.len()
        invariant
            x@ == vstd::utf8::encode_utf8(a@),
            y@ == vstd::utf8::encode_utf8(b@),
            x.len() == y.len(),
            i <= x.len(),
            forall|j: int| 0 <= j < i ==> x@[j] == y@[j],
        decreases x.len() - i,
    {
        if x[i] != y[i] {
            return false;
        }
        i += 1;
    }
    assert(x@ =~= y@);
    true
}

/// The characters of `s`, in order.
pub fn chars_of(s: &str) -> (v: Vec<char>)
    ensures
        v@ == s@,
{
    let mut v: Vec<char> = Vec::new();
    for c in it: s.chars()
        invariant
            v@ == it.seq().take(it.index() as int),
            it.seq() == s@,
    {
        v.push(c);
    }
    v
}

fn matches_at(hay: &Vec<char>, needle: &Vec<char>, start: usize) -> (r: bool)
    requires
        start + needle.len() <= hay.len(),
    ensures
        r == occurs_at(needle@, hay@, start as int),
{
    let mut k: usize = 0;
    while k < needle.len()
        invariant
            start + needle.len() <= hay.len(),
            k <= needle.len(),
            forall|j: int| 0 <= j < k ==> hay@[start + j] == needle@[j],
        decreases needle.len() - k,
    {
        if hay[start + k] != needle[k] {
            proof {
                let window = hay@.subrange(start as int, start + needle.len());
                assert(window[k as int] == hay@[start + k]);
            }
            return false;
        }
        k += 1;
    }
    assert(hay@.subrange(start as int, start + needle.len()) =~= needle@);
    true
}

/// Whether `needle` occurs in `hay`.
pub fn contains_str(hay: &str, needle: &str) -> (r: bool)
    ensures
        r == is_substring(needle@, hay@),
{
    let h = chars_of(hay);
    let n = chars_of(needle);
    if n.len() > h.len() {
        return false;
    }
    let last: usize = h.len() - n.len();
    let mut i: usize = 0;
    loop
        invariant
            h@ == hay@,
            n@ == needle@,
            n.len() <= h.len(),
            last == h.len() - n.len(),
            i <= last,
            forall|k: int| 0 <= k < i ==> !occurs_at(n@, h@, k),
        decreases last - i,
    {
        if matches_at(&h, &n, i) {
            return true;
        }
        if i == last {
            return false;
        }
        i += 1;
    }
}

/// Whether `path` is `root` or lies below it.
pub fn is_under(path: &str, root: &str) -> (r: bool)
    ensures
        r == path_under(path@, root@),
{
    let p = chars_of(path);
    let q = chars_of(root);
    if q.len() > p.len() {
        return false;
    }
    if !matches_at(&p, &q, 0) {
        assert(!q@.is_prefix_of(p@)) by {
            if q@.is_prefix_of(p@) {
                assert(p@.subrange(0, q@.len() as int) =~= q@);
            }
        }
        return false;
    }
    assert(q@.is_prefix_of(p@)) by {
        let window = p@.subrange(0, q@.len() as int);
        assert(window == q@);
        assert forall|i: int| 0 <= i < q@.len() implies q@[i] == p@[i] by {
            assert(window[i] == p@[i]);
        }
    }
    p.len() == q.len() || (q.len() > 0 && q[q.len() - 1] == '/') || p[q.len()] == '/'
}

/// `rel` adjoined to `base`.
pub fn join(base: &str, rel: &str) -> (r: String)
    ensures
        r@ == join_path(base@, rel@),
{
    let b = chars_of(base);
    let l = chars_of(rel);
    if l.len() > 0 && l[0] == '/' {
        return String::from_str(rel);
    }
    let mut out = String::from_str(base);
    if !(b.len() == 0 || b[b.len() - 1] == '/') {
        proof {
            reveal_strlit("/");
        }
        out.append("/");
        assert("/"@ =~= seq!['/']);
    }
    out.append(rel);
    out
}

/// `text`, made to end with a `/`.
pub fn ensure_trailing_slash(text: &str) -> (r: String)
    ensures
        r@ == with_trailing_slash(text@),
{
    let t = chars_of(text);
    let mut out = String::from_str(text);
    if !(t.len() > 0 && t[t.len() - 1] == '/') {
        proof {
            reveal_strlit("/");
        }
        out.append("/");
        assert(text@ + "/"@ =~= text@.push('/'));
    }
    out
}

/// `first` followed by `second`.
pub fn followed_by(first: &str, second: &str) -> (r: String)
    ensures
        r@ == first@ + second@,
{
    let mut out = String::from_str(first);
    out.append(second);
    out
}

/// What is left of `text` after its first `n` bytes, or `None` where `n`
/// is past the end of `text` or falls inside a character.
pub fn suffix_from(text: &str, n: usize) -> (r: Option<&str>)
    ensures
        r is Some <==> splits_at(text@, n as int),
        r matches Some(rest) ==> rest@ == after_bytes(text@, n as int),
{
    let len = text.as_bytes().len();
    if n <= len && text.is_char_boundary(n) {
        let (_, rest) = text.split_at(n);
        proof {
            vstd::utf8::encode_utf8_decode_utf8(rest@);
        }
        Some(rest)
    } else {
        None
    }
}

} // verus!
