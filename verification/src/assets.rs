//! The media type a static asset is served with, chosen from the extension
//! after the last dot of the path.

use vstd::prelude::*;

use crate::text::chars_of;

verus! {

/// The characters after the last dot of `p`, or `None` when `p` has no dot.
pub open spec fn extension_of(p: Seq<char>) -> Option<Seq<char>>
    decreases p.len(),
{
    if p.len() == 0 {
        None
    } else if p.last() == '.' {
        Some(Seq::empty())
    } else {
        match extension_of(p.drop_last()) {
            Some(e) => Some(e.push(p.last())),
            None => None,
        }
    }
}

/// The media type for a path: by its extension, with a binary default.
pub open spec fn media_type_of(p: Seq<char>) -> Seq<char> {
    match extension_of(p) {
        Some(e) => {
            if e == "html"@ {
                "text/html;charset=UTF-8"@
            } else if e == "css"@ {
                "text/css;charset=UTF-8"@
            } else if e == "js"@ {
                "text/javascript;charset=UTF-8"@
            } else if e == "wasm"@ {
                "application/wasm"@
            } else {
                "application/octet-stream"@
            }
        },
        None => "application/octet-stream"@,
    }
}

proof fn lemma_extension_at_dot(p: Seq<char>, k: int)
    requires
        0 <= k < p.len(),
        p[k] == '.',
        forall|j: int| k < j < p.len() ==> p[j] != '.',
    ensures
        extension_of(p) == Some(p.subrange(k + 1, p.len() as int)),
    decreases p.len() - k,
{
    if k == p.len() - 1 {
        assert(p.subrange(k + 1, p.len() as int) =~= Seq::empty());
    } else {
        assert(p.last() != '.');
        lemma_extension_at_dot(p.drop_last(), k);
        let e = p.drop_last().subrange(k + 1, p.len() - 1);
        assert(e.push(p.last()) =~= p.subrange(k + 1, p.len() as int));
    }
}

proof fn lemma_extension_no_dot(p: Seq<char>)
    requires
        forall|j: int| 0 <= j < p.len() ==> p[j] != '.',
    ensures
        extension_of(p) is None,
    decreases p.len(),
{
    if p.len() > 0 {
        lemma_extension_no_dot(p.drop_last());
    }
}

/// Whether the characters of `v` from `from` to the end are exactly `lit`.
fn suffix_is(v: &Vec<char>, from: usize, lit: &Vec<char>) -> (r: bool)
    requires
        from <= v.len(),
    ensures
        r == (v@.subrange(from as int, v@.len() as int) == lit@),
{
    let n = v.len() - from;
    if n != lit.len() {
        assert(v@.subrange(from as int, v@.len() as int).len() != lit@.len());
        return false;
    }
    let mut i: usize = 0;
    while i < n
        invariant
            from + n == v.len(),
            n == lit.len(),
            i <= n,
            forall|j: int| 0 <= j < i ==> v@[from + j] == lit@[j],
        decreases n - i,
    {
        if v[from + i] != lit[i] {
            assert(v@.subrange(from as int, v@.len() as int)[i as int] != lit@[i as int]);
            return false;
        }
        i = i + 1;
    }
    assert(v@.subrange(from as int, v@.len() as int) =~= lit@);
    true
}

/// The answer to a read request, decided from whether the asset at the
/// requested path could be read: the asset itself under its own media
/// type, or the index page under its media type as the fallback. The read
/// is the caller's; only its outcome comes in.
pub fn asset_choice(found: bool, path: &String) -> (r: (String, &'static str))
    ensures
        r.0@ == if found {
            path@
        } else {
            "index.html"@
        },
        r.1@ == media_type_of(r.0@),
{
    if found {
        let mt = content_type(path.as_str());
        (path.clone(), mt)
    } else {
        let fallback = String::from_str("index.html");
        let mt = content_type(fallback.as_str());
        (fallback, mt)
    }
}

/// The media type an asset at `path` is served with.
pub fn content_type(path: &str) -> (r: &'static str)
    ensures
        r@ == media_type_of(path@),
{
    let v = chars_of(path);
    let mut i: usize = v.len();
    while i > 0
        invariant
            i <= v.len(),
            v@ == path@,
            forall|j: int| i <= j < v@.len() ==> v@[j] != '.',
        decreases i,
    {
        if v[i - 1] == '.' {
            proof {
                lemma_extension_at_dot(path@, i - 1);
            }
            let html = chars_of("html");
            let css = chars_of("css");
            let js = chars_of("js");
            let wasm = chars_of("wasm");
            if suffix_is(&v, i, &html) {
                return "text/html;charset=UTF-8";
            } else if suffix_is(&v, i, &css) {
                return "text/css;charset=UTF-8";
            } else if suffix_is(&v, i, &js) {
                return "text/javascript;charset=UTF-8";
            } else if suffix_is(&v, i, &wasm) {
                return "application/wasm";
            } else {
                return "application/octet-stream";
            }
        }
        i = i - 1;
    }
    proof {
        lemma_extension_no_dot(path@);
    }
    "application/octet-stream"
}

} // verus!
