//! The CSS rewriter: two ordered passes over one text. Pass 1 replaces each
//! `@import` whose stylesheet was fetched with the fetched text, wrapped in
//! `@media <query> { ... }` when the directive carried a media query. Pass 2
//! replaces every `url(...)` reference with `url(<data URI>)`, falling back
//! to `url(<original reference>)` when the fetch failed. Pass 1 runs first
//! so that `url()` references inside freshly inlined imports are rewritten
//! too.

use vstd::prelude::*;
use vstd::string::StringSliceAdditionalSpecFns;

use crate::bytes::{copy_range, eq_bytes, push_all};
use crate::css::{
    import_match_at, import_matches, lemma_import_match_bounds, lemma_url_match_bounds,
    url_match_at, url_matches, ImportM, UrlM,
};
use crate::encode::{build_data_uri, inlined, is_text};
use crate::resources::{Outcome, Resources};

verus! {

/// Imported content under a media query: `@media <query> {\n<content>\n}`;
/// without one, the bare content.
pub open spec fn wrap_media_spec(media: Seq<u8>, content: Seq<u8>) -> Seq<u8> {
    if media.len() == 0 {
        content
    } else {
        "@media ".spec_bytes() + media + " {\n".spec_bytes() + content + "\n}".spec_bytes()
    }
}

/// Wrap fetched stylesheet text in its media query, if one was given.
pub fn wrap_media(media: &[u8], content: &[u8]) -> (r: Vec<u8>)
    ensures
        r@ == wrap_media_spec(media@, content@),
{
    let mut out: Vec<u8> = Vec::new();
    if media.len() == 0 {
        push_all(&mut out, content);
        proof {
            assert(out@ =~= wrap_media_spec(media@, content@));
        }
    } else {
        push_all(&mut out, ("@media ").as_bytes());
        push_all(&mut out, media);
        push_all(&mut out, (" {\n").as_bytes());
        push_all(&mut out, content);
        push_all(&mut out, ("\n}").as_bytes());
    }
    out
}

/// The stylesheet text an `@import` resolves to: the fetched bytes, if the
/// fetch succeeded and they are UTF-8 text.
pub open spec fn import_content(rs: Resources, url: Seq<u8>) -> Option<Seq<u8>> {
    match rs.get_spec(url) {
        Some(Outcome::Fetched { mime: _, bytes }) => if vstd::utf8::valid_utf8(bytes@) {
            Some(bytes@)
        } else {
            None
        },
        _ => None,
    }
}

/// What one `@import` occurrence becomes: the wrapped content, or — when
/// its stylesheet could not be fetched or decoded — the occurrence itself,
/// byte for byte.
pub open spec fn import_replacement(s: Seq<u8>, m: ImportM, rs: Resources) -> Seq<u8> {
    match import_content(rs, m.url) {
        Some(content) => wrap_media_spec(m.media, content),
        None => s.subrange(m.start, m.end),
    }
}

/// Pass 1 over `s[i..]`.
pub open spec fn import_rewrite_from(s: Seq<u8>, i: int, rs: Resources) -> Seq<u8>
    decreases s.len() - i,
    via import_rewrite_from_decreases
{
    if i < 0 || i >= s.len() {
        Seq::empty()
    } else {
        match import_match_at(s, i) {
            Some(m) => import_replacement(s, m, rs) + import_rewrite_from(s, m.end, rs),
            None => seq![s[i]] + import_rewrite_from(s, i + 1, rs),
        }
    }
}

#[via_fn]
proof fn import_rewrite_from_decreases(s: Seq<u8>, i: int, rs: Resources) {
    if 0 <= i < s.len() {
        lemma_import_match_bounds(s, i);
    }
}

/// The whole of pass 1: `@import` directives textually inlined.
pub open spec fn import_rewrite(s: Seq<u8>, rs: Resources) -> Seq<u8> {
    import_rewrite_from(s, 0, rs)
}

/// What one `url()` occurrence becomes: `url(` + the reference's data URI,
/// or the reference itself when the fetch failed + `)`.
pub open spec fn url_replacement(url: Seq<u8>, rs: Resources) -> Seq<u8> {
    "url(".spec_bytes() + inlined(url, rs) + seq![41u8]
}

/// Pass 2 over `s[i..]`.
pub open spec fn url_rewrite_from(s: Seq<u8>, i: int, rs: Resources) -> Seq<u8>
    decreases s.len() - i,
    via url_rewrite_from_decreases
{
    if i < 0 || i >= s.len() {
        Seq::empty()
    } else {
        match url_match_at(s, i) {
            Some(m) => url_replacement(m.url, rs) + url_rewrite_from(s, m.end, rs),
            None => seq![s[i]] + url_rewrite_from(s, i + 1, rs),
        }
    }
}

#[via_fn]
proof fn url_rewrite_from_decreases(s: Seq<u8>, i: int, rs: Resources) {
    if 0 <= i < s.len() {
        lemma_url_match_bounds(s, i);
    }
}

/// The whole of pass 2: `url()` references turned into data URIs.
pub open spec fn url_rewrite(s: Seq<u8>, rs: Resources) -> Seq<u8> {
    url_rewrite_from(s, 0, rs)
}

/// Pass 1, executable: inline every `@import` whose stylesheet is in the
/// table; leave the others exactly as they were.
#[verifier::loop_isolation(false)]
pub fn patch_import(css: &[u8], rs: &Resources) -> (r: Vec<u8>)
    ensures
        r@ == import_rewrite(css@, *rs),
{
    let mut out: Vec<u8> = Vec::new();
    let mut i: usize = 0;
    while i < css.len()
        invariant
            0 <= i <= css@.len(),
            out@ + import_rewrite_from(css@, i as int, *rs) =~= import_rewrite(css@, *rs),
        decreases css@.len() - i,
    {
        match crate::css::import_try_at(css, i) {
            Some(m) => {
                let replaced = match rs.get(m.url.as_slice()) {
                    Some(Outcome::Fetched { mime: _, bytes }) => {
                        if is_text(bytes.as_slice()) {
                            Some(wrap_media(m.media.as_slice(), bytes.as_slice()))
                        } else {
                            None
                        }
                    },
                    _ => None,
                };
                match replaced {
                    Some(content) => push_all(&mut out, content.as_slice()),
                    None => {
                        let original = copy_range(css, m.start, m.end);
                        push_all(&mut out, original.as_slice());
                    },
                }
                i = m.end;
            },
            None => {
                let b = css[i];
                out.push(b);
                i += 1;
            },
        }
    }
    out
}

/// Pass 2, executable: rewrite every `url()` reference; a reference whose
/// fetch failed is kept inside `url(...)` unchanged.
#[verifier::loop_isolation(false)]
pub fn patch_url(css: &[u8], rs: &Resources) -> (r: Vec<u8>)
    ensures
        r@ == url_rewrite(css@, *rs),
{
    let mut out: Vec<u8> = Vec::new();
    let mut i: usize = 0;
    while i < css.len()
        invariant
            0 <= i <= css@.len(),
            out@ + url_rewrite_from(css@, i as int, *rs) =~= url_rewrite(css@, *rs),
        decreases css@.len() - i,
    {
        match crate::css::url_try_at(css, i) {
            Some(m) => {
                push_all(&mut out, ("url(").as_bytes());
                match rs.get(m.url.as_slice()) {
                    Some(Outcome::Fetched { mime, bytes }) => {
                        let uri = build_data_uri(mime.as_slice(), bytes.as_slice());
                        push_all(&mut out, uri.as_slice());
                    },
                    _ => {
                        push_all(&mut out, m.url.as_slice());
                    },
                }
                out.push(41);
                i = m.end;
            },
            None => {
                let b = css[i];
                out.push(b);
                i += 1;
            },
        }
    }
    out
}

/// The CSS Rewriter: pass 1, then pass 2 on pass 1's output, so that
/// `url()` references inside freshly inlined imports are resolved too.
pub fn rewrite_css(css: &[u8], rs: &Resources) -> (r: Vec<u8>)
    ensures
        r@ == url_rewrite(import_rewrite(css@, *rs), *rs),
{
    let pass1 = patch_import(css, rs);
    patch_url(pass1.as_slice(), rs)
}

/// `u` is the reference of one of the `@import` occurrences `ms`.
pub open spec fn is_import_ref(u: Seq<u8>, ms: Seq<ImportM>) -> bool {
    exists|k: int| 0 <= k < ms.len() && (#[trigger] ms[k]).url == u
}

/// `u` is the reference of one of the `url()` occurrences `ms`.
pub open spec fn is_url_ref(u: Seq<u8>, ms: Seq<UrlM>) -> bool {
    exists|k: int| 0 <= k < ms.len() && (#[trigger] ms[k]).url == u
}

/// `u` occurs in the list `v`.
pub open spec fn list_has(v: Seq<Vec<u8>>, u: Seq<u8>) -> bool {
    exists|j: int| 0 <= j < v.len() && (#[trigger] v[j])@ == u
}

proof fn lemma_list_has_push(v: Seq<Vec<u8>>, x: Vec<u8>, u: Seq<u8>)
    requires
        list_has(v, u),
    ensures
        list_has(v.push(x), u),
{
    let j0 = choose|j: int| 0 <= j < v.len() && (#[trigger] v[j])@ == u;
    assert(v.push(x)[j0]@ == u);
}

/// The deduplicated reference list of pass 1: every `@import` URL of the
/// text, each exactly once. Fetching one resource per entry fetches each
/// unique reference exactly once, however often it occurs.
#[verifier::loop_isolation(false)]
pub fn unique_import_refs(css: &[u8]) -> (r: Vec<Vec<u8>>)
    ensures
        forall|a: int, b: int|
            #![trigger r@[a], r@[b]]
            0 <= a < b < r@.len() ==> r@[a]@ != r@[b]@,
        forall|j: int|
            #![trigger r@[j]]
            0 <= j < r@.len() ==> is_import_ref(r@[j]@, import_matches(css@)),
        forall|k: int|
            #![trigger import_matches(css@)[k]]
            0 <= k < import_matches(css@).len() ==> list_has(r@, import_matches(css@)[k].url),
{
    let matches = crate::css::find_imports(css);
    let mut out: Vec<Vec<u8>> = Vec::new();
    let mut i: usize = 0;
    while i < matches.len()
        invariant
            0 <= i <= matches@.len(),
            crate::css::import_views(matches@) == import_matches(css@),
            forall|a: int, b: int|
                #![trigger out@[a], out@[b]]
                0 <= a < b < out@.len() ==> out@[a]@ != out@[b]@,
            forall|j: int|
                #![trigger out@[j]]
                0 <= j < out@.len() ==> is_import_ref(out@[j]@, import_matches(css@)),
            forall|k: int|
                #![trigger import_matches(css@)[k]]
                0 <= k < i ==> list_has(out@, import_matches(css@)[k].url),
        decreases matches@.len() - i,
    {
        let ghost prev = out@;
        let ghost cur = import_matches(css@)[i as int];
        proof {
            assert(cur == matches@[i as int]@);
        }
        if !contains_ref(&out, matches[i].url.as_slice()) {
            let u = crate::bytes::to_vec(matches[i].url.as_slice());
            out.push(u);
            proof {
                assert(out@ == prev.push(out@.last()));
                assert(out@.last()@ == cur.url);
                assert(list_has(out@, cur.url));
                assert forall|k: int| 0 <= k < i implies list_has(
                    out@,
                    #[trigger] import_matches(css@)[k].url,
                ) by {
                    lemma_list_has_push(prev, out@.last(), import_matches(css@)[k].url);
                }
            }
        }
        i += 1;
    }
    proof {
        assert(import_matches(css@).len() == matches@.len());
    }
    out
}

/// The deduplicated reference list of pass 2: every `url()` reference of
/// the text, each exactly once.
#[verifier::loop_isolation(false)]
pub fn unique_url_refs(css: &[u8]) -> (r: Vec<Vec<u8>>)
    ensures
        forall|a: int, b: int|
            #![trigger r@[a], r@[b]]
            0 <= a < b < r@.len() ==> r@[a]@ != r@[b]@,
        forall|j: int|
            #![trigger r@[j]]
            0 <= j < r@.len() ==> is_url_ref(r@[j]@, url_matches(css@)),
        forall|k: int|
            #![trigger url_matches(css@)[k]]
            0 <= k < url_matches(css@).len() ==> list_has(r@, url_matches(css@)[k].url),
{
    let matches = crate::css::find_urls(css);
    let mut out: Vec<Vec<u8>> = Vec::new();
    let mut i: usize = 0;
    while i < matches.len()
        invariant
            0 <= i <= matches@.len(),
            crate::css::url_views(matches@) == url_matches(css@),
            forall|a: int, b: int|
                #![trigger out@[a], out@[b]]
                0 <= a < b < out@.len() ==> out@[a]@ != out@[b]@,
            forall|j: int|
                #![trigger out@[j]]
                0 <= j < out@.len() ==> is_url_ref(out@[j]@, url_matches(css@)),
            forall|k: int|
                #![trigger url_matches(css@)[k]]
                0 <= k < i ==> list_has(out@, url_matches(css@)[k].url),
        decreases matches@.len() - i,
    {
        let ghost prev = out@;
        let ghost cur = url_matches(css@)[i as int];
        proof {
            assert(cur == matches@[i as int]@);
        }
        if !contains_ref(&out, matches[i].url.as_slice()) {
            let u = crate::bytes::to_vec(matches[i].url.as_slice());
            out.push(u);
            proof {
                assert(out@ == prev.push(out@.last()));
                assert(out@.last()@ == cur.url);
                assert(list_has(out@, cur.url));
                assert forall|k: int| 0 <= k < i implies list_has(
                    out@,
                    #[trigger] url_matches(css@)[k].url,
                ) by {
                    lemma_list_has_push(prev, out@.last(), url_matches(css@)[k].url);
                }
            }
        }
        i += 1;
    }
    proof {
        assert(url_matches(css@).len() == matches@.len());
    }
    out
}

/// Is the byte string already in the list?
#[verifier::loop_isolation(false)]
fn contains_ref(v: &Vec<Vec<u8>>, x: &[u8]) -> (r: bool)
    ensures
        r == list_has(v@, x@),
{
    let mut i: usize = 0;
    while i < v.len()
        invariant
            0 <= i <= v@.len(),
            forall|j: int| 0 <= j < i ==> (#[trigger] v@[j])@ != x@,
        decreases v@.len() - i,
    {
        if eq_bytes(v[i].as_slice(), x) {
            return true;
        }
        i += 1;
    }
    false
}

/// Determinism under dedup: any two occurrences of one and the same `url()`
/// reference in a text receive the identical replacement.
pub proof fn lemma_same_ref_same_replacement(s: Seq<u8>, rs: Resources, a: int, b: int)
    requires
        0 <= a < url_matches(s).len(),
        0 <= b < url_matches(s).len(),
        url_matches(s)[a].url == url_matches(s)[b].url,
    ensures
        url_replacement(url_matches(s)[a].url, rs) == url_replacement(url_matches(s)[b].url, rs),
{
}

/// Soft-failure preservation, pass 1: an `@import` whose stylesheet the
/// loader could not resolve is replaced by its own original text, byte for
/// byte.
pub proof fn lemma_import_soft_failure(s: Seq<u8>, rs: Resources, k: int)
    requires
        0 <= k < import_matches(s).len(),
        import_content(rs, import_matches(s)[k].url) is None,
    ensures
        import_replacement(s, import_matches(s)[k], rs) == s.subrange(
            import_matches(s)[k].start,
            import_matches(s)[k].end,
        ),
{
}

/// Soft-failure preservation, pass 2: a `url()` reference the loader could
/// not resolve keeps its reference text unchanged inside `url(...)`.
pub proof fn lemma_url_soft_failure(s: Seq<u8>, rs: Resources, k: int)
    requires
        0 <= k < url_matches(s).len(),
        !(rs.get_spec(url_matches(s)[k].url) matches Some(Outcome::Fetched { .. })),
    ensures
        url_replacement(url_matches(s)[k].url, rs) == "url(".spec_bytes() + url_matches(s)[k].url
            + seq![41u8],
{
}

/// Soft-failure preservation, whole text: when no `@import` of the text
/// can be resolved, pass 1 returns the text byte-identical.
pub proof fn lemma_import_pass_identity(s: Seq<u8>, rs: Resources)
    requires
        forall|u: Seq<u8>| #[trigger] import_content(rs, u) is None,
    ensures
        import_rewrite(s, rs) == s,
{
    lemma_import_from_identity(s, 0, rs);
    assert(s.skip(0) =~= s);
}

proof fn lemma_import_from_identity(s: Seq<u8>, i: int, rs: Resources)
    requires
        0 <= i <= s.len(),
        forall|u: Seq<u8>| #[trigger] import_content(rs, u) is None,
    ensures
        import_rewrite_from(s, i, rs) == s.skip(i),
    decreases s.len() - i,
{
    if i < s.len() {
        lemma_import_match_bounds(s, i);
        match import_match_at(s, i) {
            Some(m) => {
                lemma_import_from_identity(s, m.end, rs);
                assert(import_replacement(s, m, rs) == s.subrange(m.start, m.end));
                assert(s.subrange(i, m.end) + s.skip(m.end) =~= s.skip(i));
            },
            None => {
                lemma_import_from_identity(s, i + 1, rs);
                assert(seq![s[i]] + s.skip(i + 1) =~= s.skip(i));
            },
        }
    } else {
        assert(s.skip(i) =~= Seq::<u8>::empty());
    }
}

/// Import-then-url ordering: pass 2 runs on pass 1's output, so every
/// `url()` occurrence of the text after import expansion — those inside
/// freshly inlined stylesheets included — is replaced, and one whose
/// resource was fetched becomes a data URI.
pub proof fn lemma_import_then_url(css: Seq<u8>, rs: Resources, k: int)
    requires
        0 <= k < url_matches(import_rewrite(css, rs)).len(),
        rs.get_spec(url_matches(import_rewrite(css, rs))[k].url) matches Some(
            Outcome::Fetched { .. },
        ),
    ensures
        url_replacement(url_matches(import_rewrite(css, rs))[k].url, rs) == "url(".spec_bytes()
            + crate::encode::data_uri(
            (rs.get_spec(url_matches(import_rewrite(css, rs))[k].url)->Some_0)->Fetched_mime@,
            (rs.get_spec(url_matches(import_rewrite(css, rs))[k].url)->Some_0)->Fetched_bytes@,
        ) + seq![41u8],
{
}

/// Media-query wrapping: a fetched import with a media query becomes
/// `@media <query> {\n<content>\n}`; without one, the bare content.
pub proof fn lemma_media_wrapping(s: Seq<u8>, rs: Resources, k: int)
    requires
        0 <= k < import_matches(s).len(),
        import_content(rs, import_matches(s)[k].url) is Some,
    ensures
        import_matches(s)[k].media.len() == 0 ==> import_replacement(s, import_matches(s)[k], rs)
            == import_content(rs, import_matches(s)[k].url)->Some_0,
        import_matches(s)[k].media.len() > 0 ==> import_replacement(s, import_matches(s)[k], rs)
            == "@media ".spec_bytes() + import_matches(s)[k].media + " {\n".spec_bytes()
            + import_content(rs, import_matches(s)[k].url)->Some_0 + "\n}".spec_bytes(),
{
}

} // verus!
