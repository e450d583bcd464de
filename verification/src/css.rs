//! The CSS scanner: finds every `@import` directive and every `url(...)`
//! reference in a stylesheet's text.
//!
//! The grammar is byte-level and deliberately small. A `url()` reference is
//! `url(`, an optional single or double quote, a non-empty run of bytes
//! containing no quote and no `)`, an optional quote (the two quotes need
//! not match), and `)`. An `@import` directive is `@import`, whitespace,
//! an optionally `url(`-wrapped but always quoted reference, an optional
//! `)`, optional whitespace, then everything up to the last `;` on that
//! line as the media query. Scanning is leftmost and non-overlapping:
//! after a match it resumes at the match's end, otherwise one byte on.

use vstd::prelude::*;
use vstd::string::StringSliceAdditionalSpecFns;

use crate::bytes::{at_lit, check_at, copy_range};

verus! {

/// The whitespace class: space, tab, newline, carriage return, form feed
/// and vertical tab.
pub open spec fn is_space(b: u8) -> bool {
    b == 32 || b == 9 || b == 10 || b == 13 || b == 12 || b == 11
}

/// A single or double quote.
pub open spec fn is_quote(b: u8) -> bool {
    b == 34 || b == 39
}

/// A byte that may stand inside a reference: anything but a quote or `)`.
pub open spec fn is_ref_byte(b: u8) -> bool {
    !is_quote(b) && b != 41
}

/// The end of the whitespace run starting at `j`.
pub open spec fn space_run_end(s: Seq<u8>, j: int) -> int
    decreases s.len() - j,
{
    if 0 <= j < s.len() && is_space(s[j]) {
        space_run_end(s, j + 1)
    } else {
        j
    }
}

/// The end of the reference-byte run starting at `j`.
pub open spec fn ref_run_end(s: Seq<u8>, j: int) -> int
    decreases s.len() - j,
{
    if 0 <= j < s.len() && is_ref_byte(s[j]) {
        ref_run_end(s, j + 1)
    } else {
        j
    }
}

/// The position of the `\n` ending the line that `j` is on, or the text's
/// end.
pub open spec fn line_end(s: Seq<u8>, j: int) -> int
    decreases s.len() - j,
{
    if 0 <= j < s.len() && s[j] != 10 {
        line_end(s, j + 1)
    } else {
        j
    }
}

/// The last `;` in `s[from..to]`, if any.
pub open spec fn last_semi(s: Seq<u8>, from: int, to: int) -> Option<int>
    decreases to - from,
{
    if to <= from || to < 0 {
        None
    } else if 0 <= to - 1 < s.len() && s[to - 1] == 59 {
        Some(to - 1)
    } else {
        last_semi(s, from, to - 1)
    }
}

/// The two anchor tokens are ASCII, so their byte forms are concrete.
proof fn lemma_token_bytes()
    ensures
        "url(".spec_bytes() =~= seq![117u8, 114u8, 108u8, 40u8],
        "@import".spec_bytes() =~= seq![64u8, 105u8, 109u8, 112u8, 111u8, 114u8, 116u8],
{
    reveal_strlit("url(");
    reveal_strlit("@import");
    vstd::utf8::is_ascii_chars_encode_utf8("url("@);
    vstd::utf8::is_ascii_chars_encode_utf8("@import"@);
}

proof fn lemma_run_bounds(s: Seq<u8>, j: int)
    requires
        0 <= j <= s.len(),
    ensures
        j <= space_run_end(s, j) <= s.len(),
        j <= ref_run_end(s, j) <= s.len(),
        j <= line_end(s, j) <= s.len(),
    decreases s.len() - j,
{
    if j < s.len() {
        lemma_run_bounds(s, j + 1);
    }
}

proof fn lemma_last_semi_bounds(s: Seq<u8>, from: int, to: int)
    requires
        0 <= from <= to <= s.len(),
    ensures
        match last_semi(s, from, to) {
            Some(k) => from <= k < to && s[k] == 59,
            None => true,
        },
    decreases to - from,
{
    if to > from && !(s[to - 1] == 59) {
        lemma_last_semi_bounds(s, from, to - 1);
    }
}

/// One `url(...)` occurrence: its span in the text and the reference inside.
pub struct UrlMatch {
    pub start: usize,
    pub end: usize,
    pub url: Vec<u8>,
}

/// The mathematical form of a `url()` occurrence.
pub struct UrlM {
    pub start: int,
    pub end: int,
    pub url: Seq<u8>,
}

impl View for UrlMatch {
    type V = UrlM;

    open spec fn view(&self) -> UrlM {
        UrlM { start: self.start as int, end: self.end as int, url: self.url@ }
    }
}

/// One `@import` occurrence: its span, the reference, and the media query
/// text (empty when none was given).
pub struct ImportMatch {
    pub start: usize,
    pub end: usize,
    pub url: Vec<u8>,
    pub media: Vec<u8>,
}

/// The mathematical form of an `@import` occurrence.
pub struct ImportM {
    pub start: int,
    pub end: int,
    pub url: Seq<u8>,
    pub media: Seq<u8>,
}

impl View for ImportMatch {
    type V = ImportM;

    open spec fn view(&self) -> ImportM {
        ImportM {
            start: self.start as int,
            end: self.end as int,
            url: self.url@,
            media: self.media@,
        }
    }
}

/// The `url()` occurrence anchored at `i`, if the grammar matches there.
pub open spec fn url_match_at(s: Seq<u8>, i: int) -> Option<UrlM> {
    if !at_lit(s, i, "url(".spec_bytes()) {
        None
    } else {
        let b = if i + 4 < s.len() && is_quote(s[i + 4]) {
            i + 5
        } else {
            i + 4
        };
        let k = ref_run_end(s, b);
        if k <= b {
            None
        } else if k < s.len() && is_quote(s[k]) {
            if k + 1 < s.len() && s[k + 1] == 41 {
                Some(UrlM { start: i, end: k + 2, url: s.subrange(b, k) })
            } else {
                None
            }
        } else if k < s.len() && s[k] == 41 {
            Some(UrlM { start: i, end: k + 1, url: s.subrange(b, k) })
        } else {
            None
        }
    }
}

/// Where the quoted reference of an `@import` starts, after optional
/// `url(`: `-1` when the mandatory quote is missing.
pub open spec fn import_ref_start(s: Seq<u8>, w: int) -> int {
    if at_lit(s, w, "url(".spec_bytes()) {
        if w + 4 < s.len() && is_quote(s[w + 4]) {
            if w + 5 < s.len() && is_quote(s[w + 5]) {
                w + 6
            } else {
                w + 5
            }
        } else {
            -1
        }
    } else if 0 <= w < s.len() && is_quote(s[w]) {
        w + 1
    } else {
        -1
    }
}

/// The `@import` occurrence anchored at `i`, if the grammar matches there.
pub open spec fn import_match_at(s: Seq<u8>, i: int) -> Option<ImportM> {
    if !at_lit(s, i, "@import".spec_bytes()) {
        None
    } else {
        let w = space_run_end(s, i + 7);
        if w == i + 7 {
            None
        } else {
            let b = import_ref_start(s, w);
            if b < 0 {
                None
            } else {
                let k = ref_run_end(s, b);
                if k <= b || !(k < s.len() && is_quote(s[k])) {
                    None
                } else {
                    let p = if k + 1 < s.len() && s[k + 1] == 41 {
                        k + 2
                    } else {
                        k + 1
                    };
                    let q = space_run_end(s, p);
                    match last_semi(s, q, line_end(s, q)) {
                        Some(sc) => Some(
                            ImportM {
                                start: i,
                                end: sc + 1,
                                url: s.subrange(b, k),
                                media: s.subrange(q, sc),
                            },
                        ),
                        None => None,
                    }
                }
            }
        }
    }
}

/// A matched `url()` span moves the scan strictly forward and stays inside
/// the text.
pub proof fn lemma_url_match_bounds(s: Seq<u8>, i: int)
    requires
        0 <= i <= s.len(),
    ensures
        match url_match_at(s, i) {
            Some(m) => m.start == i && i < m.end <= s.len(),
            None => true,
        },
{
    lemma_token_bytes();
    if at_lit(s, i, "url(".spec_bytes()) {
        let b = if i + 4 < s.len() && is_quote(s[i + 4]) {
            i + 5
        } else {
            i + 4
        };
        lemma_run_bounds(s, b);
    }
}

/// A matched `@import` span moves the scan strictly forward and stays
/// inside the text.
pub proof fn lemma_import_match_bounds(s: Seq<u8>, i: int)
    requires
        0 <= i <= s.len(),
    ensures
        match import_match_at(s, i) {
            Some(m) => m.start == i && i < m.end <= s.len(),
            None => true,
        },
{
    lemma_token_bytes();
    if at_lit(s, i, "@import".spec_bytes()) {
        lemma_run_bounds(s, i + 7);
        let w = space_run_end(s, i + 7);
        let b = import_ref_start(s, w);
        if 0 <= b <= s.len() {
            lemma_run_bounds(s, b);
            let k = ref_run_end(s, b);
            if b < k < s.len() && is_quote(s[k]) {
                let p = if k + 1 < s.len() && s[k + 1] == 41 {
                    k + 2
                } else {
                    k + 1
                };
                lemma_run_bounds(s, p);
                let q = space_run_end(s, p);
                lemma_run_bounds(s, q);
                lemma_last_semi_bounds(s, q, line_end(s, q));
            }
        }
    }
}

/// All `url()` occurrences from position `i` on, leftmost first,
/// non-overlapping.
pub open spec fn url_matches_from(s: Seq<u8>, i: int) -> Seq<UrlM>
    decreases s.len() - i,
    via url_matches_from_decreases
{
    if i < 0 || i >= s.len() {
        Seq::empty()
    } else {
        match url_match_at(s, i) {
            Some(m) => seq![m] + url_matches_from(s, m.end),
            None => url_matches_from(s, i + 1),
        }
    }
}

#[via_fn]
proof fn url_matches_from_decreases(s: Seq<u8>, i: int) {
    if 0 <= i < s.len() {
        lemma_url_match_bounds(s, i);
    }
}

/// All `url()` occurrences in the text.
pub open spec fn url_matches(s: Seq<u8>) -> Seq<UrlM> {
    url_matches_from(s, 0)
}

/// All `@import` occurrences from position `i` on, leftmost first,
/// non-overlapping.
pub open spec fn import_matches_from(s: Seq<u8>, i: int) -> Seq<ImportM>
    decreases s.len() - i,
    via import_matches_from_decreases
{
    if i < 0 || i >= s.len() {
        Seq::empty()
    } else {
        match import_match_at(s, i) {
            Some(m) => seq![m] + import_matches_from(s, m.end),
            None => import_matches_from(s, i + 1),
        }
    }
}

#[via_fn]
proof fn import_matches_from_decreases(s: Seq<u8>, i: int) {
    if 0 <= i < s.len() {
        lemma_import_match_bounds(s, i);
    }
}

/// All `@import` occurrences in the text.
pub open spec fn import_matches(s: Seq<u8>) -> Seq<ImportM> {
    import_matches_from(s, 0)
}

/// The views of a vector of `url()` matches.
pub open spec fn url_views(v: Seq<UrlMatch>) -> Seq<UrlM> {
    v.map_values(|m: UrlMatch| m@)
}

/// The views of a vector of `@import` matches.
pub open spec fn import_views(v: Seq<ImportMatch>) -> Seq<ImportM> {
    v.map_values(|m: ImportMatch| m@)
}

/// The end of the reference-byte run starting at `j`.
#[verifier::loop_isolation(false)]
fn find_ref_run_end(s: &[u8], j: usize) -> (r: usize)
    requires
        j <= s@.len(),
    ensures
        r == ref_run_end(s@, j as int),
        j <= r <= s@.len(),
{
    let n = s.len();
    let mut k = j;
    while k < n && !(s[k] == 34 || s[k] == 39 || s[k] == 41)
        invariant
            j <= k <= n,
            ref_run_end(s@, j as int) == ref_run_end(s@, k as int),
        decreases n - k,
    {
        k += 1;
    }
    proof {
        lemma_run_bounds(s@, j as int);
    }
    k
}

/// The end of the whitespace run starting at `j`.
#[verifier::loop_isolation(false)]
fn find_space_run_end(s: &[u8], j: usize) -> (r: usize)
    requires
        j <= s@.len(),
    ensures
        r == space_run_end(s@, j as int),
        j <= r <= s@.len(),
{
    let n = s.len();
    let mut k = j;
    while k < n && (s[k] == 32 || s[k] == 9 || s[k] == 10 || s[k] == 13 || s[k] == 12 || s[k]
        == 11)
        invariant
            j <= k <= n,
            space_run_end(s@, j as int) == space_run_end(s@, k as int),
        decreases n - k,
    {
        k += 1;
    }
    proof {
        lemma_run_bounds(s@, j as int);
    }
    k
}

/// The end of the line that `j` is on.
#[verifier::loop_isolation(false)]
fn find_line_end(s: &[u8], j: usize) -> (r: usize)
    requires
        j <= s@.len(),
    ensures
        r == line_end(s@, j as int),
        j <= r <= s@.len(),
{
    let n = s.len();
    let mut k = j;
    while k < n && s[k] != 10
        invariant
            j <= k <= n,
            line_end(s@, j as int) == line_end(s@, k as int),
        decreases n - k,
    {
        k += 1;
    }
    proof {
        lemma_run_bounds(s@, j as int);
    }
    k
}

/// The last `;` in `s[from..to]`.
#[verifier::loop_isolation(false)]
fn find_last_semi(s: &[u8], from: usize, to: usize) -> (r: Option<usize>)
    requires
        from <= to <= s@.len(),
    ensures
        match r {
            Some(k) => last_semi(s@, from as int, to as int) == Some(k as int),
            None => last_semi(s@, from as int, to as int) is None,
        },
{
    let mut k = to;
    while k > from
        invariant
            from <= k <= to,
            last_semi(s@, from as int, to as int) == last_semi(s@, from as int, k as int),
        decreases k,
    {
        if s[k - 1] == 59 {
            return Some(k - 1);
        }
        k -= 1;
    }
    None
}

/// The `url()` occurrence anchored at `i`, if any.
pub fn url_try_at(s: &[u8], i: usize) -> (r: Option<UrlMatch>)
    requires
        i < s@.len(),
    ensures
        match r {
            Some(m) => url_match_at(s@, i as int) == Some(m@) && i < m.end <= s@.len(),
            None => url_match_at(s@, i as int) is None,
        },
{
    proof {
        lemma_token_bytes();
        lemma_url_match_bounds(s@, i as int);
    }
    if !check_at(s, i, ("url(").as_bytes()) {
        return None;
    }
    let n = s.len();
    assert(i + 4 <= n);
    let b = if i + 4 < n && (s[i + 4] == 34 || s[i + 4] == 39) {
        i + 5
    } else {
        i + 4
    };
    let k = find_ref_run_end(s, b);
    if k <= b {
        return None;
    }
    if k < n && (s[k] == 34 || s[k] == 39) {
        if k + 1 < n && s[k + 1] == 41 {
            Some(UrlMatch { start: i, end: k + 2, url: copy_range(s, b, k) })
        } else {
            None
        }
    } else if k < n && s[k] == 41 {
        Some(UrlMatch { start: i, end: k + 1, url: copy_range(s, b, k) })
    } else {
        None
    }
}

/// The `@import` occurrence anchored at `i`, if any.
pub fn import_try_at(s: &[u8], i: usize) -> (r: Option<ImportMatch>)
    requires
        i < s@.len(),
    ensures
        match r {
            Some(m) => import_match_at(s@, i as int) == Some(m@) && i < m.end <= s@.len(),
            None => import_match_at(s@, i as int) is None,
        },
{
    proof {
        lemma_token_bytes();
        lemma_import_match_bounds(s@, i as int);
    }
    if !check_at(s, i, ("@import").as_bytes()) {
        return None;
    }
    let n = s.len();
    assert(i + 7 <= n);
    let w = find_space_run_end(s, i + 7);
    if w == i + 7 {
        return None;
    }
    // the quoted reference, optionally wrapped in url(
    let b: usize;
    if check_at(s, w, ("url(").as_bytes()) {
        if w + 4 < n && (s[w + 4] == 34 || s[w + 4] == 39) {
            if w + 5 < n && (s[w + 5] == 34 || s[w + 5] == 39) {
                b = w + 6;
            } else {
                b = w + 5;
            }
        } else {
            return None;
        }
    } else if w < n && (s[w] == 34 || s[w] == 39) {
        b = w + 1;
    } else {
        return None;
    }
    assert(b == import_ref_start(s@, w as int));
    let k = find_ref_run_end(s, b);
    if k <= b || !(k < n && (s[k] == 34 || s[k] == 39)) {
        return None;
    }
    let p = if k + 1 < n && s[k + 1] == 41 {
        k + 2
    } else {
        k + 1
    };
    let q = find_space_run_end(s, p);
    let e = find_line_end(s, q);
    proof {
        lemma_last_semi_bounds(s@, q as int, e as int);
    }
    match find_last_semi(s, q, e) {
        Some(sc) => Some(
            ImportMatch { start: i, end: sc + 1, url: copy_range(s, b, k), media: copy_range(
                s,
                q,
                sc,
            ) },
        ),
        None => None,
    }
}

/// Every `url()` occurrence in the text, leftmost first.
#[verifier::loop_isolation(false)]
pub fn find_urls(s: &[u8]) -> (r: Vec<UrlMatch>)
    ensures
        url_views(r@) == url_matches(s@),
{
    let mut out: Vec<UrlMatch> = Vec::new();
    let mut i: usize = 0;
    while i < s.len()
        invariant
            0 <= i <= s@.len(),
            url_views(out@) + url_matches_from(s@, i as int) =~= url_matches(s@),
        decreases s@.len() - i,
    {
        match url_try_at(s, i) {
            Some(m) => {
                let ghost prev = out@;
                let next = m.end;
                out.push(m);
                proof {
                    assert(url_views(out@) =~= url_views(prev) + seq![out@.last()@]);
                }
                i = next;
            },
            None => {
                i += 1;
            },
        }
    }
    proof {
        assert(url_views(out@) =~= url_matches(s@));
    }
    out
}

/// Every `@import` occurrence in the text, leftmost first.
#[verifier::loop_isolation(false)]
pub fn find_imports(s: &[u8]) -> (r: Vec<ImportMatch>)
    ensures
        import_views(r@) == import_matches(s@),
{
    let mut out: Vec<ImportMatch> = Vec::new();
    let mut i: usize = 0;
    while i < s.len()
        invariant
            0 <= i <= s@.len(),
            import_views(out@) + import_matches_from(s@, i as int) =~= import_matches(s@),
        decreases s@.len() - i,
    {
        match import_try_at(s, i) {
            Some(m) => {
                let ghost prev = out@;
                let next = m.end;
                out.push(m);
                proof {
                    assert(import_views(out@) =~= import_views(prev) + seq![out@.last()@]);
                }
                i = next;
            },
            None => {
                i += 1;
            },
        }
    }
    proof {
        assert(import_views(out@) =~= import_matches(s@));
    }
    out
}

} // verus!
