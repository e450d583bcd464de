//! Which references the pipeline still needs. The caller — the only party
//! able to read files or talk to the network — asks for the pending
//! references, fetches them, records the outcomes, and asks again: a fresh
//! `@import` may surface new `url()` references. When nothing is pending,
//! one `run` over the document resolves everything it can.

use vstd::prelude::*;
use vstd::string::StringSliceAdditionalSpecFns;

use crate::bytes::eq_bytes;
use crate::css::{import_matches, url_matches};
use crate::dom::{attr_lookup, lemma_children_views, texts_upto_v, Elem, ElemV, Node, NodeV};
use crate::handlers::{
    is_favicon_v, is_img_v, is_js_link_v, is_json_link_v, is_script_src_v, is_stylesheet_v,
    script_fetch_attr_v, Options,
};
use crate::resources::Resources;
use crate::rewrite::{import_content, import_rewrite, is_import_ref, is_url_ref, list_has};

verus! {

/// The references one CSS text makes the rewriter fetch: its `@import`
/// URLs, and the `url()` references of the text that pass 1 produces from
/// what is fetched so far.
pub open spec fn css_wants(css: Seq<u8>, rs: Resources, u: Seq<u8>) -> bool {
    is_import_ref(u, import_matches(css)) || is_url_ref(u, url_matches(import_rewrite(css, rs)))
}

/// The references an element's own attributes make the pipeline fetch.
pub open spec fn elem_attr_refs(e: ElemV, opts: Options, u: Seq<u8>) -> bool {
    ||| (is_favicon_v(e) && attr_lookup(e.attrs, "href".spec_bytes()) == Some(u))
    ||| (opts.img && is_img_v(e) && attr_lookup(e.attrs, "src".spec_bytes()) == Some(u))
    ||| (opts.js && (is_script_src_v(e) || is_js_link_v(e) || is_json_link_v(e)) && attr_lookup(
        e.attrs,
        script_fetch_attr_v(e),
    ) == Some(u))
    ||| (opts.css && is_stylesheet_v(e) && attr_lookup(e.attrs, "href".spec_bytes()) == Some(u))
}

/// The references an element's CSS makes the pipeline fetch: those of a
/// fetched external stylesheet, of a `<style>` element's text, and the
/// `url()` references of a `style` attribute.
pub open spec fn elem_css_refs(e: ElemV, rs: Resources, opts: Options, u: Seq<u8>) -> bool {
    ||| (opts.css && is_stylesheet_v(e) && match attr_lookup(e.attrs, "href".spec_bytes()) {
        Some(h) => match import_content(rs, h) {
            Some(c) => css_wants(c, rs, u),
            None => false,
        },
        None => false,
    })
    ||| (opts.css && e.tag == "style".spec_bytes() && css_wants(
        texts_upto_v(e.children, e.children.len() as int),
        rs,
        u,
    ))
    ||| (opts.css && match attr_lookup(e.attrs, "style".spec_bytes()) {
        Some(v) => is_url_ref(u, url_matches(v)),
        None => false,
    })
}

/// The pipeline will fetch `u` for some node of this subtree.
pub open spec fn wanted(n: NodeV, rs: Resources, opts: Options, u: Seq<u8>) -> bool
    decreases n, 1int,
{
    match n {
        NodeV::Text(_) => false,
        NodeV::Element(e) => elem_attr_refs(e, opts, u) || elem_css_refs(e, rs, opts, u)
            || children_wanted(e.children, e.children.len() as int, rs, opts, u),
    }
}

/// The pipeline will fetch `u` for one of the first `i` children.
pub open spec fn children_wanted(
    children: Seq<NodeV>,
    i: int,
    rs: Resources,
    opts: Options,
    u: Seq<u8>,
) -> bool
    decreases children, i,
    via children_wanted_decreases
{
    if i <= 0 || i > children.len() {
        false
    } else {
        children_wanted(children, i - 1, rs, opts, u) || wanted(children[i - 1], rs, opts, u)
    }
}

#[via_fn]
proof fn children_wanted_decreases(
    children: Seq<NodeV>,
    i: int,
    rs: Resources,
    opts: Options,
    u: Seq<u8>,
) {
    broadcast use vstd::seq::axiom_seq_index_decreases;

    if 0 < i <= children.len() {
        assert(decreases_to!(children => children[i - 1]));
    }
}

proof fn lemma_children_wanted(
    children: Seq<NodeV>,
    n: int,
    i: int,
    rs: Resources,
    opts: Options,
    u: Seq<u8>,
)
    requires
        0 <= i < n <= children.len(),
    ensures
        wanted(children[i], rs, opts, u) ==> children_wanted(children, n, rs, opts, u),
    decreases n,
{
    if i < n - 1 {
        lemma_children_wanted(children, n - 1, i, rs, opts, u);
    }
}

/// Appending keeps a listed reference listed.
proof fn lemma_list_has_extend(a: Seq<Vec<u8>>, b: Seq<Vec<u8>>, u: Seq<u8>)
    requires
        list_has(a, u) || list_has(b, u),
    ensures
        list_has(a + b, u),
{
    if list_has(a, u) {
        let j = choose|j: int| 0 <= j < a.len() && (#[trigger] a[j])@ == u;
        assert((a + b)[j]@ == u);
    } else {
        let j = choose|j: int| 0 <= j < b.len() && (#[trigger] b[j])@ == u;
        assert((a + b)[a.len() + j]@ == u);
    }
}

/// Append a list of references to another.
#[verifier::loop_isolation(false)]
fn append_refs(out: &mut Vec<Vec<u8>>, add: Vec<Vec<u8>>)
    ensures
        final(out)@ == old(out)@ + add@,
{
    let mut rest = add;
    while rest.len() > 0
        invariant
            out@ + rest@ =~= old(out)@ + add@,
        decreases rest@.len(),
    {
        let x = rest.remove(0);
        out.push(x);
        proof {
            assert(out@ + rest@ =~= old(out)@ + add@);
        }
    }
    proof {
        assert(out@ =~= old(out)@ + add@);
    }
}

/// The references one element itself asks for, fetched or not.
#[verifier::loop_isolation(false)]
#[verifier::rlimit(80)]
fn elem_refs(e: &Elem, rs: &Resources, opts: &Options) -> (r: Vec<Vec<u8>>)
    ensures
        forall|j: int|
            #![trigger r@[j]]
            0 <= j < r@.len() ==> elem_attr_refs(e@, *opts, r@[j]@) || elem_css_refs(
                e@,
                *rs,
                *opts,
                r@[j]@,
            ),
        forall|u: Seq<u8>| #[trigger] elem_attr_refs(e@, *opts, u) ==> list_has(r@, u),
        forall|u: Seq<u8>| #[trigger] elem_css_refs(e@, *rs, *opts, u) ==> list_has(r@, u),
{
    // the four attribute references, one conditional push each
    let mut a: Vec<Vec<u8>> = Vec::new();
    if crate::handlers::matches_favicon(e) {
        match crate::dom::get_attr(e, ("href").as_bytes()) {
            Some(h) => {
                a.push(h);
            },
            None => {},
        }
    }
    if opts.img && eq_bytes(e.tag.as_slice(), ("img").as_bytes()) {
        match crate::dom::get_attr(e, ("src").as_bytes()) {
            Some(s) => {
                a.push(s);
            },
            None => {},
        }
    }
    if opts.js && crate::handlers::matches_script_like(e) {
        let attr_name = if eq_bytes(e.tag.as_slice(), ("script").as_bytes()) {
            ("src").as_bytes()
        } else {
            ("href").as_bytes()
        };
        proof {
            assert(attr_name@ == script_fetch_attr_v(e@));
        }
        match crate::dom::get_attr(e, attr_name) {
            Some(u) => {
                a.push(u);
            },
            None => {},
        }
    }
    if opts.css && crate::handlers::matches_stylesheet(e) {
        match crate::dom::get_attr(e, ("href").as_bytes()) {
            Some(h) => {
                a.push(h);
            },
            None => {},
        }
    }
    proof {
        assert forall|u: Seq<u8>| #[trigger] elem_attr_refs(e@, *opts, u) implies list_has(
            a@,
            u,
        ) by {
            if 0 < a@.len() && a@[0]@ == u {
            }
            if 1 < a@.len() && a@[1]@ == u {
            }
            if 2 < a@.len() && a@[2]@ == u {
            }
            if 3 < a@.len() && a@[3]@ == u {
            }
            assert(list_has(a@, u));
        }
        assert forall|j: int| 0 <= j < a@.len() implies elem_attr_refs(
            e@,
            *opts,
            (#[trigger] a@[j])@,
        ) by {
        }
    }
    // the references of a fetched external stylesheet
    let mut b: Vec<Vec<u8>> = Vec::new();
    let ghost mut sheet_content: Option<Seq<u8>> = None;
    if opts.css && crate::handlers::matches_stylesheet(e) {
        match crate::dom::get_attr(e, ("href").as_bytes()) {
            Some(h) => {
                match rs.get(h.as_slice()) {
                    Some(crate::resources::Outcome::Fetched { mime: _, bytes }) => {
                        if crate::encode::is_text(bytes.as_slice()) {
                            proof {
                                sheet_content = Some(bytes@);
                                assert(import_content(*rs, h@) == Some(bytes@));
                            }
                            b = css_stage_refs(bytes.as_slice(), rs);
                        }
                    },
                    _ => {},
                }
            },
            None => {},
        }
    }
    // the references of a <style> element's text
    let mut c: Vec<Vec<u8>> = Vec::new();
    let ghost mut style_content: Option<Seq<u8>> = None;
    if opts.css && eq_bytes(e.tag.as_slice(), ("style").as_bytes()) {
        let text = crate::handlers::elem_text(e);
        proof {
            style_content = Some(text@);
        }
        c = css_stage_refs(text.as_slice(), rs);
    }
    // the url() references of a style attribute
    let mut d: Vec<Vec<u8>> = Vec::new();
    let ghost mut style_attr: Option<Seq<u8>> = None;
    if opts.css {
        match crate::dom::get_attr(e, ("style").as_bytes()) {
            Some(v) => {
                proof {
                    style_attr = Some(v@);
                }
                d = crate::rewrite::unique_url_refs(v.as_slice());
            },
            None => {},
        }
    }
    let ghost av = a@;
    let ghost bv = b@;
    let ghost cv = c@;
    let ghost dv = d@;
    let mut out = a;
    append_refs(&mut out, b);
    append_refs(&mut out, c);
    append_refs(&mut out, d);
    proof {
        assert(out@ =~= av + bv + cv + dv);
        let whole = av + bv + cv + dv;
        assert forall|u: Seq<u8>| #[trigger] elem_attr_refs(e@, *opts, u) implies list_has(
            whole,
            u,
        ) by {
            let j = choose|j: int| 0 <= j < av.len() && (#[trigger] av[j])@ == u;
            assert(whole[j]@ == u);
        }
        assert forall|u: Seq<u8>| #[trigger] elem_css_refs(e@, *rs, *opts, u) implies list_has(
            whole,
            u,
        ) by {
            if sheet_content matches Some(content) && css_wants(content, *rs, u) {
                let j = choose|j: int| 0 <= j < bv.len() && (#[trigger] bv[j])@ == u;
                assert(whole[av.len() + j]@ == u);
            } else if style_content matches Some(content) && css_wants(content, *rs, u) {
                let j = choose|j: int| 0 <= j < cv.len() && (#[trigger] cv[j])@ == u;
                assert(whole[av.len() + bv.len() + j]@ == u);
            } else {
                assert(style_attr matches Some(v) && is_url_ref(u, url_matches(v)));
                let v = style_attr->Some_0;
                let k = choose|k: int|
                    0 <= k < url_matches(v).len() && (#[trigger] url_matches(v)[k]).url == u;
                assert(list_has(dv, u));
                let j = choose|j: int| 0 <= j < dv.len() && (#[trigger] dv[j])@ == u;
                assert(whole[av.len() + bv.len() + cv.len() + j]@ == u);
            }
        }
        assert forall|j: int| 0 <= j < whole.len() implies elem_attr_refs(
            e@,
            *opts,
            (#[trigger] whole[j])@,
        ) || elem_css_refs(e@, *rs, *opts, whole[j]@) by {
            if j < av.len() {
                assert(whole[j] == av[j]);
            } else if j < av.len() + bv.len() {
                assert(whole[j] == bv[j - av.len()]);
                assert(css_wants(sheet_content->Some_0, *rs, whole[j]@));
            } else if j < av.len() + bv.len() + cv.len() {
                assert(whole[j] == cv[j - av.len() - bv.len()]);
                assert(css_wants(style_content->Some_0, *rs, whole[j]@));
            } else {
                assert(whole[j] == dv[j - av.len() - bv.len() - cv.len()]);
                assert(is_url_ref(whole[j]@, url_matches(style_attr->Some_0)));
            }
        }
    }
    out
}

/// The references one CSS text asks for: its `@import` URLs and the `url()`
/// references of what pass 1 currently makes of it.
#[verifier::loop_isolation(false)]
fn css_stage_refs(css: &[u8], rs: &Resources) -> (r: Vec<Vec<u8>>)
    ensures
        forall|j: int|
            #![trigger r@[j]]
            0 <= j < r@.len() ==> css_wants(css@, *rs, r@[j]@),
        forall|u: Seq<u8>| #[trigger] css_wants(css@, *rs, u) ==> list_has(r@, u),
{
    let mut out = crate::rewrite::unique_import_refs(css);
    let ghost imports = out@;
    let pass1 = crate::rewrite::patch_import(css, rs);
    let urls = crate::rewrite::unique_url_refs(pass1.as_slice());
    let ghost urlsv = urls@;
    append_refs(&mut out, urls);
    proof {
        assert forall|u: Seq<u8>| #[trigger] css_wants(css@, *rs, u) implies list_has(out@, u) by {
            if is_import_ref(u, import_matches(css@)) {
                let k = choose|k: int|
                    0 <= k < import_matches(css@).len() && (#[trigger] import_matches(
                        css@,
                    )[k]).url == u;
                assert(list_has(imports, u));
                lemma_list_has_extend(imports, urlsv, u);
            } else {
                let k = choose|k: int|
                    0 <= k < url_matches(import_rewrite(css@, *rs)).len() && (
                    #[trigger] url_matches(import_rewrite(css@, *rs))[k]).url == u;
                assert(list_has(urlsv, u));
                lemma_list_has_extend(imports, urlsv, u);
            }
        }
        assert forall|j: int| 0 <= j < out@.len() implies css_wants(
            css@,
            *rs,
            (#[trigger] out@[j])@,
        ) by {
            if j < imports.len() {
                assert(out@[j] == imports[j]);
                assert(is_import_ref(out@[j]@, import_matches(css@)));
            } else {
                assert(out@[j] == urlsv[j - imports.len()]);
                assert(is_url_ref(out@[j]@, url_matches(import_rewrite(css@, *rs))));
            }
        }
    }
    out
}

/// Every reference some node of the subtree asks for, fetched or not,
/// possibly with repetitions.
#[verifier::loop_isolation(false)]
fn collect_refs(n: &Node, rs: &Resources, opts: &Options) -> (r: Vec<Vec<u8>>)
    ensures
        forall|j: int|
            #![trigger r@[j]]
            0 <= j < r@.len() ==> wanted(n@, *rs, *opts, r@[j]@),
        forall|u: Seq<u8>| #[trigger] wanted(n@, *rs, *opts, u) ==> list_has(r@, u),
    decreases *n,
{
    match n {
        Node::Text(_) => {
            proof {
                assert(n@ is Text);
                assert(forall|u: Seq<u8>| !(#[trigger] wanted(n@, *rs, *opts, u)));
            }
            Vec::new()
        },
        Node::Element(e) => {
            let mut out = elem_refs(e, rs, opts);
            proof {
                lemma_children_views(e.children, e.children@.len() as int);
            }
            let ghost cv = e@.children;
            let mut i: usize = 0;
            while i < e.children.len()
                invariant
                    0 <= i <= e.children@.len(),
                    forall|j: int|
                        #![trigger out@[j]]
                        0 <= j < out@.len() ==> wanted(n@, *rs, *opts, out@[j]@),
                    forall|u: Seq<u8>|
                        #[trigger] elem_attr_refs(e@, *opts, u) ==> list_has(out@, u),
                    forall|u: Seq<u8>|
                        #[trigger] elem_css_refs(e@, *rs, *opts, u) ==> list_has(out@, u),
                    forall|u: Seq<u8>|
                        #[trigger] children_wanted(cv, i as int, *rs, *opts, u) ==> list_has(
                            out@,
                            u,
                        ),
                decreases e.children@.len() - i,
        {
            proof {
                broadcast use vstd::std_specs::vec::axiom_vec_index_decreases;

                assert(decreases_to!(*n => n->Element_0));
                assert(decreases_to!(*e => e.children));
                assert(decreases_to!(e.children => e.children[i as int]));
                assert(decreases_to!(*n => e.children[i as int]));
            }
            let ghost before = out@;
            let child = &e.children[i];
            let ghost chv = child@;
            proof {
                assert(chv == cv[i as int]);
            }
            let sub = collect_refs(child, rs, opts);
            let ghost subv = sub@;
            append_refs(&mut out, sub);
            proof {
                assert forall|j: int| 0 <= j < out@.len() implies wanted(
                    n@,
                    *rs,
                    *opts,
                    (#[trigger] out@[j])@,
                ) by {
                    if j >= before.len() {
                        assert(out@[j] == subv[j - before.len()]);
                        assert(wanted(chv, *rs, *opts, out@[j]@));
                        lemma_children_wanted(cv, cv.len() as int, i as int, *rs, *opts,
                            out@[j]@);
                    }
                }
                assert forall|u: Seq<u8>| #[trigger] elem_attr_refs(e@, *opts, u) implies list_has(
                    out@,
                    u,
                ) by {
                    assert(list_has(before, u));
                    lemma_list_has_extend(before, subv, u);
                }
                assert forall|u: Seq<u8>|
                    #[trigger] elem_css_refs(e@, *rs, *opts, u) implies list_has(out@, u) by {
                    assert(list_has(before, u));
                    lemma_list_has_extend(before, subv, u);
                }
                assert forall|u: Seq<u8>|
                    #[trigger] children_wanted(cv, i as int + 1, *rs, *opts, u) implies list_has(
                    out@,
                    u,
                ) by {
                    if children_wanted(cv, i as int, *rs, *opts, u) {
                        assert(list_has(before, u));
                        lemma_list_has_extend(before, subv, u);
                    } else {
                        assert(wanted(cv[i as int], *rs, *opts, u));
                        assert(wanted(chv, *rs, *opts, u));
                        assert(list_has(subv, u));
                        lemma_list_has_extend(before, subv, u);
                    }
                }
            }
            i += 1;
        }
            proof {
                assert(cv.len() == e.children@.len());
                assert forall|u: Seq<u8>| #[trigger] wanted(n@, *rs, *opts, u) implies list_has(
                    out@,
                    u,
                ) by {
                    assert(n@ == NodeV::Element(e@));
                    if !elem_attr_refs(e@, *opts, u) && !elem_css_refs(e@, *rs, *opts, u) {
                        assert(children_wanted(e@.children, e@.children.len() as int, *rs, *opts,
                            u));
                        assert(e@.children == cv && e@.children.len() == i as int);
                        assert(children_wanted(cv, i as int, *rs, *opts, u));
                    }
                }
            }
            out
        },
    }
}

/// The references the pipeline still needs: every reference some handler
/// will try to resolve that the table has no outcome for yet, each exactly
/// once. When this list is empty, `run` resolves everything it can.
#[verifier::loop_isolation(false)]
pub fn pending_refs(n: &Node, rs: &Resources, opts: &Options) -> (r: Vec<Vec<u8>>)
    ensures
        forall|a: int, b: int|
            #![trigger r@[a], r@[b]]
            0 <= a < b < r@.len() ==> r@[a]@ != r@[b]@,
        forall|j: int|
            #![trigger r@[j]]
            0 <= j < r@.len() ==> wanted(n@, *rs, *opts, r@[j]@) && rs.get_spec(r@[j]@) is None,
        forall|u: Seq<u8>|
            #[trigger] wanted(n@, *rs, *opts, u) && rs.get_spec(u) is None ==> list_has(r@, u),
{
    let all = collect_refs(n, rs, opts);
    let mut out: Vec<Vec<u8>> = Vec::new();
    let mut i: usize = 0;
    while i < all.len()
        invariant
            0 <= i <= all@.len(),
            forall|a: int, b: int|
                #![trigger out@[a], out@[b]]
                0 <= a < b < out@.len() ==> out@[a]@ != out@[b]@,
            forall|j: int|
                #![trigger out@[j]]
                0 <= j < out@.len() ==> wanted(n@, *rs, *opts, out@[j]@) && rs.get_spec(
                    out@[j]@,
                ) is None,
            forall|k: int|
                #![trigger all@[k]]
                0 <= k < i && rs.get_spec(all@[k]@) is None ==> list_has(out@, all@[k]@),
        decreases all@.len() - i,
    {
        let ghost prev = out@;
        if !rs.contains(all[i].as_slice()) && !listed(&out, all[i].as_slice()) {
            let item = crate::bytes::to_vec(all[i].as_slice());
            out.push(item);
            proof {
                assert(out@.last()@ == all@[i as int]@);
                assert(list_has(out@, all@[i as int]@));
                assert forall|k: int|
                    0 <= k < i && rs.get_spec((#[trigger] all@[k])@) is None implies list_has(
                    out@,
                    all@[k]@,
                ) by {
                    let j = choose|j: int| 0 <= j < prev.len() && (#[trigger] prev[j])@
                        == all@[k]@;
                    assert(out@[j]@ == all@[k]@);
                }
            }
        }
        i += 1;
    }
    proof {
        assert forall|u: Seq<u8>|
            #[trigger] wanted(n@, *rs, *opts, u) && rs.get_spec(u) is None implies list_has(
            out@,
            u,
        ) by {
            assert(list_has(all@, u));
            let k = choose|k: int| 0 <= k < all@.len() && (#[trigger] all@[k])@ == u;
        }
    }
    out
}

/// Is the byte string already in the list?
#[verifier::loop_isolation(false)]
fn listed(v: &Vec<Vec<u8>>, x: &[u8]) -> (r: bool)
    ensures
        r == list_has(v@, x@),
{
    let mut i: usize = 0;
    while i < v.len()
        invariant
            0 <= i <= v@.len(),
            forall|j: int| 0 <= j < i ==> (#[trigger] v@[j])@ != x@,
        decreases v@.len() - i,
    {
        if eq_bytes(v[i].as_slice(), x) {
            return true;
        }
        i += 1;
    }
    false
}

} // verus!
