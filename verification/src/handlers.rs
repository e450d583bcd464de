//! The node handlers and their dispatcher. Each handler is a pair of a
//! selector predicate and a transformation; the dispatcher walks the tree
//! once and applies every active handler to every node its selector
//! matches. Tree mutation is single-threaded by design: parallelism belongs
//! to the fetching of resources, which happens before any rewriting.

use vstd::prelude::*;
use vstd::string::StringSliceAdditionalSpecFns;

use crate::bytes::{eq_bytes, push_all, to_vec};
use crate::dom::{
    attr_lookup, children_views, elem_view, get_attr, lemma_children_views, node_view,
    subtree_has_base_v, texts_upto_v, Attr, AttrV, Elem, ElemV, Node, NodeV,
};
use crate::encode::inlined;
use crate::errors::FetchError;
use crate::resources::Resources;
use crate::rewrite::{import_content, import_rewrite, url_rewrite};

verus! {

/// The base URL the run was configured with: its scheme and its full text.
pub struct BaseUrl {
    pub scheme: Vec<u8>,
    pub text: Vec<u8>,
}

/// Which handler groups are active.
#[derive(Clone, Copy)]
pub struct Options {
    pub js: bool,
    pub css: bool,
    pub img: bool,
}

// ---------------------------------------------------------------- selectors

/// `link[rel="shortcut icon"], link[rel="icon"], link[rel="apple-touch-icon"]`
pub open spec fn is_favicon_v(e: ElemV) -> bool {
    e.tag == "link".spec_bytes() && match attr_lookup(e.attrs, "rel".spec_bytes()) {
        Some(r) => r == "shortcut icon".spec_bytes() || r == "icon".spec_bytes() || r
            == "apple-touch-icon".spec_bytes(),
        None => false,
    }
}

/// `img`
pub open spec fn is_img_v(e: ElemV) -> bool {
    e.tag == "img".spec_bytes()
}

/// `link[rel=stylesheet]`
pub open spec fn is_stylesheet_v(e: ElemV) -> bool {
    e.tag == "link".spec_bytes() && attr_lookup(e.attrs, "rel".spec_bytes()) == Some(
        "stylesheet".spec_bytes(),
    )
}

/// `script[src]`
pub open spec fn is_script_src_v(e: ElemV) -> bool {
    e.tag == "script".spec_bytes() && attr_lookup(e.attrs, "src".spec_bytes()) is Some
}

/// `link` with a JavaScript MIME type.
pub open spec fn is_js_link_v(e: ElemV) -> bool {
    e.tag == "link".spec_bytes() && match attr_lookup(e.attrs, "type".spec_bytes()) {
        Some(t) => t == "application/x-javascript".spec_bytes() || t
            == "application/javascript".spec_bytes() || t == "text/javascript".spec_bytes(),
        None => false,
    }
}

/// `link[type='application/json']`
pub open spec fn is_json_link_v(e: ElemV) -> bool {
    e.tag == "link".spec_bytes() && attr_lookup(e.attrs, "type".spec_bytes()) == Some(
        "application/json".spec_bytes(),
    )
}

/// The base URL's scheme admits a `<base>` tag: only `http` and `https` do.
pub open spec fn base_scheme_ok(base: BaseUrl) -> bool {
    base.scheme@ == "http".spec_bytes() || base.scheme@ == "https".spec_bytes()
}

// ------------------------------------------------------- attribute handlers

/// Rewrite one attribute: the named one gets its value inlined as a data
/// URI, every other is kept.
pub open spec fn attr_inline_rule(a: AttrV, name: Seq<u8>, rs: Resources) -> AttrV {
    if a.name == name {
        AttrV { name: a.name, value: inlined(a.value, rs) }
    } else {
        a
    }
}

/// The favicon and image handlers: the named attribute's reference becomes
/// a data URI (or stays as it was, on fetch failure); nothing else moves.
pub open spec fn attr_inlined_v(e: ElemV, name: Seq<u8>, rs: Resources) -> ElemV {
    ElemV {
        tag: e.tag,
        attrs: e.attrs.map_values(|a: AttrV| attr_inline_rule(a, name, rs)),
        children: e.children,
    }
}

/// Rewrite one attribute: a `style` attribute has its `url()` references
/// resolved (the `url()` pass alone — a style attribute cannot hold
/// `@import`), every other is kept.
pub open spec fn attr_css_rule(a: AttrV, rs: Resources) -> AttrV {
    if a.name == "style".spec_bytes() {
        AttrV { name: a.name, value: url_rewrite(a.value, rs) }
    } else {
        a
    }
}

/// The inline-style handler, `[style]`.
pub open spec fn attr_css_v(e: ElemV, rs: Resources) -> ElemV {
    ElemV {
        tag: e.tag,
        attrs: e.attrs.map_values(|a: AttrV| attr_css_rule(a, rs)),
        children: e.children,
    }
}

// ------------------------------------------------------------- base handler

/// The `<base href="...">` element the base handler appends.
pub open spec fn base_elem_v(base: BaseUrl) -> ElemV {
    ElemV {
        tag: "base".spec_bytes(),
        attrs: seq![AttrV { name: "href".spec_bytes(), value: base.text@ }],
        children: Seq::empty(),
    }
}

/// The base handler on a `<head>` element: if a `<base href>` already
/// stands anywhere below it, nothing happens; otherwise, if and only if the
/// base URL's scheme is `http` or `https`, a `<base href="<base URL>">` is
/// appended as the last child. A `file://` base never produces one: such a
/// tag would be meaningless to a browser.
pub open spec fn base_apply_v(e: ElemV, base: BaseUrl) -> ElemV {
    if subtree_has_base_v(e.children, e.children.len() as int) {
        e
    } else if base_scheme_ok(base) {
        ElemV { tag: e.tag, attrs: e.attrs, children: e.children.push(
            NodeV::Element(base_elem_v(base)),
        ) }
    } else {
        e
    }
}

// ---------------------------------------------------- structural handlers

/// The replacement `<style type="text/css">` element holding rewritten CSS.
pub open spec fn style_elem_v(css_text: Seq<u8>) -> ElemV {
    ElemV {
        tag: "style".spec_bytes(),
        attrs: seq![AttrV { name: "type".spec_bytes(), value: "text/css".spec_bytes() }],
        children: seq![NodeV::Text(css_text)],
    }
}

/// The replacement `<script>` element holding fetched script text.
pub open spec fn script_elem_v(text: Seq<u8>) -> ElemV {
    ElemV { tag: "script".spec_bytes(), attrs: Seq::empty(), children: seq![NodeV::Text(text)] }
}

/// The attribute a script-like element is fetched through: `src` on
/// `<script>`, `href` on `<link>`.
pub open spec fn script_fetch_attr_v(e: ElemV) -> Seq<u8> {
    if e.tag == "script".spec_bytes() {
        "src".spec_bytes()
    } else {
        "href".spec_bytes()
    }
}

/// The text a script-like element resolves to, if its reference was fetched
/// and decodes as UTF-8.
pub open spec fn script_content_v(e: ElemV, rs: Resources) -> Option<Seq<u8>> {
    match attr_lookup(e.attrs, script_fetch_attr_v(e)) {
        Some(u) => import_content(rs, u),
        None => None,
    }
}

/// The text an external stylesheet resolves to, through its `href`.
pub open spec fn stylesheet_content_v(e: ElemV, rs: Resources) -> Option<Seq<u8>> {
    match attr_lookup(e.attrs, "href".spec_bytes()) {
        Some(u) => import_content(rs, u),
        None => None,
    }
}

// ------------------------------------------------------ contract violations

/// A handler invoked on a node lacking its required attribute is a
/// programming error (the selector and the handler disagree), not a fetch
/// failure: it aborts the run.
pub open spec fn elem_violation_v(e: ElemV, opts: Options) -> bool {
    ||| (is_favicon_v(e) && attr_lookup(e.attrs, "href".spec_bytes()) is None)
    ||| (opts.img && is_img_v(e) && attr_lookup(e.attrs, "src".spec_bytes()) is None)
    ||| (opts.css && is_stylesheet_v(e) && attr_lookup(e.attrs, "href".spec_bytes()) is None)
    ||| (opts.js && (is_js_link_v(e) || is_json_link_v(e)) && attr_lookup(
        e.attrs,
        "href".spec_bytes(),
    ) is None)
}

/// Some node of the subtree triggers a contract violation.
pub open spec fn violation_v(n: NodeV, opts: Options) -> bool
    decreases n, 1int,
{
    match n {
        NodeV::Text(_) => false,
        NodeV::Element(e) => elem_violation_v(e, opts) || children_violation_v(
            e.children,
            e.children.len() as int,
            opts,
        ),
    }
}

/// Some node of the first `i` children's subtrees triggers a violation.
pub open spec fn children_violation_v(children: Seq<NodeV>, i: int, opts: Options) -> bool
    decreases children, i,
    via children_violation_v_decreases
{
    if i <= 0 || i > children.len() {
        false
    } else {
        children_violation_v(children, i - 1, opts) || violation_v(children[i - 1], opts)
    }
}

#[via_fn]
proof fn children_violation_v_decreases(children: Seq<NodeV>, i: int, opts: Options) {
    broadcast use vstd::seq::axiom_seq_index_decreases;

    if 0 < i <= children.len() {
        assert(decreases_to!(children => children[i - 1]));
    }
}

proof fn lemma_children_violation(children: Seq<NodeV>, n: int, i: int, opts: Options)
    requires
        0 <= i < n <= children.len(),
    ensures
        violation_v(children[i], opts) ==> children_violation_v(children, n, opts),
        !children_violation_v(children, n, opts) ==> !violation_v(children[i], opts),
    decreases n,
{
    if i < n - 1 {
        lemma_children_violation(children, n - 1, i, opts);
    }
}

// ------------------------------------------------------------ the rewrite

/// What the dispatcher makes of one node, given the fetched resources:
/// script-like elements whose text resolved become inline `<script>`
/// elements; external stylesheets whose text resolved, and every `<style>`
/// element, become `<style type="text/css">` elements holding the CSS
/// rewritten in two passes; favicon `href`s, image `src`es and `style`
/// attributes are rewritten in place; and a rewritten `<head>` receives a
/// `<base>` child when the base handler's conditions hold. A node whose
/// fetch failed is kept, attributes rewritten, children processed.
pub open spec fn rewrite_node_v(n: NodeV, rs: Resources, base: BaseUrl, opts: Options) -> NodeV
    decreases n, 1int,
{
    match n {
        NodeV::Text(t) => NodeV::Text(t),
        NodeV::Element(e) => {
            if opts.js && (is_script_src_v(e) || is_js_link_v(e) || is_json_link_v(e))
                && script_content_v(e, rs) is Some {
                NodeV::Element(script_elem_v(script_content_v(e, rs)->Some_0))
            } else if opts.css && is_stylesheet_v(e) && stylesheet_content_v(e, rs) is Some {
                NodeV::Element(
                    style_elem_v(
                        url_rewrite(
                            import_rewrite(stylesheet_content_v(e, rs)->Some_0, rs),
                            rs,
                        ),
                    ),
                )
            } else if opts.css && e.tag == "style".spec_bytes() {
                NodeV::Element(
                    style_elem_v(
                        url_rewrite(
                            import_rewrite(texts_upto_v(e.children, e.children.len() as int), rs),
                            rs,
                        ),
                    ),
                )
            } else {
                let e1 = if is_favicon_v(e) {
                    attr_inlined_v(e, "href".spec_bytes(), rs)
                } else {
                    e
                };
                let e2 = if opts.img && is_img_v(e) {
                    attr_inlined_v(e1, "src".spec_bytes(), rs)
                } else {
                    e1
                };
                let e3 = if opts.css {
                    attr_css_v(e2, rs)
                } else {
                    e2
                };
                let rewritten = ElemV {
                    tag: e3.tag,
                    attrs: e3.attrs,
                    children: rewrite_children_v(e.children, e.children.len() as int, rs, base,
                        opts),
                };
                if e.tag == "head".spec_bytes() {
                    NodeV::Element(base_apply_v(rewritten, base))
                } else {
                    NodeV::Element(rewritten)
                }
            }
        },
    }
}

/// The rewrites of the first `i` children.
pub open spec fn rewrite_children_v(
    children: Seq<NodeV>,
    i: int,
    rs: Resources,
    base: BaseUrl,
    opts: Options,
) -> Seq<NodeV>
    decreases children, i,
    via rewrite_children_v_decreases
{
    if i <= 0 || i > children.len() {
        Seq::empty()
    } else {
        rewrite_children_v(children, i - 1, rs, base, opts).push(
            rewrite_node_v(children[i - 1], rs, base, opts),
        )
    }
}

#[via_fn]
proof fn rewrite_children_v_decreases(
    children: Seq<NodeV>,
    i: int,
    rs: Resources,
    base: BaseUrl,
    opts: Options,
) {
    broadcast use vstd::seq::axiom_seq_index_decreases;

    if 0 < i <= children.len() {
        assert(decreases_to!(children => children[i - 1]));
    }
}

/// Each rewritten child is the rewrite of that child.
pub proof fn lemma_rewrite_children_views(
    children: Seq<NodeV>,
    n: int,
    rs: Resources,
    base: BaseUrl,
    opts: Options,
)
    requires
        0 <= n <= children.len(),
    ensures
        rewrite_children_v(children, n, rs, base, opts).len() == n,
        forall|i: int|
            0 <= i < n ==> #[trigger] rewrite_children_v(children, n, rs, base, opts)[i]
                == rewrite_node_v(children[i], rs, base, opts),
    decreases n,
{
    if n > 0 {
        lemma_rewrite_children_views(children, n - 1, rs, base, opts);
    }
}

// ------------------------------------------------------------- exec helpers

/// A deep copy of a node.
#[verifier::loop_isolation(false)]
pub fn clone_node(n: &Node) -> (r: Node)
    ensures
        r@ == n@,
    decreases *n,
{
    match n {
        Node::Text(t) => {
            let r = Node::Text(to_vec(t.as_slice()));
            proof {
                assert(r@ =~~= n@);
            }
            r
        },
        Node::Element(e) => {
            proof {
                lemma_children_views(e.children, e.children@.len() as int);
            }
            let ghost cv = elem_view(*e).children;
            let mut children: Vec<Node> = Vec::new();
            let mut i: usize = 0;
            while i < e.children.len()
                invariant
                    0 <= i <= e.children@.len(),
                    children@.len() == i,
                    forall|j: int| 0 <= j < i ==> node_view(#[trigger] children@[j]) == cv[j],
                decreases e.children@.len() - i,
        {
            proof {
                broadcast use vstd::std_specs::vec::axiom_vec_index_decreases;

                assert(decreases_to!(*n => n->Element_0));
                assert(decreases_to!(*e => e.children));
                assert(decreases_to!(e.children => e.children[i as int]));
                assert(decreases_to!(*n => e.children[i as int]));
            }
            let c = clone_node(&e.children[i]);
            children.push(c);
            i += 1;
        }
            let r = Node::Element(
                Elem { tag: to_vec(e.tag.as_slice()), attrs: clone_attrs(&e.attrs), children },
            );
            proof {
                let re = r->Element_0;
                lemma_children_views(re.children, re.children@.len() as int);
                assert(elem_view(re).children =~= cv);
                assert(elem_view(re) =~~= elem_view(*e));
                assert(r@ =~~= n@);
            }
            r
        },
    }
}

/// A deep copy of an attribute list.
#[verifier::loop_isolation(false)]
fn clone_attrs(attrs: &Vec<Attr>) -> (r: Vec<Attr>)
    ensures
        r@.map_values(|a: Attr| a@) == attrs@.map_values(|a: Attr| a@),
{
    let mut out: Vec<Attr> = Vec::new();
    let mut i: usize = 0;
    while i < attrs.len()
        invariant
            0 <= i <= attrs@.len(),
            out@.len() == i,
            forall|j: int| 0 <= j < i ==> (#[trigger] out@[j])@ == attrs@[j]@,
        decreases attrs@.len() - i,
    {
        out.push(Attr { name: to_vec(attrs[i].name.as_slice()), value: to_vec(
            attrs[i].value.as_slice(),
        ) });
        i += 1;
    }
    proof {
        assert(out@.map_values(|a: Attr| a@) =~= attrs@.map_values(|a: Attr| a@));
    }
    out
}

/// A deep copy of an element.
#[verifier::loop_isolation(false)]
pub fn clone_elem(e: &Elem) -> (r: Elem)
    ensures
        r@ == e@,
{
    proof {
        lemma_children_views(e.children, e.children@.len() as int);
    }
    let ghost cv = elem_view(*e).children;
    let mut children: Vec<Node> = Vec::new();
    let mut i: usize = 0;
    while i < e.children.len()
        invariant
            0 <= i <= e.children@.len(),
            children@.len() == i,
            forall|j: int| 0 <= j < i ==> node_view(#[trigger] children@[j]) == cv[j],
        decreases e.children@.len() - i,
    {
        let c = clone_node(&e.children[i]);
        children.push(c);
        i += 1;
    }
    let r = Elem { tag: to_vec(e.tag.as_slice()), attrs: clone_attrs(&e.attrs), children };
    proof {
        lemma_children_views(r.children, r.children@.len() as int);
        assert(elem_view(r).children =~= cv);
        assert(elem_view(r) =~~= elem_view(*e));
    }
    r
}

// ----------------------------------------------------------- exec selectors

/// `script` and `link` are different tags, byte for byte.
proof fn lemma_distinct_tags()
    ensures
        "script".spec_bytes() != "link".spec_bytes(),
{
    reveal_strlit("script");
    reveal_strlit("link");
    vstd::utf8::is_ascii_chars_encode_utf8("script"@);
    vstd::utf8::is_ascii_chars_encode_utf8("link"@);
    assert("script".spec_bytes().len() == 6);
    assert("link".spec_bytes().len() == 4);
}

/// Does the element match the favicon selector?
pub fn matches_favicon(e: &Elem) -> (r: bool)
    ensures
        r == is_favicon_v(e@),
{
    if !eq_bytes(e.tag.as_slice(), ("link").as_bytes()) {
        return false;
    }
    match get_attr(e, ("rel").as_bytes()) {
        Some(v) => eq_bytes(v.as_slice(), ("shortcut icon").as_bytes()) || eq_bytes(
            v.as_slice(),
            ("icon").as_bytes(),
        ) || eq_bytes(v.as_slice(), ("apple-touch-icon").as_bytes()),
        None => false,
    }
}

/// Does the element match the stylesheet selector?
pub fn matches_stylesheet(e: &Elem) -> (r: bool)
    ensures
        r == is_stylesheet_v(e@),
{
    if !eq_bytes(e.tag.as_slice(), ("link").as_bytes()) {
        return false;
    }
    match get_attr(e, ("rel").as_bytes()) {
        Some(v) => eq_bytes(v.as_slice(), ("stylesheet").as_bytes()),
        None => false,
    }
}

/// Does the element match one of the script selectors?
pub fn matches_script_like(e: &Elem) -> (r: bool)
    ensures
        r == (is_script_src_v(e@) || is_js_link_v(e@) || is_json_link_v(e@)),
{
    proof {
        lemma_distinct_tags();
    }
    if eq_bytes(e.tag.as_slice(), ("script").as_bytes()) {
        return crate::dom::has_attr(e, ("src").as_bytes());
    }
    if !eq_bytes(e.tag.as_slice(), ("link").as_bytes()) {
        return false;
    }
    match get_attr(e, ("type").as_bytes()) {
        Some(v) => eq_bytes(v.as_slice(), ("application/x-javascript").as_bytes()) || eq_bytes(
            v.as_slice(),
            ("application/javascript").as_bytes(),
        ) || eq_bytes(v.as_slice(), ("text/javascript").as_bytes()) || eq_bytes(
            v.as_slice(),
            ("application/json").as_bytes(),
        ),
        None => false,
    }
}

// ------------------------------------------------------------ the handlers

/// The favicon handler: rewrite `href` in place as a data URI.
pub fn favicon(e: &Elem, rs: &Resources) -> (r: Elem)
    ensures
        r@ == attr_inlined_v(e@, "href".spec_bytes(), *rs),
{
    inline_attr(e, ("href").as_bytes(), rs)
}

/// The image handler: rewrite `src` in place as a data URI.
pub fn image(e: &Elem, rs: &Resources) -> (r: Elem)
    ensures
        r@ == attr_inlined_v(e@, "src".spec_bytes(), *rs),
{
    inline_attr(e, ("src").as_bytes(), rs)
}

/// Rewrite the named attribute's value into a data URI, keeping everything
/// else.
#[verifier::loop_isolation(false)]
fn inline_attr(e: &Elem, name: &[u8], rs: &Resources) -> (r: Elem)
    ensures
        r@ == attr_inlined_v(e@, name@, *rs),
{
    let ghost target = attr_inlined_v(e@, name@, *rs);
    let mut attrs: Vec<Attr> = Vec::new();
    let mut i: usize = 0;
    while i < e.attrs.len()
        invariant
            0 <= i <= e.attrs@.len(),
            attrs@.len() == i,
            forall|j: int| 0 <= j < i ==> (#[trigger] attrs@[j])@ == target.attrs[j],
        decreases e.attrs@.len() - i,
    {
        let mut val = to_vec(e.attrs[i].value.as_slice());
        if eq_bytes(e.attrs[i].name.as_slice(), name) {
            crate::encode::make_data_uri(&mut val, rs);
        }
        attrs.push(Attr { name: to_vec(e.attrs[i].name.as_slice()), value: val });
        proof {
            assert(e@.attrs[i as int] == e.attrs@[i as int]@);
            assert(attrs@.last()@ =~= attr_inline_rule(e@.attrs[i as int], name@, *rs));
        }
        i += 1;
    }
    let children = clone_children(&e.children);
    let r = Elem { tag: to_vec(e.tag.as_slice()), attrs, children };
    proof {
        assert(r@.attrs =~= target.attrs);
        assert(r@ =~~= target);
    }
    r
}

/// The inline-style handler, `[style]`: run the `style` attribute through
/// the `url()` pass alone — a style attribute cannot hold `@import`.
#[verifier::loop_isolation(false)]
pub fn inline(e: &Elem, rs: &Resources) -> (r: Elem)
    ensures
        r@ == attr_css_v(e@, *rs),
{
    let ghost target = attr_css_v(e@, *rs);
    let mut attrs: Vec<Attr> = Vec::new();
    let mut i: usize = 0;
    while i < e.attrs.len()
        invariant
            0 <= i <= e.attrs@.len(),
            attrs@.len() == i,
            forall|j: int| 0 <= j < i ==> (#[trigger] attrs@[j])@ == target.attrs[j],
        decreases e.attrs@.len() - i,
    {
        let val = if eq_bytes(e.attrs[i].name.as_slice(), ("style").as_bytes()) {
            crate::rewrite::patch_url(e.attrs[i].value.as_slice(), rs)
        } else {
            to_vec(e.attrs[i].value.as_slice())
        };
        attrs.push(Attr { name: to_vec(e.attrs[i].name.as_slice()), value: val });
        proof {
            assert(e@.attrs[i as int] == e.attrs@[i as int]@);
            assert(attrs@.last()@ =~= attr_css_rule(e@.attrs[i as int], *rs));
        }
        i += 1;
    }
    let children = clone_children(&e.children);
    let r = Elem { tag: to_vec(e.tag.as_slice()), attrs, children };
    proof {
        assert(r@.attrs =~= target.attrs);
        assert(r@ =~~= target);
    }
    r
}

/// A deep copy of a child list, preserving the views.
#[verifier::loop_isolation(false)]
fn clone_children(children: &Vec<Node>) -> (r: Vec<Node>)
    ensures
        children_views(r, r@.len() as int) == children_views(*children, children@.len() as int),
        r@.len() == children@.len(),
{
    proof {
        lemma_children_views(*children, children@.len() as int);
    }
    let mut out: Vec<Node> = Vec::new();
    let mut i: usize = 0;
    while i < children.len()
        invariant
            0 <= i <= children@.len(),
            out@.len() == i,
            forall|j: int|
                0 <= j < i ==> node_view(#[trigger] out@[j]) == node_view(children@[j]),
        decreases children@.len() - i,
    {
        let c = clone_node(&children[i]);
        out.push(c);
        i += 1;
    }
    proof {
        lemma_children_views(out, out@.len() as int);
        assert(children_views(out, out@.len() as int) =~= children_views(
            *children,
            children@.len() as int,
        ));
    }
    out
}

/// The base handler on a matched `<head>` element.
#[verifier::loop_isolation(false)]
pub fn base_href(e: &Elem, base: &BaseUrl) -> (r: Elem)
    ensures
        r@ == base_apply_v(e@, *base),
{
    proof {
        lemma_children_views(e.children, e.children@.len() as int);
    }
    let ghost cv = e@.children;
    let mut found = false;
    let mut i: usize = 0;
    while i < e.children.len()
        invariant
            0 <= i <= e.children@.len(),
            found == subtree_has_base_v(cv, i as int),
        decreases e.children@.len() - i,
    {
        if crate::dom::has_base_href(&e.children[i]) {
            found = true;
        }
        i += 1;
    }
    if found {
        return clone_elem(e);
    }
    let scheme_ok = eq_bytes(base.scheme.as_slice(), ("http").as_bytes()) || eq_bytes(
        base.scheme.as_slice(),
        ("https").as_bytes(),
    );
    if !scheme_ok {
        return clone_elem(e);
    }
    let mut r = clone_elem(e);
    let ghost before = r;
    let base_elem = make_base_elem(base);
    r.children.push(Node::Element(base_elem));
    proof {
        lemma_children_views(before.children, before.children@.len() as int);
        lemma_children_views(r.children, r.children@.len() as int);
        assert(forall|j: int|
            0 <= j < before.children@.len() ==> r.children@[j] == before.children@[j]);
        assert(r@.children =~= before@.children.push(NodeV::Element(base_elem_v(*base))));
        assert(r@ =~~= base_apply_v(e@, *base));
    }
    r
}

/// Build the `<base href="...">` element.
fn make_base_elem(base: &BaseUrl) -> (r: Elem)
    ensures
        r@ == base_elem_v(*base),
{
    let mut attrs: Vec<Attr> = Vec::new();
    attrs.push(Attr { name: to_vec(("href").as_bytes()), value: to_vec(base.text.as_slice()) });
    let r = Elem { tag: to_vec(("base").as_bytes()), attrs, children: Vec::new() };
    proof {
        lemma_children_views(r.children, 0);
        assert(r@.attrs =~= base_elem_v(*base).attrs);
        assert(r@ =~~= base_elem_v(*base));
    }
    r
}

/// Build the `<style type="text/css">` element holding rewritten CSS.
fn make_style_elem(css_text: Vec<u8>) -> (r: Elem)
    ensures
        r@ == style_elem_v(css_text@),
{
    let mut attrs: Vec<Attr> = Vec::new();
    attrs.push(Attr { name: to_vec(("type").as_bytes()), value: to_vec(("text/css").as_bytes()) });
    let mut children: Vec<Node> = Vec::new();
    let ghost text = css_text@;
    children.push(Node::Text(css_text));
    let r = Elem { tag: to_vec(("style").as_bytes()), attrs, children };
    proof {
        lemma_children_views(r.children, 1);
        assert(r@.children =~= style_elem_v(text).children);
        assert(r@.attrs =~= style_elem_v(text).attrs);
        assert(r@ =~~= style_elem_v(text));
    }
    r
}

/// Build the `<script>` element holding fetched script text — the original
/// node's replacement.
pub fn replace(content: Vec<u8>) -> (r: Elem)
    ensures
        r@ == script_elem_v(content@),
{
    let ghost text = content@;
    let mut children: Vec<Node> = Vec::new();
    children.push(Node::Text(content));
    let r = Elem { tag: to_vec(("script").as_bytes()), attrs: Vec::new(), children };
    proof {
        lemma_children_views(r.children, 1);
        assert(r@.children =~= script_elem_v(text).children);
        assert(r@.attrs =~= script_elem_v(text).attrs);
        assert(r@ =~~= script_elem_v(text));
    }
    r
}

/// The external-stylesheet handler: fetch `href` as text, run it through
/// both passes of the CSS Rewriter, and hand back the `<style>` element that
/// replaces the link. `None` when the fetch failed: the link is then left
/// in place.
pub fn external(e: &Elem, rs: &Resources) -> (r: Option<Elem>)
    ensures
        match r {
            Some(el) => stylesheet_content_v(e@, *rs) matches Some(content) && el@ == style_elem_v(
                url_rewrite(import_rewrite(content, *rs), *rs),
            ),
            None => stylesheet_content_v(e@, *rs) is None,
        },
{
    let href = match get_attr(e, ("href").as_bytes()) {
        Some(h) => h,
        None => {
            return None;
        },
    };
    match rs.get(href.as_slice()) {
        Some(crate::resources::Outcome::Fetched { mime: _, bytes }) => {
            if crate::encode::is_text(bytes.as_slice()) {
                let rewritten = crate::rewrite::rewrite_css(bytes.as_slice(), rs);
                Some(make_style_elem(rewritten))
            } else {
                None
            }
        },
        _ => None,
    }
}

/// The internal-stylesheet handler: take the `<style>` element's text,
/// rewrite it in both passes, and hand back the fresh `<style>` element
/// that replaces it.
pub fn internal(e: &Elem, rs: &Resources) -> (r: Elem)
    ensures
        r@ == style_elem_v(
            url_rewrite(
                import_rewrite(texts_upto_v(e@.children, e@.children.len() as int), *rs),
                *rs,
            ),
        ),
{
    let text = elem_text(e);
    let rewritten = crate::rewrite::rewrite_css(text.as_slice(), rs);
    make_style_elem(rewritten)
}

/// The text under an element's children, in document order.
#[verifier::loop_isolation(false)]
pub fn elem_text(e: &Elem) -> (r: Vec<u8>)
    ensures
        r@ == texts_upto_v(e@.children, e@.children.len() as int),
{
    proof {
        lemma_children_views(e.children, e.children@.len() as int);
    }
    let ghost cv = e@.children;
    let mut out: Vec<u8> = Vec::new();
    let mut i: usize = 0;
    while i < e.children.len()
        invariant
            0 <= i <= e.children@.len(),
            out@ == texts_upto_v(cv, i as int),
        decreases e.children@.len() - i,
    {
        let t = crate::dom::collect_text(&e.children[i]);
        push_all(&mut out, t.as_slice());
        i += 1;
    }
    out
}

/// Does the element match one of the script-like `<link>` selectors?
fn matches_script_link(e: &Elem) -> (r: bool)
    ensures
        r == (is_js_link_v(e@) || is_json_link_v(e@)),
{
    if !eq_bytes(e.tag.as_slice(), ("link").as_bytes()) {
        return false;
    }
    match get_attr(e, ("type").as_bytes()) {
        Some(v) => eq_bytes(v.as_slice(), ("application/x-javascript").as_bytes()) || eq_bytes(
            v.as_slice(),
            ("application/javascript").as_bytes(),
        ) || eq_bytes(v.as_slice(), ("text/javascript").as_bytes()) || eq_bytes(
            v.as_slice(),
            ("application/json").as_bytes(),
        ),
        None => false,
    }
}

/// Does any node of the subtree trigger a contract violation?
#[verifier::loop_isolation(false)]
pub fn has_violation(n: &Node, opts: &Options) -> (r: bool)
    ensures
        r == violation_v(n@, *opts),
    decreases *n,
{
    match n {
        Node::Text(_) => false,
        Node::Element(e) => {
            let local = (matches_favicon(e) && !crate::dom::has_attr(e, ("href").as_bytes())) || (
            opts.img && eq_bytes(e.tag.as_slice(), ("img").as_bytes()) && !crate::dom::has_attr(
                e,
                ("src").as_bytes(),
            )) || (opts.css && matches_stylesheet(e) && !crate::dom::has_attr(
                e,
                ("href").as_bytes(),
            )) || (opts.js && matches_script_link(e) && !crate::dom::has_attr(
                e,
                ("href").as_bytes(),
            ));
            proof {
                assert(local == elem_violation_v(e@, *opts));
            }
            if local {
                return true;
            }
            proof {
                lemma_children_views(e.children, e.children@.len() as int);
            }
            let ghost cv = e@.children;
            let mut i: usize = 0;
            while i < e.children.len()
                invariant
                    0 <= i <= e.children@.len(),
                    !children_violation_v(cv, i as int, *opts),
                    !elem_violation_v(e@, *opts),
                decreases e.children@.len() - i,
        {
            proof {
                broadcast use vstd::std_specs::vec::axiom_vec_index_decreases;

                assert(decreases_to!(*n => n->Element_0));
                assert(decreases_to!(*e => e.children));
                assert(decreases_to!(e.children => e.children[i as int]));
                assert(decreases_to!(*n => e.children[i as int]));
            }
            if has_violation(&e.children[i], opts) {
                proof {
                    crate::handlers::lemma_children_violation(cv, cv.len() as int, i as int, *opts);
                }
                return true;
            }
            i += 1;
        }
            false
        },
    }
}

/// Rewrite one node and its whole subtree against the fetched resources.
#[verifier::loop_isolation(false)]
pub fn rewrite_node(n: &Node, rs: &Resources, base: &BaseUrl, opts: &Options) -> (r: Node)
    requires
        !violation_v(n@, *opts),
    ensures
        r@ == rewrite_node_v(n@, *rs, *base, *opts),
    decreases *n,
{
    match n {
        Node::Text(t) => {
            let r = Node::Text(to_vec(t.as_slice()));
            proof {
                assert(r@ =~~= rewrite_node_v(n@, *rs, *base, *opts));
            }
            r
        },
        Node::Element(e) => {
            if opts.js && matches_script_like(e) {
                match script_external(e, rs) {
                    Some(el) => {
                        return Node::Element(el);
                    },
                    None => {},
                }
            }
            if opts.css && matches_stylesheet(e) {
                match external(e, rs) {
                    Some(el) => {
                        return Node::Element(el);
                    },
                    None => {},
                }
            }
            if opts.css && eq_bytes(e.tag.as_slice(), ("style").as_bytes()) {
                return Node::Element(internal(e, rs));
            }
            let e1 = if matches_favicon(e) {
                favicon(e, rs)
            } else {
                clone_elem(e)
            };
            let e2 = if opts.img && eq_bytes(e.tag.as_slice(), ("img").as_bytes()) {
                image(&e1, rs)
            } else {
                e1
            };
            let e3 = if opts.css {
                inline(&e2, rs)
            } else {
                e2
            };
            let ghost cv = e@.children;
            proof {
                lemma_children_views(e.children, e.children@.len() as int);
                lemma_rewrite_children_views(cv, cv.len() as int, *rs, *base, *opts);
            }
            let mut cs: Vec<Node> = Vec::new();
            let mut i: usize = 0;
            while i < e.children.len()
                invariant
                    0 <= i <= e.children@.len(),
                    cs@.len() == i,
                    forall|j: int|
                        0 <= j < i ==> node_view(#[trigger] cs@[j]) == rewrite_children_v(
                            cv,
                            cv.len() as int,
                            *rs,
                            *base,
                            *opts,
                        )[j],
                decreases e.children@.len() - i,
        {
            proof {
                broadcast use vstd::std_specs::vec::axiom_vec_index_decreases;

                assert(decreases_to!(*n => n->Element_0));
                assert(decreases_to!(*e => e.children));
                assert(decreases_to!(e.children => e.children[i as int]));
                assert(decreases_to!(*n => e.children[i as int]));
                lemma_children_violation(cv, cv.len() as int, i as int, *opts);
            }
            let c = rewrite_node(&e.children[i], rs, base, opts);
            cs.push(c);
            i += 1;
        }
            let Elem { tag: t3, attrs: a3, children: _ } = e3;
            let newe = Elem { tag: t3, attrs: a3, children: cs };
            let ghost rewritten = ElemV {
                tag: e3@.tag,
                attrs: e3@.attrs,
                children: rewrite_children_v(cv, cv.len() as int, *rs, *base, *opts),
            };
            proof {
                lemma_children_views(newe.children, newe.children@.len() as int);
                assert(newe@.children =~= rewritten.children);
                assert(newe@ =~~= rewritten);
            }
            if eq_bytes(e.tag.as_slice(), ("head").as_bytes()) {
                let withbase = base_href(&newe, base);
                let r = Node::Element(withbase);
                proof {
                    assert(r@ =~~= rewrite_node_v(n@, *rs, *base, *opts));
                }
                r
            } else {
                let r = Node::Element(newe);
                proof {
                    assert(r@ =~~= rewrite_node_v(n@, *rs, *base, *opts));
                }
                r
            }
        },
    }
}

/// The dispatcher: walk the whole document once, applying every active
/// handler to every node its selector matches, with the fetched resources
/// supplied up front. A handler/selector mismatch — a matched node lacking
/// its required attribute — aborts the run with `ContractViolation`; every
/// fetch failure is soft and leaves the reference as it was.
pub fn run(n: &Node, rs: &Resources, base: &BaseUrl, opts: &Options) -> (r: Result<
    Node,
    FetchError,
>)
    ensures
        r is Err <==> violation_v(n@, *opts),
        r is Err ==> r->Err_0 == FetchError::ContractViolation,
        r matches Ok(d) ==> d@ == rewrite_node_v(n@, *rs, *base, *opts),
{
    if has_violation(n, opts) {
        Err(FetchError::ContractViolation)
    } else {
        Ok(rewrite_node(n, rs, base, opts))
    }
}

// -------------------------------------------------------------------- laws

/// Base idempotence: the base handler's second application on its own
/// output changes nothing — the `<base href>` it appended blocks any
/// further insertion.
pub proof fn lemma_base_idempotent(e: ElemV, base: BaseUrl)
    ensures
        base_apply_v(base_apply_v(e, base), base) == base_apply_v(e, base),
{
    let n = e.children.len() as int;
    if !subtree_has_base_v(e.children, n) && base_scheme_ok(base) {
        let e2 = base_apply_v(e, base);
        assert(e2.children[n] == NodeV::Element(base_elem_v(base)));
        assert(attr_lookup(base_elem_v(base).attrs, "href".spec_bytes()) is Some);
        assert(crate::dom::has_base_href_v(e2.children[n]));
        crate::dom::lemma_subtree_has_base(e2.children, e2.children.len() as int, n);
    }
}

/// Scheme gating: a `file://` base URL never produces a `<base>` insertion;
/// an `http` or `https` one always does, when no `<base href>` stands in
/// the subtree yet.
pub proof fn lemma_scheme_gating(e: ElemV, base: BaseUrl)
    ensures
        base.scheme@ == "file".spec_bytes() ==> base_apply_v(e, base) == e,
        base_scheme_ok(base) && !subtree_has_base_v(e.children, e.children.len() as int)
            ==> base_apply_v(e, base).children == e.children.push(
            NodeV::Element(base_elem_v(base)),
        ),
{
    reveal_strlit("file");
    reveal_strlit("http");
    reveal_strlit("https");
    vstd::utf8::is_ascii_chars_encode_utf8("file"@);
    vstd::utf8::is_ascii_chars_encode_utf8("http"@);
    vstd::utf8::is_ascii_chars_encode_utf8("https"@);
    assert("file".spec_bytes()[0] == 102);
    assert("http".spec_bytes()[0] == 104);
    assert("https".spec_bytes()[0] == 104);
}

/// The script handler for `script[src]` and script-like `<link>` tags:
/// fetch the referenced text and hand back the inline `<script>` element
/// that replaces the node. `None` when the fetch failed.
pub fn script_external(e: &Elem, rs: &Resources) -> (r: Option<Elem>)
    ensures
        match r {
            Some(el) => script_content_v(e@, *rs) matches Some(content) && el@ == script_elem_v(
                content,
            ),
            None => script_content_v(e@, *rs) is None,
        },
{
    let attr_name = if eq_bytes(e.tag.as_slice(), ("script").as_bytes()) {
        ("src").as_bytes()
    } else {
        ("href").as_bytes()
    };
    proof {
        assert(attr_name@ == script_fetch_attr_v(e@));
    }
    let url = match get_attr(e, attr_name) {
        Some(u) => u,
        None => {
            return None;
        },
    };
    match rs.get(url.as_slice()) {
        Some(crate::resources::Outcome::Fetched { mime: _, bytes }) => {
            if crate::encode::is_text(bytes.as_slice()) {
                Some(replace(to_vec(bytes.as_slice())))
            } else {
                None
            }
        },
        _ => None,
    }
}

} // verus!
