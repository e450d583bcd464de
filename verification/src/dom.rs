//! A plain model of the parsed document: elements with a tag, attributes and
//! children, and text nodes. The node handlers and the dispatcher work on
//! this model; the caller converts its real tree to and from it.
//!
//! Each executable type has a mathematical view (`NodeV`, `ElemV`, `AttrV`)
//! over sequences; the handlers' contracts are stated over the views.

use vstd::prelude::*;
use vstd::string::StringSliceAdditionalSpecFns;

use crate::bytes::push_all;

verus! {

/// One attribute: name and value, both byte strings.
pub struct Attr {
    pub name: Vec<u8>,
    pub value: Vec<u8>,
}

/// A node of the document tree.
pub enum Node {
    Text(Vec<u8>),
    Element(Elem),
}

/// An element: tag name, attributes, and ordered children.
pub struct Elem {
    pub tag: Vec<u8>,
    pub attrs: Vec<Attr>,
    pub children: Vec<Node>,
}

/// The view of an attribute.
#[verifier::ext_equal]
pub struct AttrV {
    pub name: Seq<u8>,
    pub value: Seq<u8>,
}

/// The view of a node.
#[verifier::ext_equal]
pub enum NodeV {
    Text(Seq<u8>),
    Element(ElemV),
}

/// The view of an element.
#[verifier::ext_equal]
pub struct ElemV {
    pub tag: Seq<u8>,
    pub attrs: Seq<AttrV>,
    pub children: Seq<NodeV>,
}

impl View for Attr {
    type V = AttrV;

    open spec fn view(&self) -> AttrV {
        AttrV { name: self.name@, value: self.value@ }
    }
}

/// The view of a node, recursively.
pub open spec fn node_view(n: Node) -> NodeV
    decreases n, 0int,
{
    match n {
        Node::Text(t) => NodeV::Text(t@),
        Node::Element(e) => NodeV::Element(elem_view(e)),
    }
}

/// The view of an element.
pub open spec fn elem_view(e: Elem) -> ElemV
    decreases e, 0int,
{
    ElemV {
        tag: e.tag@,
        attrs: e.attrs@.map_values(|a: Attr| a@),
        children: children_views(e.children, e.children@.len() as int),
    }
}

/// The views of the first `i` children.
pub open spec fn children_views(children: Vec<Node>, i: int) -> Seq<NodeV>
    decreases children, i,
    via children_views_decreases
{
    if i <= 0 || i > children@.len() {
        Seq::empty()
    } else {
        children_views(children, i - 1).push(node_view(children@[i - 1]))
    }
}

#[via_fn]
proof fn children_views_decreases(children: Vec<Node>, i: int) {
    broadcast use vstd::std_specs::vec::axiom_vec_index_decreases;

    if 0 < i <= children@.len() {
        assert(decreases_to!(children => children[i - 1]));
    }
}

impl View for Node {
    type V = NodeV;

    open spec fn view(&self) -> NodeV {
        node_view(*self)
    }
}

impl View for Elem {
    type V = ElemV;

    open spec fn view(&self) -> ElemV {
        elem_view(*self)
    }
}

/// Each child's view is the view of that child.
pub proof fn lemma_children_views(children: Vec<Node>, n: int)
    requires
        0 <= n <= children@.len(),
    ensures
        children_views(children, n).len() == n,
        forall|i: int|
            0 <= i < n ==> #[trigger] children_views(children, n)[i] == node_view(children@[i]),
    decreases n,
{
    if n > 0 {
        lemma_children_views(children, n - 1);
    }
}

/// The concatenated text of all descendant text nodes, in document order.
pub open spec fn text_v(n: NodeV) -> Seq<u8>
    decreases n, 0int,
{
    match n {
        NodeV::Text(t) => t,
        NodeV::Element(e) => texts_upto_v(e.children, e.children.len() as int),
    }
}

/// The concatenated text of the first `i` children.
pub open spec fn texts_upto_v(children: Seq<NodeV>, i: int) -> Seq<u8>
    decreases children, i,
    via texts_upto_v_decreases
{
    if i <= 0 || i > children.len() {
        Seq::empty()
    } else {
        texts_upto_v(children, i - 1) + text_v(children[i - 1])
    }
}

#[via_fn]
proof fn texts_upto_v_decreases(children: Seq<NodeV>, i: int) {
    broadcast use vstd::seq::axiom_seq_index_decreases;

    if 0 < i <= children.len() {
        assert(decreases_to!(children => children[i - 1]));
    }
}

/// Gather the text of a whole subtree, as the serializer's `text_contents`
/// does.
#[verifier::loop_isolation(false)]
pub fn collect_text(n: &Node) -> (r: Vec<u8>)
    ensures
        r@ == text_v(n@),
    decreases *n,
{
    match n {
        Node::Text(t) => {
            let mut out: Vec<u8> = Vec::new();
            push_all(&mut out, t.as_slice());
            proof {
                assert(out@ =~= t@);
            }
            out
        },
        Node::Element(e) => {
            proof {
                lemma_children_views(e.children, e.children@.len() as int);
            }
            let ghost cv = elem_view(*e).children;
            let mut out: Vec<u8> = Vec::new();
            let mut i: usize = 0;
            while i < e.children.len()
                invariant
                    0 <= i <= e.children@.len(),
                    out@ == texts_upto_v(cv, i as int),
                decreases e.children@.len() - i,
        {
            proof {
                broadcast use vstd::std_specs::vec::axiom_vec_index_decreases;

                assert(decreases_to!(*n => n->Element_0));
                assert(decreases_to!(*e => e.children));
                assert(decreases_to!(e.children => e.children[i as int]));
                assert(decreases_to!(*n => e.children[i as int]));
            }
            let child_text = collect_text(&e.children[i]);
            push_all(&mut out, child_text.as_slice());
            i += 1;
        }
            out
        },
    }
}

/// The value of the first attribute named `name`, if any.
pub open spec fn attr_lookup(attrs: Seq<AttrV>, name: Seq<u8>) -> Option<Seq<u8>>
    decreases attrs.len(),
{
    if attrs.len() == 0 {
        None
    } else if attrs[0].name == name {
        Some(attrs[0].value)
    } else {
        attr_lookup(attrs.drop_first(), name)
    }
}

proof fn lemma_attr_lookup_skip(attrs: Seq<AttrV>, name: Seq<u8>, i: int)
    requires
        0 <= i <= attrs.len(),
        forall|j: int| 0 <= j < i ==> attrs[j].name != name,
    ensures
        attr_lookup(attrs, name) == attr_lookup(attrs.skip(i), name),
    decreases i,
{
    if i > 0 {
        lemma_attr_lookup_skip(attrs.drop_first(), name, i - 1);
        assert(attrs.drop_first().skip(i - 1) =~= attrs.skip(i));
    } else {
        assert(attrs.skip(0) =~= attrs);
    }
}

/// The value of an element's attribute, if the element has it.
#[verifier::loop_isolation(false)]
pub fn get_attr(e: &Elem, name: &[u8]) -> (r: Option<Vec<u8>>)
    ensures
        match r {
            Some(v) => attr_lookup(e@.attrs, name@) == Some(v@),
            None => attr_lookup(e@.attrs, name@) is None,
        },
{
    let ghost attrs = e@.attrs;
    proof {
        assert(attrs =~= e.attrs@.map_values(|a: Attr| a@));
    }
    let mut i: usize = 0;
    while i < e.attrs.len()
        invariant
            0 <= i <= e.attrs@.len(),
            attrs == e@.attrs,
            attrs.len() == e.attrs@.len(),
            forall|j: int| 0 <= j < e.attrs@.len() ==> #[trigger] attrs[j] == e.attrs@[j]@,
            forall|j: int| 0 <= j < i ==> #[trigger] attrs[j].name != name@,
        decreases e.attrs@.len() - i,
    {
        if crate::bytes::eq_bytes(e.attrs[i].name.as_slice(), name) {
            proof {
                lemma_attr_lookup_skip(attrs, name@, i as int);
                assert(attrs.skip(i as int)[0] == attrs[i as int]);
            }
            return Some(crate::bytes::to_vec(e.attrs[i].value.as_slice()));
        }
        i += 1;
    }
    proof {
        lemma_attr_lookup_skip(attrs, name@, i as int);
        assert(attrs.skip(i as int).len() == 0);
    }
    None
}

/// Does the element carry the attribute?
pub fn has_attr(e: &Elem, name: &[u8]) -> (r: bool)
    ensures
        r == (attr_lookup(e@.attrs, name@) is Some),
{
    match get_attr(e, name) {
        Some(_) => true,
        None => false,
    }
}

/// A `<base href>` element somewhere in the subtree.
pub open spec fn has_base_href_v(n: NodeV) -> bool
    decreases n, 0int,
{
    match n {
        NodeV::Text(_) => false,
        NodeV::Element(e) => (e.tag == "base".spec_bytes() && attr_lookup(
            e.attrs,
            "href".spec_bytes(),
        ) is Some) || subtree_has_base_v(e.children, e.children.len() as int),
    }
}

/// A `<base href>` element somewhere under the first `i` children.
pub open spec fn subtree_has_base_v(children: Seq<NodeV>, i: int) -> bool
    decreases children, i,
    via subtree_has_base_v_decreases
{
    if i <= 0 || i > children.len() {
        false
    } else {
        subtree_has_base_v(children, i - 1) || has_base_href_v(children[i - 1])
    }
}

#[via_fn]
proof fn subtree_has_base_v_decreases(children: Seq<NodeV>, i: int) {
    broadcast use vstd::seq::axiom_seq_index_decreases;

    if 0 < i <= children.len() {
        assert(decreases_to!(children => children[i - 1]));
    }
}

/// Does the subtree hold a `<base href>` element?
#[verifier::loop_isolation(false)]
pub fn has_base_href(n: &Node) -> (r: bool)
    ensures
        r == has_base_href_v(n@),
    decreases *n,
{
    match n {
        Node::Text(_) => false,
        Node::Element(e) => {
            if crate::bytes::eq_bytes(e.tag.as_slice(), ("base").as_bytes()) && has_attr(
                e,
                ("href").as_bytes(),
            ) {
                proof {
                    assert(e@.tag == "base".spec_bytes());
                }
                return true;
            }
            proof {
                lemma_children_views(e.children, e.children@.len() as int);
            }
            let ghost cv = elem_view(*e).children;
            let mut i: usize = 0;
            while i < e.children.len()
                invariant
                    0 <= i <= e.children@.len(),
                    !subtree_has_base_v(cv, i as int),
                    !(e@.tag == "base".spec_bytes() && attr_lookup(
                        e@.attrs,
                        "href".spec_bytes(),
                    ) is Some),
                decreases e.children@.len() - i,
        {
            proof {
                broadcast use vstd::std_specs::vec::axiom_vec_index_decreases;

                assert(decreases_to!(*n => n->Element_0));
                assert(decreases_to!(*e => e.children));
                assert(decreases_to!(e.children => e.children[i as int]));
                assert(decreases_to!(*n => e.children[i as int]));
            }
            if has_base_href(&e.children[i]) {
                proof {
                    lemma_subtree_has_base(cv, cv.len() as int, i as int);
                }
                return true;
            }
            i += 1;
        }
            false
        },
    }
}

/// If one child's subtree holds a `<base href>`, the whole range does.
pub proof fn lemma_subtree_has_base(children: Seq<NodeV>, n: int, i: int)
    requires
        0 <= i < n <= children.len(),
        has_base_href_v(children[i]),
    ensures
        subtree_has_base_v(children, n),
    decreases n,
{
    if i < n - 1 {
        lemma_subtree_has_base(children, n - 1, i);
    }
}

} // verus!
