use inliner::dom::{get_attr, Attr, Elem, Node};
use inliner::errors::FetchError;
use inliner::handlers::{base_href, run, BaseUrl, Options};
use inliner::resources::{Outcome, Resources};

fn attr(name: &str, value: &str) -> Attr {
    Attr {
        name: name.as_bytes().to_vec(),
        value: value.as_bytes().to_vec(),
    }
}

fn elem(tag: &str, attrs: Vec<Attr>, children: Vec<Node>) -> Elem {
    Elem {
        tag: tag.as_bytes().to_vec(),
        attrs,
        children,
    }
}

fn fetched(mime: &str, bytes: &[u8]) -> Outcome {
    Outcome::Fetched {
        mime: mime.as_bytes().to_vec(),
        bytes: bytes.to_vec(),
    }
}

fn file_base() -> BaseUrl {
    BaseUrl {
        scheme: b"file".to_vec(),
        text: b"file:///work/".to_vec(),
    }
}

fn http_base() -> BaseUrl {
    BaseUrl {
        scheme: b"https".to_vec(),
        text: b"https://example.com/".to_vec(),
    }
}

fn no_opts() -> Options {
    Options { js: false, css: false, img: false }
}

const ICO: &[u8] = &[0x00, 0x00, 0x01, 0x00, 0x01, 0x02, 0x03, 0x04];
const PNG: &[u8] = &[0x89, 0x50, 0x4e, 0x47, 0x0d, 0x0a, 0x1a, 0x0a, 0x42];

fn child_elem(n: &Node, i: usize) -> &Elem {
    match n {
        Node::Element(e) => match &e.children[i] {
            Node::Element(c) => c,
            Node::Text(_) => panic!("expected an element"),
        },
        Node::Text(_) => panic!("expected an element"),
    }
}

fn attr_text(e: &Elem, name: &str) -> String {
    String::from_utf8(get_attr(e, name.as_bytes()).expect("attribute missing")).unwrap()
}

#[test]
fn favicon_embed() {
    let doc = Node::Element(elem(
        "html",
        vec![attr("lang", "en")],
        vec![
            Node::Element(elem(
                "head",
                vec![],
                vec![Node::Element(elem(
                    "link",
                    vec![attr("rel", "shortcut icon"), attr("href", "favicon.ico")],
                    vec![],
                ))],
            )),
            Node::Element(elem("body", vec![], vec![])),
        ],
    ));
    let mut rs = Resources::new();
    rs.insert(b"favicon.ico".to_vec(), fetched("image/x-icon", ICO));

    let out = run(&doc, &rs, &file_base(), &no_opts()).unwrap();
    let head = child_elem(&out, 0);
    let link = match &head.children[0] {
        Node::Element(e) => e,
        Node::Text(_) => panic!("expected the link element"),
    };
    assert_eq!(
        attr_text(link, "href"),
        format!("data:image/x-icon;base64,{}", base64::encode(ICO))
    );
    assert_eq!(attr_text(link, "rel"), "shortcut icon");
}

#[test]
fn no_favicon_leave_url() {
    let doc = Node::Element(elem(
        "html",
        vec![attr("lang", "en")],
        vec![
            Node::Element(elem(
                "head",
                vec![],
                vec![Node::Element(elem(
                    "link",
                    vec![attr("rel", "shortcut icon"), attr("href", "no-icon.gif")],
                    vec![],
                ))],
            )),
            Node::Element(elem("body", vec![], vec![])),
        ],
    ));
    let mut rs = Resources::new();
    rs.insert(b"no-icon.gif".to_vec(), Outcome::Failed(FetchError::IoError));

    let out = run(&doc, &rs, &file_base(), &no_opts()).unwrap();
    let head = child_elem(&out, 0);
    let link = match &head.children[0] {
        Node::Element(e) => e,
        Node::Text(_) => panic!("expected the link element"),
    };
    assert_eq!(attr_text(link, "href"), "no-icon.gif");
}

#[test]
fn inline_img_tag() {
    let doc = Node::Element(elem(
        "img",
        vec![attr("src", "img/i.png"), attr("class", "bip")],
        vec![],
    ));
    let mut rs = Resources::new();
    rs.insert(b"img/i.png".to_vec(), fetched("image/png", PNG));

    let opts = Options { js: false, css: false, img: true };
    let out = run(&doc, &rs, &file_base(), &opts).unwrap();
    let img = match &out {
        Node::Element(e) => e,
        Node::Text(_) => panic!("expected the img element"),
    };
    assert_eq!(
        attr_text(img, "src"),
        format!("data:image/png;base64,{}", base64::encode(PNG))
    );
    assert_eq!(attr_text(img, "class"), "bip");
}

const BMP: &[u8] = &[0x42, 0x4d, 0x11, 0x22];
const GIF: &[u8] = &[0x47, 0x49, 0x46, 0x38, 0x39, 0x61, 0x33];
const TIF: &[u8] = &[0x49, 0x49, 0x2a, 0x00, 0x44];
const JPG: &[u8] = &[0xff, 0xd8, 0xff, 0x55];

#[test]
fn inline_css() {
    let css_001 = "p {\n    color: red;\n}\n";
    let css_002 = "p {\n    background-image: url(img/i.bmp);\n}\nbody {\n    background-image: url(not-exists.img);\n    background-image: url(img/i.gif);\n}\n";
    let style_text = "\n                @import 'assets/a/002.css';\n                body { backgrouond-image: url(\"img/i.tif\"); }\n            ";

    let doc = Node::Element(elem(
        "html",
        vec![],
        vec![
            Node::Element(elem(
                "link",
                vec![attr("href", "assets/a/001.css"), attr("rel", "stylesheet")],
                vec![],
            )),
            Node::Element(elem(
                "style",
                vec![],
                vec![Node::Text(style_text.as_bytes().to_vec())],
            )),
            Node::Element(elem(
                "p",
                vec![attr("style", "background: url(\"img/i.jpg\")")],
                vec![],
            )),
        ],
    ));

    let mut rs = Resources::new();
    rs.insert(b"assets/a/001.css".to_vec(), fetched("text/css", css_001.as_bytes()));
    rs.insert(b"assets/a/002.css".to_vec(), fetched("text/css", css_002.as_bytes()));
    rs.insert(b"img/i.bmp".to_vec(), fetched("image/bmp", BMP));
    rs.insert(b"img/i.gif".to_vec(), fetched("image/gif", GIF));
    rs.insert(b"img/i.tif".to_vec(), fetched("image/tiff", TIF));
    rs.insert(b"img/i.jpg".to_vec(), fetched("image/jpeg", JPG));
    rs.insert(b"not-exists.img".to_vec(), Outcome::Failed(FetchError::IoError));

    let opts = Options { js: false, css: true, img: false };
    let out = run(&doc, &rs, &file_base(), &opts).unwrap();

    let b64 = |bytes: &[u8], mime: &str| format!("data:{};base64,{}", mime, base64::encode(bytes));

    // the external stylesheet becomes an inline <style type="text/css">
    let ext = child_elem(&out, 0);
    assert_eq!(ext.tag, b"style".to_vec());
    assert_eq!(attr_text(ext, "type"), "text/css");
    match &ext.children[0] {
        Node::Text(t) => assert_eq!(String::from_utf8(t.clone()).unwrap(), css_001),
        Node::Element(_) => panic!("expected text content"),
    }

    // the internal stylesheet has its import inlined and urls resolved
    let intern = child_elem(&out, 1);
    assert_eq!(intern.tag, b"style".to_vec());
    let expected_intern = format!(
        "\n                p {{\n    background-image: url({bmp});\n}}\nbody {{\n    background-image: url(not-exists.img);\n    background-image: url({gif});\n}}\n\n                body {{ backgrouond-image: url({tif}); }}\n            ",
        bmp = b64(BMP, "image/bmp"),
        gif = b64(GIF, "image/gif"),
        tif = b64(TIF, "image/tiff"),
    );
    match &intern.children[0] {
        Node::Text(t) => assert_eq!(String::from_utf8(t.clone()).unwrap(), expected_intern),
        Node::Element(_) => panic!("expected text content"),
    }

    // the style attribute is rewritten by the url() pass alone
    let p = child_elem(&out, 2);
    assert_eq!(
        attr_text(p, "style"),
        format!("background: url({})", b64(JPG, "image/jpeg"))
    );
}

// End to end: an external script becomes an inline <script> and the
// original element is gone.
#[test]
fn script_embed() {
    let doc = Node::Element(elem(
        "html",
        vec![],
        vec![Node::Element(elem(
            "script",
            vec![attr("src", "a.js")],
            vec![],
        ))],
    ));
    let mut rs = Resources::new();
    rs.insert(b"a.js".to_vec(), fetched("text/javascript", b"console.log(1)"));

    let opts = Options { js: true, css: false, img: false };
    let out = run(&doc, &rs, &file_base(), &opts).unwrap();
    let script = child_elem(&out, 0);
    assert_eq!(script.tag, b"script".to_vec());
    assert!(script.attrs.is_empty());
    match &script.children[0] {
        Node::Text(t) => assert_eq!(t, &b"console.log(1)".to_vec()),
        Node::Element(_) => panic!("expected text content"),
    }
}

// Base idempotence: the second application changes nothing.
#[test]
fn base_runs_once() {
    let head = elem("head", vec![], vec![Node::Element(elem("title", vec![], vec![]))]);
    let once = base_href(&head, &http_base());
    assert_eq!(once.children.len(), 2);
    match &once.children[1] {
        Node::Element(b) => {
            assert_eq!(b.tag, b"base".to_vec());
            assert_eq!(attr_text(b, "href"), "https://example.com/");
        },
        Node::Text(_) => panic!("expected the base element"),
    }
    let twice = base_href(&once, &http_base());
    assert_eq!(twice.children.len(), 2);
}

// Scheme gating: file:// never inserts a <base>; http(s) does when none is
// there yet.
#[test]
fn base_scheme_gating() {
    let head = elem("head", vec![], vec![]);
    let from_file = base_href(&head, &file_base());
    assert_eq!(from_file.children.len(), 0);

    let from_http = base_href(&head, &http_base());
    assert_eq!(from_http.children.len(), 1);
}

// A handler on a matched node lacking its attribute aborts the run.
#[test]
fn missing_attribute_is_fatal() {
    let doc = Node::Element(elem(
        "link",
        vec![attr("rel", "icon")],
        vec![],
    ));
    let rs = Resources::new();
    let out = run(&doc, &rs, &file_base(), &no_opts());
    match out {
        Err(e) => assert_eq!(e, FetchError::ContractViolation),
        Ok(_) => panic!("a missing attribute must abort the run"),
    }
}

// The pending list: unique, only unresolved references, growing as imports
// surface new ones.
#[test]
fn pending_rounds() {
    let doc = Node::Element(elem(
        "style",
        vec![],
        vec![Node::Text(b"@import 'a.css';".to_vec())],
    ));
    let opts = Options { js: false, css: true, img: false };
    let rs0 = Resources::new();
    let p1 = inliner::pipeline::pending_refs(&doc, &rs0, &opts);
    assert_eq!(p1, vec![b"a.css".to_vec()]);

    let mut rs1 = Resources::new();
    rs1.insert(b"a.css".to_vec(), fetched("text/css", b".x{background:url(pic.png)}"));
    let p2 = inliner::pipeline::pending_refs(&doc, &rs1, &opts);
    assert_eq!(p2, vec![b"pic.png".to_vec()]);

    let mut rs2 = Resources::new();
    rs2.insert(b"a.css".to_vec(), fetched("text/css", b".x{background:url(pic.png)}"));
    rs2.insert(b"pic.png".to_vec(), fetched("image/png", PNG));
    let p3 = inliner::pipeline::pending_refs(&doc, &rs2, &opts);
    assert!(p3.is_empty());
}
