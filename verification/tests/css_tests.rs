use inliner::css::{find_imports, find_urls};
use inliner::encode::build_data_uri;
use inliner::resources::{Outcome, Resources};
use inliner::rewrite::{patch_import, patch_url, rewrite_css, unique_url_refs, wrap_media};

const CSS: &str = r#"
    @import url("fineprint.css") print;
    @import url("bluish.css") projection, tv;
    @import 'custom.css';
    @import url("chrome://communicator/skin/");
    @import "common.css" screen, projection;
    @import url('landscape.css') screen and (orientation:landscape);

    @font-face {
      font-family: header;
      src: url("chava.ttf") format("truetype");
    }

    @font-face {
        font-family: body;
        src: url("poiretone.ttf") format("truetype");
    }

    @media screen {
        .test {
            background:url("test.jpg") repeat-y;
        }
    }

    .grass {
        background-image:url(green.png);
    }

    .logo {
        background: center / contain no-repeat url("../../media/examples/firefox-logo.svg"),
                    #eee 35% url("../../media/examples/lizard.png");
    }
    "#;

#[test]
fn regex_import() {
    let expected = [
        ("fineprint.css", "print"),
        ("bluish.css", "projection, tv"),
        ("custom.css", ""),
        ("chrome://communicator/skin/", ""),
        ("common.css", "screen, projection"),
        ("landscape.css", "screen and (orientation:landscape)"),
    ];

    let found = find_imports(CSS.as_bytes());
    assert_eq!(found.len(), expected.len());
    for (i, m) in found.iter().enumerate() {
        let url = String::from_utf8(m.url.clone()).unwrap();
        let media = String::from_utf8(m.media.clone()).unwrap();
        assert_eq!(expected[i], (url.as_str(), media.as_str()));
    }
}

#[test]
fn regex_url() {
    let expected = [
        // URLs from @import directive
        "fineprint.css",
        "bluish.css",
        "chrome://communicator/skin/",
        "landscape.css",
        // from the rest of the CSS
        "chava.ttf",
        "poiretone.ttf",
        "test.jpg",
        "green.png",
        "../../media/examples/firefox-logo.svg",
        "../../media/examples/lizard.png",
    ];

    let found = find_urls(CSS.as_bytes());
    assert_eq!(found.len(), expected.len());
    for (i, m) in found.iter().enumerate() {
        let url = String::from_utf8(m.url.clone()).unwrap();
        assert_eq!(expected[i], url.as_str());
    }
}

fn table(entries: &[(&str, Option<(&str, &[u8])>)]) -> Resources {
    let mut rs = Resources::new();
    for (key, outcome) in entries {
        let o = match outcome {
            Some((mime, bytes)) => Outcome::Fetched {
                mime: mime.as_bytes().to_vec(),
                bytes: bytes.to_vec(),
            },
            None => Outcome::Failed(inliner::errors::FetchError::IoError),
        };
        rs.insert(key.as_bytes().to_vec(), o);
    }
    rs
}

// Determinism under dedup: one fetch per unique reference, every occurrence
// gets the identical replacement.
#[test]
fn dedup_same_replacement() {
    let css = b".a{background:url(\"pic.png\")} .b{background:url(pic.png)} .c{background:url('pic.png')}";
    let refs = unique_url_refs(css);
    assert_eq!(refs.len(), 1);
    assert_eq!(refs[0], b"pic.png".to_vec());

    let png: &[u8] = &[0x89, 0x50, 0x4e, 0x47, 0x0d, 0x0a, 0x1a, 0x0a, 1, 2, 3];
    let rs = table(&[("pic.png", Some(("image/png", png)))]);
    let out = String::from_utf8(patch_url(css, &rs)).unwrap();
    let uri = String::from_utf8(build_data_uri(b"image/png", png)).unwrap();
    let expected = format!(
        ".a{{background:url({u})}} .b{{background:url({u})}} .c{{background:url({u})}}",
        u = uri
    );
    assert_eq!(out, expected);
    assert_eq!(uri, format!("data:image/png;base64,{}", base64::encode(png)));
}

// Soft-failure preservation: an unresolvable reference keeps its text.
#[test]
fn soft_failure_keeps_text() {
    let css = b"@import \"gone.css\";\n.x{background:url(gone.png)}";
    let rs = table(&[("gone.css", None), ("gone.png", None)]);
    let out = String::from_utf8(rewrite_css(css, &rs)).unwrap();
    assert_eq!(out, "@import \"gone.css\";\n.x{background:url(gone.png)}");
}

// Import-then-url ordering: a url() inside an @imported stylesheet is
// resolved to a data URI in the final output.
#[test]
fn import_then_url() {
    let css = b"@import \"a.css\";";
    let gif: &[u8] = &[0x47, 0x49, 0x46, 0x38, 0x39, 0x61, 9, 9];
    let rs = table(&[
        ("a.css", Some(("text/css", b".y{background:url(inner.gif)}"))),
        ("inner.gif", Some(("image/gif", gif))),
    ]);
    let out = String::from_utf8(rewrite_css(css, &rs)).unwrap();
    let uri = format!("data:image/gif;base64,{}", base64::encode(gif));
    assert_eq!(out, format!(".y{{background:url({})}}", uri));
}

// Media-query wrapping: the media text is preserved verbatim inside an
// @media block; absent media text yields no wrapper.
#[test]
fn media_query_wrapping() {
    let css = b"@import url(\"a.css\") print;";
    let rs = table(&[("a.css", Some(("text/css", b"p{color:red}")))]);
    let out = String::from_utf8(patch_import(css, &rs)).unwrap();
    assert_eq!(out, "@media print {\np{color:red}\n}");

    let bare = b"@import url(\"a.css\");";
    let out2 = String::from_utf8(patch_import(bare, &rs)).unwrap();
    assert_eq!(out2, "p{color:red}");

    let wrapped = wrap_media(b"print", b"p{color:red}");
    assert_eq!(wrapped, b"@media print {\np{color:red}\n}".to_vec());
}

// A reference in both an @import and a plain url() is handled by each pass
// on its own.
#[test]
fn url_of_failed_import_stays() {
    let css = b"@import \"dead.css\" print;";
    let rs = table(&[("dead.css", None)]);
    let out = String::from_utf8(patch_import(css, &rs)).unwrap();
    assert_eq!(out, "@import \"dead.css\" print;");
}

// Non-UTF-8 content fails only that import.
#[test]
fn binary_import_left_alone() {
    let css = b"@import \"bin.css\";\n@import \"ok.css\";";
    let bad: &[u8] = &[0xff, 0xfe, 0x00, 0x80];
    let rs = table(&[
        ("bin.css", Some(("text/css", bad))),
        ("ok.css", Some(("text/css", b"q{left:0}"))),
    ]);
    let out = String::from_utf8(patch_import(css, &rs)).unwrap();
    assert_eq!(out, "@import \"bin.css\";\nq{left:0}");
}

// Empty text: nothing matches, nothing changes.
#[test]
fn empty_css() {
    assert!(find_urls(b"").is_empty());
    assert!(find_imports(b"").is_empty());
    let rs = Resources::new();
    assert!(patch_url(b"", &rs).is_empty());
    assert_eq!(patch_import(b"body{}", &rs), b"body{}".to_vec());
}

// An empty url() is not a reference.
#[test]
fn empty_url_no_match() {
    assert!(find_urls(b".x{background:url()}").is_empty());
    assert!(find_urls(b".x{background:url(\"\")}").is_empty());
}

// A quoted reference that fails keeps its text; the quotes around it are
// normalized away, as every rewritten occurrence is.
#[test]
fn failed_quoted_url_keeps_reference() {
    let rs = table(&[("gone.png", None)]);
    let out = String::from_utf8(patch_url(b"url(\"gone.png\")", &rs)).unwrap();
    assert_eq!(out, "url(gone.png)");
}
