use inliner::encode::{load_string, make_data_uri};
use inliner::errors::{check_scheme, check_status, FetchError};
use inliner::mime::{guess_mime, guess_mime_by_ext, resource_mime};
use inliner::resources::{Outcome, Resources};

fn mime_of(data: &[u8]) -> Option<String> {
    guess_mime(data).map(|v| String::from_utf8(v).unwrap())
}

#[test]
fn magic_signatures() {
    assert_eq!(mime_of(b"GIF87a..."), Some("image/gif".to_string()));
    assert_eq!(mime_of(b"GIF89a..."), Some("image/gif".to_string()));
    assert_eq!(
        mime_of(&[0x89, 0x50, 0x4e, 0x47, 0x0d, 0x0a, 0x1a, 0x0a, 0x00]),
        Some("image/png".to_string())
    );
    assert_eq!(mime_of(&[0x00, 0x00, 0x01, 0x00, 0x10]), Some("image/x-icon".to_string()));
    assert_eq!(mime_of(&[0xff, 0xd8, 0xff, 0xe0]), Some("image/jpeg".to_string()));
    assert_eq!(mime_of(&[0x42, 0x4d, 0x00]), Some("image/bmp".to_string()));
    assert_eq!(mime_of(&[0x49, 0x49, 0x2a, 0x00, 0x01]), Some("image/tiff".to_string()));
    assert_eq!(mime_of(&[0x4d, 0x4d, 0x00, 0x2a, 0x01]), Some("image/tiff".to_string()));
    assert_eq!(mime_of(b"plain text"), None);
    assert_eq!(mime_of(b""), None);
}

#[test]
fn font_extension_overrides() {
    assert_eq!(guess_mime_by_ext(b"ttf"), b"font/ttf".to_vec());
    assert_eq!(guess_mime_by_ext(b"otf"), b"font/otf".to_vec());
    assert_eq!(guess_mime_by_ext(b"woff"), b"font/woff".to_vec());
    assert_eq!(guess_mime_by_ext(b"woff2"), b"font/woff2".to_vec());
}

#[test]
fn extension_table_guess() {
    assert_eq!(guess_mime_by_ext(b"css"), b"text/css".to_vec());
    assert_eq!(guess_mime_by_ext(b"zzzyq"), b"application/octet-stream".to_vec());
}

#[test]
fn mime_decision_order() {
    // a server-declared content type wins over everything
    assert_eq!(
        resource_mime(Some(b"text/html".to_vec()), b"GIF89a..", Some(b"png".to_vec())),
        b"text/html".to_vec()
    );
    // magic bytes beat the extension
    assert_eq!(
        resource_mime(None, b"GIF89a..", Some(b"png".to_vec())),
        b"image/gif".to_vec()
    );
    // the extension is used when nothing else matches
    assert_eq!(
        resource_mime(None, b"no magic here", Some(b"css".to_vec())),
        b"text/css".to_vec()
    );
    // and the default closes the chain
    assert_eq!(resource_mime(None, b"no magic here", None), b"application/octet-stream".to_vec());
}

#[test]
fn scheme_gate() {
    assert!(check_scheme(b"file").is_ok());
    assert!(check_scheme(b"http").is_ok());
    assert!(check_scheme(b"https").is_ok());
    assert_eq!(check_scheme(b"ftp").unwrap_err(), FetchError::UnsupportedScheme);
    assert_eq!(check_scheme(b"data").unwrap_err(), FetchError::UnsupportedScheme);
}

#[test]
fn status_gate() {
    assert!(check_status(200).is_ok());
    assert_eq!(check_status(404).unwrap_err(), FetchError::HttpStatusError(404));
    assert_eq!(check_status(301).unwrap_err(), FetchError::HttpStatusError(301));
}

#[test]
fn load_string_decodes() {
    let ok = Outcome::Fetched {
        mime: b"text/css".to_vec(),
        bytes: b"p{color:red}".to_vec(),
    };
    assert_eq!(load_string(&ok).unwrap(), "p{color:red}".to_string());

    let binary = Outcome::Fetched {
        mime: b"application/octet-stream".to_vec(),
        bytes: vec![0xff, 0xfe, 0x80],
    };
    assert_eq!(load_string(&binary).unwrap_err(), FetchError::DecodeError);

    let failed = Outcome::Failed(FetchError::NetworkError);
    assert_eq!(load_string(&failed).unwrap_err(), FetchError::NetworkError);
}

#[test]
fn data_uri_replacement() {
    let mut rs = Resources::new();
    let bytes: &[u8] = &[0x42, 0x4d, 7, 8, 9];
    rs.insert(
        b"pic.bmp".to_vec(),
        Outcome::Fetched { mime: b"image/bmp".to_vec(), bytes: bytes.to_vec() },
    );

    let mut url = b"pic.bmp".to_vec();
    make_data_uri(&mut url, &rs);
    assert_eq!(
        String::from_utf8(url).unwrap(),
        format!("data:image/bmp;base64,{}", base64::encode(bytes))
    );

    let mut missing = b"other.bmp".to_vec();
    make_data_uri(&mut missing, &rs);
    assert_eq!(missing, b"other.bmp".to_vec());
}

#[test]
fn error_texts() {
    assert_eq!(FetchError::UnsupportedScheme.as_text(), "not supported URL scheme");
    assert_eq!(FetchError::HttpStatusError(500).as_text(), "bad response status code");
}

// The first outcome recorded for a reference is the one that counts.
#[test]
fn first_fetch_wins() {
    let mut rs = Resources::new();
    rs.insert(
        b"a.css".to_vec(),
        Outcome::Fetched { mime: b"text/css".to_vec(), bytes: b"one".to_vec() },
    );
    rs.insert(
        b"a.css".to_vec(),
        Outcome::Fetched { mime: b"text/css".to_vec(), bytes: b"two".to_vec() },
    );
    match rs.get(b"a.css") {
        Some(Outcome::Fetched { bytes, .. }) => assert_eq!(bytes, &b"one".to_vec()),
        _ => panic!("the reference must be found"),
    }
}
