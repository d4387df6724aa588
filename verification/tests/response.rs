use zip_download::error::S3ErrorCode;
use zip_download::response::{content_disposition, filename_header_value, response_headers};

#[test]
fn disposition_names_the_archive() {
    assert_eq!(content_disposition("a/b/c/"), "attachment; filename=\"c.zip\"");
    assert_eq!(content_disposition(""), "attachment; filename=\"download.zip\"");
    assert_eq!(content_disposition("we\"ird/"), "attachment; filename=\"weird.zip\"");
}

#[test]
fn disposition_has_one_pair_of_quotes() {
    for prefix in ["a\"; x=\"b/", "\\\"/", "p", ""] {
        let value = content_disposition(prefix);
        assert_eq!(value.matches('"').count(), 2);
        assert!(!value.contains('\\'));
        assert!(value.ends_with('"'));
    }
    assert_eq!(content_disposition("a\"; x=\"b/"), "attachment; filename=\"a; x=b.zip\"");
}

#[test]
fn headers_of_an_archive() {
    let headers = response_headers("p/").unwrap();
    let list: Vec<(&str, &[u8])> = headers.iter().map(|h| (h.name.as_str(), h.value.as_slice())).collect();
    assert_eq!(
        list,
        vec![
            ("content-type", "application/zip".as_bytes()),
            ("content-disposition", "attachment; filename=\"p.zip\"".as_bytes()),
            ("x-accel-buffering", "no".as_bytes()),
        ]
    );
}

#[test]
fn no_prefix_makes_an_invalid_header() {
    let mut every_control = String::new();
    for code in 0..0x100u32 {
        every_control.push(char::from_u32(code).unwrap());
    }
    for prefix in ["\r\n/", "a\u{7f}b", "\u{80}\u{9f}", "été/", "\u{10ffff}", every_control.as_str()] {
        let headers = response_headers(prefix).unwrap();
        assert_eq!(headers[1].value, content_disposition(prefix).into_bytes());
    }
}

#[test]
fn header_value_is_refused_for_control_bytes() {
    for text in ["a\nb", "\r", "\u{0}", "\u{7f}", "\u{1f}"] {
        let error = filename_header_value(text).unwrap_err();
        assert_eq!(error.code, S3ErrorCode::InternalError);
        assert_eq!(error.message, "invalid filename: failed to parse header value");
    }
}

#[test]
fn header_value_keeps_the_bytes_of_the_text() {
    for text in ["", "a b", "a\tb", "été", "\u{80}", "~"] {
        assert_eq!(filename_header_value(text).unwrap(), text.as_bytes().to_vec());
    }
}
