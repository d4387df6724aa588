use zip_download::error::{S3Error, S3ErrorCode};
use zip_download::query::{parse_method, DownloadZipQuery};
use zip_download::zip_stream::ZipStreamMethod;

fn pairs(list: &[(&str, &str)]) -> Vec<(String, String)> {
    list.iter().map(|(k, v)| (k.to_string(), v.to_string())).collect()
}

fn invalid_argument(message: &str) -> S3Error {
    S3Error { code: S3ErrorCode::InvalidArgument, message: message.to_string() }
}

#[test]
fn query_is_decoded() {
    let query = DownloadZipQuery::from_uri(Some("bucket=my%20bucket&prefix=a%2Fb+c%2F&compression=deflate")).unwrap();
    assert_eq!(query.bucket, "my bucket");
    assert_eq!(query.prefix, "a/b c/");
    assert_eq!(query.method, ZipStreamMethod::Deflate);
}

#[test]
fn query_defaults() {
    let query = DownloadZipQuery::from_uri(Some("bucket=b")).unwrap();
    assert_eq!(query.prefix, "");
    assert_eq!(query.method, ZipStreamMethod::Stored);
}

#[test]
fn query_without_bucket_is_refused() {
    let missing = invalid_argument("bucket is required");
    assert_eq!(DownloadZipQuery::from_uri(None).unwrap_err(), missing);
    assert_eq!(DownloadZipQuery::from_uri(Some("")).unwrap_err(), missing);
    assert_eq!(DownloadZipQuery::from_uri(Some("prefix=p")).unwrap_err(), missing);
    assert_eq!(DownloadZipQuery::from_uri(Some("bucket=")).unwrap_err(), missing);
}

#[test]
fn query_with_another_compression_is_refused() {
    assert_eq!(
        DownloadZipQuery::from_uri(Some("bucket=b&compression=zstd")).unwrap_err(),
        invalid_argument("unsupported compression: zstd")
    );
    assert_eq!(
        DownloadZipQuery::from_uri(Some("compression=Deflate")).unwrap_err(),
        invalid_argument("unsupported compression: Deflate")
    );
}

#[test]
fn first_unsupported_compression_is_named() {
    let list = pairs(&[("compression", "x"), ("compression", "y"), ("compression", "stored"), ("bucket", "b")]);
    assert_eq!(DownloadZipQuery::from_pairs(&list).unwrap_err(), invalid_argument("unsupported compression: x"));
}

#[test]
fn last_pair_of_a_name_decides() {
    let list = pairs(&[
        ("bucket", "a"),
        ("compression", "deflate"),
        ("prefix", "p"),
        ("bucket", "b"),
        ("prefix", "q"),
        ("compression", ""),
    ]);
    let query = DownloadZipQuery::from_pairs(&list).unwrap();
    assert_eq!((query.bucket.as_str(), query.prefix.as_str(), query.method), ("b", "q", ZipStreamMethod::Stored));
    let emptied = pairs(&[("bucket", "a"), ("bucket", "")]);
    assert_eq!(DownloadZipQuery::from_pairs(&emptied).unwrap_err(), invalid_argument("bucket is required"));
}

#[test]
fn other_names_are_ignored() {
    let query = DownloadZipQuery::from_uri(Some("x=1&bucket=b&Bucket=c&y")).unwrap();
    assert_eq!(query.bucket, "b");
}

#[test]
fn compression_values() {
    assert_eq!(parse_method("deflate"), Some(ZipStreamMethod::Deflate));
    assert_eq!(parse_method("stored"), Some(ZipStreamMethod::Stored));
    assert_eq!(parse_method(""), Some(ZipStreamMethod::Stored));
    assert_eq!(parse_method("store"), None);
}
