use zip_download::error::{S3Error, S3ErrorCode};
use zip_download::handler::{
    register_download_zip_route, with_query, AccessRequest, CallStep, DownloadZipHandler, Permission,
};
use zip_download::query::DownloadZipQuery;
use zip_download::zip_stream::ZipStreamMethod;

type Step = CallStep<u32>;

fn start(query: &str) -> Step {
    DownloadZipHandler.call(Some("key"), Some("token"), Some(query))
}

fn pass(step: Step) -> Step {
    match step {
        CallStep::CheckKey(step) => step.passed(),
        CallStep::CheckBucket(step) => step.passed(),
        CallStep::CheckObjects(step) => step.passed(),
        CallStep::FindStore(step) => step.found(),
        other => other,
    }
}

fn rejected(step: Step) -> S3Error {
    match step {
        CallStep::Reject(error) => error,
        _ => panic!("the call is not rejected"),
    }
}

#[test]
fn request_without_credentials_is_rejected() {
    let error = rejected(DownloadZipHandler.call(None, Some("token"), Some("bucket=b")));
    assert_eq!(error.code, S3ErrorCode::InvalidRequest);
    assert_eq!(error.message, "authentication required");
}

#[test]
fn call_checks_everything_before_it_answers() {
    let step = start("bucket=b&prefix=x/p/&compression=deflate");
    let CallStep::CheckKey(step) = step else { panic!("no key check") };
    assert_eq!((step.access_key(), step.session_token()), ("key", "token"));
    let CallStep::CheckBucket(step) = step.passed::<u32>() else { panic!("no bucket check") };
    assert_eq!(
        step.request(),
        AccessRequest {
            permissions: vec![Permission::ListBucket],
            bucket: "b".to_string(),
            prefix: None,
            deny_only: false,
            remote_addr: None,
        }
    );
    let CallStep::CheckObjects(step) = step.passed::<u32>() else { panic!("no objects check") };
    assert_eq!(
        step.request(),
        AccessRequest {
            permissions: vec![Permission::GetObject],
            bucket: "b".to_string(),
            prefix: Some("x/p/".to_string()),
            deny_only: false,
            remote_addr: None,
        }
    );
    let CallStep::FindStore(step) = step.passed::<u32>() else { panic!("no store lookup") };
    let CallStep::Respond(response) = step.found::<u32>() else { panic!("no response") };
    assert_eq!(response.status(), 200);
    assert_eq!(response.pipe_capacity(), 256 * 1024);
    let (query, headers) = response.into_parts();
    assert_eq!((query.bucket.as_str(), query.prefix.as_str()), ("b", "x/p/"));
    assert_eq!(query.method, ZipStreamMethod::Deflate);
    assert_eq!(headers.len(), 3);
    assert_eq!(headers[1].value, b"attachment; filename=\"p.zip\"".to_vec());
}

#[test]
fn failed_checks_are_forwarded() {
    for query in ["bucket=b", "compression=x", ""] {
        let CallStep::CheckKey(step) = start(query) else { panic!("no key check") };
        assert!(matches!(step.failed(1), CallStep::Forward(1)));
    }
    let CallStep::CheckBucket(step) = pass(start("bucket=b")) else { panic!("no bucket check") };
    assert!(matches!(step.failed(2), CallStep::Forward(2)));
    let CallStep::CheckObjects(step) = pass(pass(start("bucket=b"))) else { panic!("no objects check") };
    assert!(matches!(step.failed(3), CallStep::Forward(3)));
}

#[test]
fn missing_store_is_an_internal_error() {
    let CallStep::FindStore(step) = pass(pass(pass(start("bucket=b")))) else { panic!("no store lookup") };
    let error = rejected(step.missing());
    assert_eq!(error.code, S3ErrorCode::InternalError);
    assert_eq!(error.message, "storage not initialized");
}

#[test]
fn query_is_read_after_the_key_is_checked() {
    let CallStep::CheckKey(step) = DownloadZipHandler.call::<u32>(Some("key"), None, None) else { panic!("no key check") };
    assert_eq!(step.session_token(), "");
    let step = start("compression=x");
    assert!(matches!(step, CallStep::CheckKey(_)));
    assert_eq!(rejected(pass(step)).message, "unsupported compression: x");
    let step = DownloadZipHandler.call(Some("key"), None, None);
    assert_eq!(rejected(pass(step)).message, "bucket is required");
}

#[test]
fn refused_query_is_answered_with_its_error() {
    let error = S3Error::new(S3ErrorCode::InvalidArgument, "no");
    let error = rejected(with_query(Err(error)));
    assert_eq!((error.code, error.message.as_str()), (S3ErrorCode::InvalidArgument, "no"));
    let query = DownloadZipQuery { bucket: "b".to_string(), prefix: String::new(), method: ZipStreamMethod::Stored };
    assert!(matches!(with_query::<u32>(Ok(query)), CallStep::CheckBucket(_)));
}

#[test]
fn route_is_below_the_admin_prefix() {
    let route = register_download_zip_route("/rustfs/admin");
    assert_eq!(route.method, "GET");
    assert_eq!(route.path, "/rustfs/admin/v3/download-zip");
}
