//! Admin handler that streams a ZIP archive of every object under a prefix.
//!
//! A call is a chain of steps. Each step says what to check or to look up, and takes the outcome;
//! [`DownloadZipHandler::call`] gives the first one.

use vstd::prelude::*;
use vstd::string::*;

use crate::error::{S3Error, S3ErrorCode};
#[allow(unused_imports)]
use crate::error::S3ErrorView;
use crate::query::DownloadZipQuery;
#[allow(unused_imports)]
use crate::query::{
    law_when_a_query_is_accepted, query_of, request_pairs, DownloadZipQueryView,
};
#[allow(unused_imports)]
use crate::text::{optional_string, optional_text};
#[allow(unused_imports)]
use crate::response::archive_headers;
use crate::response::{response_headers, Header};

verus! {

/// How many bytes of the archive may wait for the client.
const PIPE_CAPACITY: usize = 262144;

/// The status of a response that carries an archive.
const STATUS_OK: u16 = 200;

/// What the caller must be allowed to do.
#[derive(Debug, Clone, Copy, PartialEq, Eq, Structural)]
pub enum Permission {
    /// `s3:ListBucket`
    ListBucket,
    /// `s3:GetObject`
    GetObject,
}

/// A request to check what the caller may do.
#[derive(Debug, PartialEq, Eq)]
pub struct AccessRequest {
    /// The permissions to check.
    pub permissions: Vec<Permission>,
    pub bucket: String,
    /// The prefix of the objects; nothing for the bucket itself.
    pub prefix: Option<String>,
    /// Whether it is enough that no policy denies.
    pub deny_only: bool,
    /// The address that the request came from, where the check is to know it.
    pub remote_addr: Option<String>,
}

/// What an [`AccessRequest`] asks for.
pub struct AccessRequestView {
    pub permissions: Seq<Permission>,
    pub bucket: Seq<char>,
    pub prefix: Option<Seq<char>>,
    pub deny_only: bool,
    pub remote_addr: Option<Seq<char>>,
}

impl View for AccessRequest {
    type V = AccessRequestView;

    open spec fn view(&self) -> AccessRequestView {
        AccessRequestView {
            permissions: self.permissions@,
            bucket: self.bucket@,
            prefix: optional_string(self.prefix),
            deny_only: self.deny_only,
            remote_addr: optional_string(self.remote_addr),
        }
    }
}

/// The check of the bucket: its objects may be listed.
pub open spec fn bucket_access(query: DownloadZipQueryView) -> AccessRequestView {
    AccessRequestView {
        permissions: seq![Permission::ListBucket],
        bucket: query.bucket,
        prefix: None,
        deny_only: false,
        remote_addr: None,
    }
}

/// The check of the objects: those of the bucket under the prefix may be read.
pub open spec fn objects_access(query: DownloadZipQueryView) -> AccessRequestView {
    AccessRequestView {
        permissions: seq![Permission::GetObject],
        bucket: query.bucket,
        prefix: Some(query.prefix),
        deny_only: false,
        remote_addr: None,
    }
}

/// The key to check, and the query of the request.
pub struct KeyView {
    pub access_key: Seq<char>,
    pub session_token: Seq<char>,
    pub query: Option<Seq<char>>,
}

/// A response that carries an archive.
pub struct ResponseView {
    pub query: DownloadZipQueryView,
    pub status: u16,
    pub headers: Seq<(Seq<char>, Seq<u8>)>,
}

/// What a call does next. `E` is the error of a check.
pub enum CallView<E> {
    CheckKey(KeyView),
    CheckBucket(DownloadZipQueryView),
    CheckObjects(DownloadZipQueryView),
    FindStore(DownloadZipQueryView),
    Respond(ResponseView),
    Reject(S3ErrorView),
    Forward(E),
}

/// What a step is answered.
pub enum CallReply<E> {
    /// The check passed, or the store is there.
    Passed,
    /// The check failed with this error.
    Refused(E),
    /// There is no store.
    Missing,
}

/// What the request holds that a call begins with.
pub struct RequestView {
    pub access_key: Option<Seq<char>>,
    pub session_token: Option<Seq<char>>,
    pub query: Option<Seq<char>>,
}

/// What a call begins with. A request without a session token has an empty one.
pub open spec fn first<E>(request: RequestView) -> CallView<E> {
    match request.access_key {
        Some(access_key) => CallView::CheckKey(
            KeyView {
                access_key,
                session_token: match request.session_token {
                    Some(token) => token,
                    None => Seq::empty(),
                },
                query: request.query,
            },
        ),
        None => CallView::Reject(
            S3ErrorView {
                code: S3ErrorCode::InvalidRequest,
                message: "authentication required"@,
            },
        ),
    }
}

/// What follows once the query is read.
pub open spec fn after_query<E>(parsed: Result<DownloadZipQueryView, S3ErrorView>) -> CallView<E> {
    match parsed {
        Ok(query) => CallView::CheckBucket(query),
        Err(error) => CallView::Reject(error),
    }
}

/// What follows a step and its answer. The error of a check that failed is the answer to the
/// request. A call that is over stays as it is, and so does one that gets an answer to another step.
pub open spec fn next<E>(step: CallView<E>, reply: CallReply<E>) -> CallView<E> {
    match (step, reply) {
        (CallView::CheckKey(key), CallReply::Passed) => after_query(
            query_of(request_pairs(key.query)),
        ),
        (CallView::CheckBucket(query), CallReply::Passed) => CallView::CheckObjects(query),
        (CallView::CheckObjects(query), CallReply::Passed) => CallView::FindStore(query),
        (CallView::FindStore(query), CallReply::Passed) => CallView::Respond(
            ResponseView { query, status: 200, headers: archive_headers(query.prefix) },
        ),
        (CallView::CheckKey(_), CallReply::Refused(error)) => CallView::Forward(error),
        (CallView::CheckBucket(_), CallReply::Refused(error)) => CallView::Forward(error),
        (CallView::CheckObjects(_), CallReply::Refused(error)) => CallView::Forward(error),
        (CallView::FindStore(_), CallReply::Missing) => CallView::Reject(
            S3ErrorView {
                code: S3ErrorCode::InternalError,
                message: "storage not initialized"@,
            },
        ),
        _ => step,
    }
}

/// A step of a call. `E` is the error of a check.
pub enum CallStep<E> {
    /// Check the access key.
    CheckKey(KeyCheck),
    /// Check that the bucket may be listed.
    CheckBucket(BucketCheck),
    /// Check that the objects may be read.
    CheckObjects(ObjectsCheck),
    /// Look for the object store.
    FindStore(StoreLookup),
    /// Produce the archive and answer with it.
    Respond(ArchiveResponse),
    /// Answer with this error.
    Reject(S3Error),
    /// Answer with this error, that of the check that failed.
    Forward(E),
}

impl<E> View for CallStep<E> {
    type V = CallView<E>;

    open spec fn view(&self) -> CallView<E> {
        match *self {
            CallStep::CheckKey(step) => CallView::CheckKey(step@),
            CallStep::CheckBucket(step) => CallView::CheckBucket(step@),
            CallStep::CheckObjects(step) => CallView::CheckObjects(step@),
            CallStep::FindStore(step) => CallView::FindStore(step@),
            CallStep::Respond(step) => CallView::Respond(step@),
            CallStep::Reject(error) => CallView::Reject(error@),
            CallStep::Forward(error) => CallView::Forward(error),
        }
    }
}

/// Handles requests to download a prefix as a ZIP archive.
pub struct DownloadZipHandler;

impl DownloadZipHandler {
    /// Begins a call: `access_key` is that of the request's credentials, `session_token` the token
    /// that it carries, `query` the query of its URI.
    pub fn call<E>(
        &self,
        access_key: Option<&str>,
        session_token: Option<&str>,
        query: Option<&str>,
    ) -> (step: CallStep<E>)
        ensures
            step@ == first::<E>(
                RequestView {
                    access_key: optional_text(access_key),
                    session_token: optional_text(session_token),
                    query: optional_text(query),
                },
            ),
            access_key is None ==> (step matches CallStep::Reject(error) && error.code
                == S3ErrorCode::InvalidRequest && error.message@ == "authentication required"@),
            access_key matches Some(key) ==> (step matches CallStep::CheckKey(check)
                && check@.access_key == key@ && check@.session_token == (match session_token {
                Some(token) => token@,
                None => Seq::empty(),
            }) && check@.query == (match query {
                Some(text) => Some(text@),
                None => None,
            })),
    {
        match access_key {
            Some(key) => {
                let session_token = match session_token {
                    Some(token) => token.to_owned(),
                    None => String::new(),
                };
                let query: Option<String> = match query {
                    Some(text) => Some(text.to_owned()),
                    None => None,
                };
                CallStep::CheckKey(KeyCheck { access_key: key.to_owned(), session_token, query })
            },
            None => CallStep::Reject(
                S3Error::new(S3ErrorCode::InvalidRequest, "authentication required"),
            ),
        }
    }
}

/// The next thing to do is to check the access key.
pub struct KeyCheck {
    access_key: String,
    session_token: String,
    query: Option<String>,
}

impl View for KeyCheck {
    type V = KeyView;

    closed spec fn view(&self) -> KeyView {
        KeyView {
            access_key: self.access_key@,
            session_token: self.session_token@,
            query: optional_string(self.query),
        }
    }
}

impl KeyCheck {
    /// The key to check.
    pub fn access_key(&self) -> (key: &str)
        ensures
            key@ == self@.access_key,
    {
        self.access_key.as_str()
    }

    /// The session token to check it with, empty if there is none.
    pub fn session_token(&self) -> (token: &str)
        ensures
            token@ == self@.session_token,
    {
        self.session_token.as_str()
    }

    /// The key is valid.
    pub fn passed<E>(self) -> (step: CallStep<E>)
        ensures
            step@ == next(CallView::CheckKey(self@), CallReply::<E>::Passed),
    {
        let parsed = match &self.query {
            Some(text) => DownloadZipQuery::from_uri(Some(text.as_str())),
            None => DownloadZipQuery::from_uri(None),
        };
        with_query(parsed)
    }

    /// The key is not valid: the check failed with `error`.
    pub fn failed<E>(self, error: E) -> (step: CallStep<E>)
        ensures
            step@ == next(CallView::CheckKey(self@), CallReply::Refused(error)),
            step == CallStep::Forward(error),
    {
        CallStep::Forward(error)
    }
}

/// Goes on with the query of the request, or answers with the error that refuses it.
pub fn with_query<E>(parsed: Result<DownloadZipQuery, S3Error>) -> (step: CallStep<E>)
    ensures
        step@ == after_query::<E>(
            match parsed {
                Ok(query) => Ok(query@),
                Err(error) => Err(error@),
            },
        ),
        parsed matches Ok(query) ==> (step matches CallStep::CheckBucket(check) && check@ == query@),
        parsed matches Err(error) ==> step == CallStep::<E>::Reject(error),
{
    match parsed {
        Ok(query) => CallStep::CheckBucket(BucketCheck { query }),
        Err(error) => CallStep::Reject(error),
    }
}

/// The next thing to do is to check that the bucket may be listed.
pub struct BucketCheck {
    query: DownloadZipQuery,
}

impl View for BucketCheck {
    type V = DownloadZipQueryView;

    closed spec fn view(&self) -> DownloadZipQueryView {
        self.query@
    }
}

impl BucketCheck {
    /// What to check.
    pub fn request(&self) -> (request: AccessRequest)
        ensures
            request@ == bucket_access(self@),
            request.permissions@ == seq![Permission::ListBucket],
            request.bucket@ == self@.bucket,
            request.prefix is None,
            !request.deny_only,
            request.remote_addr is None,
    {
        let permissions: Vec<Permission> = vec![Permission::ListBucket];
        assert(permissions@ =~= seq![Permission::ListBucket]);
        AccessRequest {
            permissions,
            bucket: self.query.bucket.clone(),
            prefix: None,
            deny_only: false,
            remote_addr: None,
        }
    }

    /// The bucket may be listed.
    pub fn passed<E>(self) -> (step: CallStep<E>)
        ensures
            step@ == next(CallView::CheckBucket(self@), CallReply::<E>::Passed),
            step matches CallStep::CheckObjects(check) && check@ == self@,
    {
        CallStep::CheckObjects(ObjectsCheck { query: self.query })
    }

    /// The bucket may not be listed: the check failed with `error`.
    pub fn failed<E>(self, error: E) -> (step: CallStep<E>)
        ensures
            step@ == next(CallView::CheckBucket(self@), CallReply::Refused(error)),
            step == CallStep::Forward(error),
    {
        CallStep::Forward(error)
    }
}

/// The next thing to do is to check that the objects may be read.
pub struct ObjectsCheck {
    query: DownloadZipQuery,
}

impl View for ObjectsCheck {
    type V = DownloadZipQueryView;

    closed spec fn view(&self) -> DownloadZipQueryView {
        self.query@
    }
}

impl ObjectsCheck {
    /// What to check.
    pub fn request(&self) -> (request: AccessRequest)
        ensures
            request@ == objects_access(self@),
            request.permissions@ == seq![Permission::GetObject],
            request.bucket@ == self@.bucket,
            request.prefix matches Some(prefix) && prefix@ == self@.prefix,
            !request.deny_only,
            request.remote_addr is None,
    {
        let permissions: Vec<Permission> = vec![Permission::GetObject];
        assert(permissions@ =~= seq![Permission::GetObject]);
        AccessRequest {
            permissions,
            bucket: self.query.bucket.clone(),
            prefix: Some(self.query.prefix.clone()),
            deny_only: false,
            remote_addr: None,
        }
    }

    /// The objects may be read.
    pub fn passed<E>(self) -> (step: CallStep<E>)
        ensures
            step@ == next(CallView::CheckObjects(self@), CallReply::<E>::Passed),
            step matches CallStep::FindStore(lookup) && lookup@ == self@,
    {
        CallStep::FindStore(StoreLookup { query: self.query })
    }

    /// The objects may not be read: the check failed with `error`.
    pub fn failed<E>(self, error: E) -> (step: CallStep<E>)
        ensures
            step@ == next(CallView::CheckObjects(self@), CallReply::Refused(error)),
            step == CallStep::Forward(error),
    {
        CallStep::Forward(error)
    }
}

/// The next thing to do is to look for the object store.
pub struct StoreLookup {
    query: DownloadZipQuery,
}

impl View for StoreLookup {
    type V = DownloadZipQueryView;

    closed spec fn view(&self) -> DownloadZipQueryView {
        self.query@
    }
}

impl StoreLookup {
    /// The store is there.
    pub fn found<E>(self) -> (step: CallStep<E>)
        ensures
            step@ == next(CallView::FindStore(self@), CallReply::<E>::Passed),
            step matches CallStep::Respond(response) && response@.query == self@
                && response@.headers == archive_headers(self@.prefix),
    {
        match response_headers(self.query.prefix.as_str()) {
            Ok(headers) => CallStep::Respond(ArchiveResponse { query: self.query, headers }),
            Err(error) => CallStep::Reject(error),
        }
    }

    /// There is no store.
    pub fn missing<E>(self) -> (step: CallStep<E>)
        ensures
            step@ == next(CallView::FindStore(self@), CallReply::<E>::Missing),
            step matches CallStep::Reject(error) && error.code == S3ErrorCode::InternalError
                && error.message@ == "storage not initialized"@,
    {
        CallStep::Reject(S3Error::new(S3ErrorCode::InternalError, "storage not initialized"))
    }
}

/// The last thing to do is to produce the archive and to answer with it.
pub struct ArchiveResponse {
    query: DownloadZipQuery,
    headers: Vec<Header>,
}

impl View for ArchiveResponse {
    type V = ResponseView;

    closed spec fn view(&self) -> ResponseView {
        ResponseView {
            query: self.query@,
            status: STATUS_OK,
            headers: self.headers@.map_values(|header: Header| header@),
        }
    }
}

impl ArchiveResponse {
    /// The status to answer with.
    pub fn status(&self) -> (status: u16)
        ensures
            status == 200,
            status == self@.status,
    {
        STATUS_OK
    }

    /// How many bytes of the archive may wait for the client.
    pub fn pipe_capacity(&self) -> (capacity: usize)
        ensures
            capacity == 256 * 1024,
    {
        PIPE_CAPACITY
    }

    /// What to archive, and the headers to answer with.
    pub fn into_parts(self) -> (parts: (DownloadZipQuery, Vec<Header>))
        ensures
            parts.0@ == self@.query,
            parts.1@.map_values(|header: Header| header@) == self@.headers,
    {
        (self.query, self.headers)
    }
}

/// A route of the admin API.
#[derive(Debug, PartialEq, Eq)]
pub struct Route {
    pub method: String,
    pub path: String,
}

/// The route that the download-zip handler is registered under, below the prefix of the admin API.
pub fn register_download_zip_route(admin_prefix: &str) -> (route: Route)
    ensures
        route.method@ == "GET"@,
        route.path@ == admin_prefix@ + "/v3/download-zip"@,
{
    let mut path = admin_prefix.to_owned();
    path.append("/v3/download-zip");
    Route { method: "GET".to_owned(), path }
}

/// Where a call stands after the replies.
pub open spec fn run<E>(request: RequestView, replies: Seq<CallReply<E>>) -> CallView<E>
    decreases replies.len(),
{
    if replies.len() == 0 {
        first(request)
    } else {
        next(run(request, replies.drop_last()), replies.last())
    }
}

/// The checks and the lookup that a call has passed, in turn.
pub open spec fn steps_passed<E>(request: RequestView, replies: Seq<CallReply<E>>) -> Seq<CallView<E>>
    decreases replies.len(),
{
    if replies.len() == 0 {
        Seq::empty()
    } else {
        let before = run(request, replies.drop_last());
        let passed = steps_passed(request, replies.drop_last());
        if replies.last() is Passed && (before is CheckKey || before is CheckBucket
            || before is CheckObjects || before is FindStore) {
            passed.push(before)
        } else {
            passed
        }
    }
}

/// What holds of a call at every point.
spec fn is_in_order<E>(request: RequestView, replies: Seq<CallReply<E>>) -> bool {
    let asked = query_of(request_pairs(request.query));
    let passed = steps_passed(request, replies);
    match run(request, replies) {
        CallView::CheckKey(key) => {
            &&& run(request, replies) == first::<E>(request)
            &&& passed == Seq::<CallView<E>>::empty()
        },
        CallView::CheckBucket(q) => {
            &&& request.access_key is Some
            &&& asked == Ok::<DownloadZipQueryView, S3ErrorView>(q)
            &&& passed == seq![first::<E>(request)]
        },
        CallView::CheckObjects(q) => {
            &&& request.access_key is Some
            &&& asked == Ok::<DownloadZipQueryView, S3ErrorView>(q)
            &&& passed == seq![first::<E>(request), CallView::CheckBucket(q)]
        },
        CallView::FindStore(q) => {
            &&& request.access_key is Some
            &&& asked == Ok::<DownloadZipQueryView, S3ErrorView>(q)
            &&& passed == seq![first::<E>(request), CallView::CheckBucket(q), CallView::CheckObjects(q)]
        },
        CallView::Respond(response) => {
            &&& request.access_key is Some
            &&& asked == Ok::<DownloadZipQueryView, S3ErrorView>(response.query)
            &&& response.status == 200
            &&& response.headers == archive_headers(response.query.prefix)
            &&& passed == seq![
                first::<E>(request),
                CallView::CheckBucket(response.query),
                CallView::CheckObjects(response.query),
                CallView::FindStore(response.query),
            ]
        },
        _ => true,
    }
}

proof fn lemma_is_in_order<E>(request: RequestView, replies: Seq<CallReply<E>>)
    ensures
        is_in_order(request, replies),
    decreases replies.len(),
{
    if replies.len() > 0 {
        let before = replies.drop_last();
        lemma_is_in_order(request, before);
        let passed = steps_passed(request, before);
        let step = run(request, before);
        assert(passed.len() == 0 ==> passed.push(step) =~= seq![step]);
        assert(passed.len() == 1 ==> passed.push(step) =~= seq![passed[0], step]);
        assert(passed.len() == 2 ==> passed.push(step) =~= seq![passed[0], passed[1], step]);
        assert(passed.len() == 3 ==> passed.push(step) =~= seq![
            passed[0],
            passed[1],
            passed[2],
            step,
        ]);
    }
}

/// An archive is answered only to a request with credentials, whose key is valid and whose query is
/// accepted, after the bucket may be listed, the objects may be read and the store is there, in this
/// order; and it is the archive that the query asks for.
pub proof fn law_an_archive_is_answered_only_after_every_check<E>(
    request: RequestView,
    replies: Seq<CallReply<E>>,
)
    requires
        run(request, replies) is Respond,
    ensures
        request.access_key is Some,
        query_of(request_pairs(request.query)) == Ok::<DownloadZipQueryView, S3ErrorView>(
            run(request, replies)->Respond_0.query,
        ),
        steps_passed(request, replies) == seq![
            first::<E>(request),
            CallView::CheckBucket(run(request, replies)->Respond_0.query),
            CallView::CheckObjects(run(request, replies)->Respond_0.query),
            CallView::FindStore(run(request, replies)->Respond_0.query),
        ],
        run(request, replies)->Respond_0.status == 200,
        run(request, replies)->Respond_0.headers == archive_headers(
            run(request, replies)->Respond_0.query.prefix,
        ),
        run(request, replies)->Respond_0.query.bucket.len() > 0,
{
    lemma_is_in_order(request, replies);
    law_when_a_query_is_accepted(request_pairs(request.query));
}

/// A request with credentials and an accepted query is answered with the archive once the four
/// steps have passed.
pub proof fn law_an_archive_is_answered_after_every_check<E>(
    request: RequestView,
    asked: DownloadZipQueryView,
)
    requires
        request.access_key is Some,
        query_of(request_pairs(request.query)) == Ok::<DownloadZipQueryView, S3ErrorView>(asked),
    ensures
        run(
            request,
            seq![
                CallReply::<E>::Passed,
                CallReply::Passed,
                CallReply::Passed,
                CallReply::Passed,
            ],
        ) == CallView::<E>::Respond(
            ResponseView { query: asked, status: 200, headers: archive_headers(asked.prefix) },
        ),
{
    let ok = CallReply::<E>::Passed;
    assert(seq![ok].drop_last() =~= Seq::empty());
    assert(seq![ok, ok].drop_last() =~= seq![ok]);
    assert(seq![ok, ok, ok].drop_last() =~= seq![ok, ok]);
    assert(seq![ok, ok, ok, ok].drop_last() =~= seq![ok, ok, ok]);
    assert(run(request, Seq::<CallReply<E>>::empty()) == first::<E>(request));
    assert(run(request, seq![ok]) == CallView::<E>::CheckBucket(asked));
    assert(run(request, seq![ok, ok]) == CallView::<E>::CheckObjects(asked));
    assert(run(request, seq![ok, ok, ok]) == CallView::<E>::FindStore(asked));
}

/// What is checked is what the request holds: its key with its session token, then that the caller
/// may list the bucket and read the objects that its query asks for.
pub proof fn law_the_checks_are_of_what_is_asked<E>(
    request: RequestView,
    replies: Seq<CallReply<E>>,
)
    ensures
        match run(request, replies) {
            CallView::CheckKey(key) => {
                &&& request.access_key == Some(key.access_key)
                &&& key.session_token == (match request.session_token {
                    Some(token) => token,
                    None => Seq::empty(),
                })
            },
            CallView::CheckBucket(q) => query_of(request_pairs(request.query)) matches Ok(asked)
                && bucket_access(q) == (AccessRequestView {
                permissions: seq![Permission::ListBucket],
                bucket: asked.bucket,
                prefix: None,
                deny_only: false,
                remote_addr: None,
            }),
            CallView::CheckObjects(q) => query_of(request_pairs(request.query)) matches Ok(asked)
                && objects_access(q) == (AccessRequestView {
                permissions: seq![Permission::GetObject],
                bucket: asked.bucket,
                prefix: Some(asked.prefix),
                deny_only: false,
                remote_addr: None,
            }),
            CallView::FindStore(q) => query_of(request_pairs(request.query)) == Ok::<
                DownloadZipQueryView,
                S3ErrorView,
            >(q),
            _ => true,
        },
{
    lemma_is_in_order(request, replies);
}

/// A request without credentials is answered `authentication required`, whatever else it holds.
pub proof fn law_a_request_without_credentials_is_rejected<E>(
    request: RequestView,
    replies: Seq<CallReply<E>>,
)
    requires
        request.access_key is None,
    ensures
        run(request, replies) == CallView::<E>::Reject(
            S3ErrorView {
                code: S3ErrorCode::InvalidRequest,
                message: "authentication required"@,
            },
        ),
    decreases replies.len(),
{
    if replies.len() > 0 {
        law_a_request_without_credentials_is_rejected(request, replies.drop_last());
    }
}

/// A key that is not valid is answered with the error of its check, whatever the query holds.
pub proof fn law_the_error_of_the_key_check_comes_first<E>(request: RequestView, error: E)
    requires
        request.access_key is Some,
    ensures
        run(request, seq![CallReply::Refused(error)]) == CallView::Forward(error),
{
    assert(seq![CallReply::Refused(error)].drop_last() =~= Seq::empty());
    assert(run(request, Seq::<CallReply<E>>::empty()) == first::<E>(request));
}

/// What a refused request is answered: the error of the check that failed, the error that refuses
/// its query, or `storage not initialized`.
pub proof fn law_what_a_refused_request_is_answered<E>(
    request: RequestView,
    replies: Seq<CallReply<E>>,
    error: E,
)
    ensures
        run(request, replies) is CheckKey || run(request, replies) is CheckBucket || run(
            request,
            replies,
        ) is CheckObjects ==> run(request, replies.push(CallReply::Refused(error)))
            == CallView::Forward(error),
        run(request, replies) is CheckKey ==> (query_of(request_pairs(request.query)) matches Err(
            refusal,
        ) ==> run(request, replies.push(CallReply::Passed)) == CallView::<E>::Reject(refusal)),
        run(request, replies) is FindStore ==> run(request, replies.push(CallReply::Missing))
            == CallView::<E>::Reject(
            S3ErrorView {
                code: S3ErrorCode::InternalError,
                message: "storage not initialized"@,
            },
        ),
{
    lemma_is_in_order(request, replies);
    assert(replies.push(CallReply::Refused(error)).drop_last() =~= replies);
    assert(replies.push(CallReply::Passed).drop_last() =~= replies);
    assert(replies.push(CallReply::Missing).drop_last() =~= replies);
}

/// A call that was answered stays answered: after a failed check there is no archive.
pub proof fn law_an_answer_is_final<E>(
    request: RequestView,
    replies: Seq<CallReply<E>>,
    more: Seq<CallReply<E>>,
)
    requires
        run(request, replies) is Respond || run(request, replies) is Reject || run(
            request,
            replies,
        ) is Forward,
    ensures
        run(request, replies + more) == run(request, replies),
    decreases more.len(),
{
    if more.len() > 0 {
        law_an_answer_is_final(request, replies, more.drop_last());
        assert((replies + more).drop_last() =~= replies + more.drop_last());
    } else {
        assert(replies + more =~= replies);
    }
}

/// Each check that passes leads to the next one, of the same query: the key, the bucket, the objects,
/// the store, the response with the headers of the prefix.
pub proof fn law_each_check_leads_to_the_next<E>(
    key: KeyView,
    query: DownloadZipQueryView,
    refusal: S3ErrorView,
)
    ensures
        query_of(request_pairs(key.query)) == Ok::<DownloadZipQueryView, S3ErrorView>(query) ==> next(
            CallView::CheckKey(key),
            CallReply::<E>::Passed,
        ) == CallView::<E>::CheckBucket(query),
        query_of(request_pairs(key.query)) == Err::<DownloadZipQueryView, S3ErrorView>(refusal)
            ==> next(CallView::CheckKey(key), CallReply::<E>::Passed) == CallView::<E>::Reject(
            refusal,
        ),
        next(CallView::CheckBucket(query), CallReply::<E>::Passed) == CallView::<E>::CheckObjects(
            query,
        ),
        next(CallView::CheckObjects(query), CallReply::<E>::Passed) == CallView::<E>::FindStore(
            query,
        ),
        next(CallView::FindStore(query), CallReply::<E>::Passed) is Respond,
        next(CallView::FindStore(query), CallReply::<E>::Passed)->Respond_0.query == query,
        next(CallView::FindStore(query), CallReply::<E>::Passed)->Respond_0.status == 200,
        next(CallView::FindStore(query), CallReply::<E>::Passed)->Respond_0.headers
            == archive_headers(query.prefix),
{
}

/// A call goes astray only by a refusal, a refused query or a missing store: a request with
/// credentials and an accepted query, to which neither comes, is never rejected or forwarded.
pub proof fn law_a_call_without_refusal_is_not_refused<E>(
    request: RequestView,
    replies: Seq<CallReply<E>>,
)
    requires
        request.access_key is Some,
        query_of(request_pairs(request.query)) is Ok,
        forall|i: int| 0 <= i < replies.len() ==> (#[trigger] replies[i]) is Passed,
    ensures
        !(run(request, replies) is Reject),
        !(run(request, replies) is Forward),
        replies.len() >= 4 ==> run(request, replies) is Respond,
        replies.len() == 3 ==> run(request, replies) is FindStore,
        replies.len() == 2 ==> run(request, replies) is CheckObjects,
        replies.len() == 1 ==> run(request, replies) is CheckBucket,
        replies.len() == 0 ==> run(request, replies) is CheckKey,
    decreases replies.len(),
{
    lemma_is_in_order(request, replies);
    if replies.len() > 0 {
        let before = replies.drop_last();
        assert(replies[replies.len() - 1] is Passed);
        assert forall|i: int| 0 <= i < before.len() implies (#[trigger] before[i]) is Passed by {
            assert(replies[i] is Passed);
        }
        law_a_call_without_refusal_is_not_refused(request, before);
        lemma_is_in_order(request, before);
    }
}

/// A step shows which step it is and, of an answer, the error.
pub proof fn law_a_call_step_shows_what_it_is<E>(step: CallStep<E>)
    ensures
        step matches CallStep::CheckKey(s) ==> step@ == CallView::<E>::CheckKey(s@),
        step matches CallStep::CheckBucket(s) ==> step@ == CallView::<E>::CheckBucket(s@),
        step matches CallStep::CheckObjects(s) ==> step@ == CallView::<E>::CheckObjects(s@),
        step matches CallStep::FindStore(s) ==> step@ == CallView::<E>::FindStore(s@),
        step matches CallStep::Respond(s) ==> step@ == CallView::<E>::Respond(s@),
        step matches CallStep::Reject(error) ==> step@ == CallView::<E>::Reject(error@),
        step matches CallStep::Forward(error) ==> step@ == CallView::Forward(error),
{
}

} // verus!
