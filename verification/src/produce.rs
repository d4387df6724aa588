//! Producing the archive: which objects of the store go into it, in which order, under which names.
//!
//! A run is a chain of steps. Each step says what to ask of the store or of the archive writer, and
//! takes the answer; [`produce_zip`] gives the first one.

use vstd::prelude::*;
use vstd::string::*;

#[allow(unused_imports)]
use crate::names::entry_name;
use crate::names::entry_name_for;
use crate::query::DownloadZipQuery;
#[allow(unused_imports)]
use crate::query::DownloadZipQueryView;
#[allow(unused_imports)]
use crate::text::optional_string;
#[allow(unused_imports)]
use crate::zip_stream::{
    chunks_read, law_entry_holds_what_was_read, run_add, AddReply, ArchiveEntry,
};
use crate::response::Header;
use crate::zip_stream::ZipStreamMethod;

verus! {

/// How many objects to ask for in one page of a listing.
const PAGE_SIZE: i32 = 1000;

/// An object of a listing.
#[derive(Debug)]
pub struct ObjectInfo {
    pub name: String,
    pub is_dir: bool,
}

/// What an [`ObjectInfo`] says.
pub struct ObjectView {
    pub name: Seq<char>,
    pub is_dir: bool,
}

impl View for ObjectInfo {
    type V = ObjectView;

    open spec fn view(&self) -> ObjectView {
        ObjectView { name: self.name@, is_dir: self.is_dir }
    }
}

/// A page of a listing.
#[derive(Debug)]
pub struct ObjectPage {
    pub objects: Vec<ObjectInfo>,
    pub is_truncated: bool,
    pub next_continuation_token: Option<String>,
}

/// What an [`ObjectPage`] says.
pub struct PageView {
    pub objects: Seq<ObjectView>,
    pub is_truncated: bool,
    pub next: Option<Seq<char>>,
}

impl View for ObjectPage {
    type V = PageView;

    open spec fn view(&self) -> PageView {
        PageView {
            objects: self.objects@.map_values(|object: ObjectInfo| object@),
            is_truncated: self.is_truncated,
            next: optional_string(self.next_continuation_token),
        }
    }
}

/// A page to ask for.
pub struct ListingView {
    pub query: DownloadZipQueryView,
    pub continuation: Option<Seq<char>>,
}

/// A request to list a page of objects.
#[derive(Debug, PartialEq, Eq)]
pub struct ListRequest {
    pub bucket: String,
    pub prefix: String,
    /// Where to go on; nothing for the first page.
    pub continuation: Option<String>,
    /// Where to fold keys; nothing lists objects of all depths.
    pub delimiter: Option<String>,
    pub max_keys: i32,
    pub fetch_owner: bool,
    pub start_after: Option<String>,
    pub include_deleted: bool,
}

/// What a [`ListRequest`] asks for.
pub struct ListRequestView {
    pub bucket: Seq<char>,
    pub prefix: Seq<char>,
    pub continuation: Option<Seq<char>>,
    pub delimiter: Option<Seq<char>>,
    pub max_keys: i32,
    pub fetch_owner: bool,
    pub start_after: Option<Seq<char>>,
    pub include_deleted: bool,
}

impl View for ListRequest {
    type V = ListRequestView;

    open spec fn view(&self) -> ListRequestView {
        ListRequestView {
            bucket: self.bucket@,
            prefix: self.prefix@,
            continuation: optional_string(self.continuation),
            delimiter: optional_string(self.delimiter),
            max_keys: self.max_keys,
            fetch_owner: self.fetch_owner,
            start_after: optional_string(self.start_after),
            include_deleted: self.include_deleted,
        }
    }
}

/// The request for a page: objects of all depths under the prefix as it was given, 1000 at a time,
/// from the continuation on, without owners and without deleted objects.
pub open spec fn list_request(at: ListingView) -> ListRequestView {
    ListRequestView {
        bucket: at.query.bucket,
        prefix: at.query.prefix,
        continuation: at.continuation,
        delimiter: None,
        max_keys: 1000,
        fetch_owner: false,
        start_after: None,
        include_deleted: false,
    }
}

/// An object of a page that was listed.
pub struct AtObject {
    pub query: DownloadZipQueryView,
    pub page: PageView,
    pub index: int,
}

impl AtObject {
    /// The key of the object.
    pub open spec fn key(self) -> Seq<char> {
        self.page.objects[self.index].name
    }

    /// The name of the object's entry.
    pub open spec fn name(self) -> Seq<char> {
        entry_name(self.query.prefix, self.key())
    }
}

/// A range of the bytes of an object: the first and the last one.
#[derive(Debug, Clone, Copy, PartialEq, Eq, Structural)]
pub struct ByteRange {
    pub start: u64,
    pub end: u64,
}

/// The options of a read.
#[derive(Debug, Clone, Copy, PartialEq, Eq, Structural)]
pub enum ReadOptions {
    /// The defaults of the store.
    Default,
}

/// A request to read an object.
#[derive(Debug, PartialEq, Eq)]
pub struct ReadRequest {
    pub bucket: String,
    pub key: String,
    /// The bytes to read; nothing reads the whole object.
    pub range: Option<ByteRange>,
    pub headers: Vec<Header>,
    pub options: ReadOptions,
}

/// What a [`ReadRequest`] asks for.
pub struct ReadRequestView {
    pub bucket: Seq<char>,
    pub key: Seq<char>,
    pub range: Option<ByteRange>,
    pub headers: Seq<(Seq<char>, Seq<u8>)>,
    pub options: ReadOptions,
}

impl View for ReadRequest {
    type V = ReadRequestView;

    open spec fn view(&self) -> ReadRequestView {
        ReadRequestView {
            bucket: self.bucket@,
            key: self.key@,
            range: self.range,
            headers: self.headers@.map_values(|header: Header| header@),
            options: self.options,
        }
    }
}

/// The request for an object: all of it, by its key, without headers, with the default options.
pub open spec fn read_request(at: AtObject) -> ReadRequestView {
    ReadRequestView {
        bucket: at.query.bucket,
        key: at.key(),
        range: None,
        headers: Seq::empty(),
        options: ReadOptions::Default,
    }
}

/// What a run does next.
pub enum ProduceView {
    List(ListingView),
    Open(AtObject),
    Add(AtObject),
    Finish,
    Done,
    Failed(Seq<char>),
}

/// What a step is answered.
pub enum Reply {
    /// The page that was asked for.
    Listed(PageView),
    /// The object can be read.
    Opened,
    /// The entry is in the archive, with the data that was read.
    Added(Seq<u8>),
    /// The archive is closed.
    Finished,
    /// What was asked for failed.
    Failed(Seq<char>),
}

/// What follows a page: the end of the archive if the listing is complete, else the next page. A
/// page that is not the last one but does not say where to go on makes the run fail: the archive
/// would lack objects.
pub open spec fn after_page(query: DownloadZipQueryView, page: PageView) -> ProduceView {
    if !page.is_truncated {
        ProduceView::Finish
    } else if page.next is Some {
        ProduceView::List(ListingView { query, continuation: page.next })
    } else {
        ProduceView::Failed("list_objects_v2 failed: truncated page without a token"@)
    }
}

/// The first object from `index` on that is no directory; what follows the page if there is none.
pub open spec fn next_object(
    query: DownloadZipQueryView,
    page: PageView,
    index: int,
) -> ProduceView
    decreases page.objects.len() - index,
{
    if index >= page.objects.len() {
        after_page(query, page)
    } else if page.objects[index].is_dir {
        next_object(query, page, index + 1)
    } else {
        ProduceView::Open(AtObject { query, page, index })
    }
}

/// What follows a step and its answer. An answer to another step than this one changes nothing.
pub open spec fn next(step: ProduceView, reply: Reply) -> ProduceView {
    match (step, reply) {
        (ProduceView::List(at), Reply::Listed(page)) => next_object(at.query, page, 0),
        (ProduceView::Open(at), Reply::Opened) => ProduceView::Add(at),
        (ProduceView::Add(at), Reply::Added(_)) => next_object(at.query, at.page, at.index + 1),
        (ProduceView::Finish, Reply::Finished) => ProduceView::Done,
        (ProduceView::List(_), Reply::Failed(error)) => ProduceView::Failed(
            "list_objects_v2 failed: "@ + error,
        ),
        (ProduceView::Open(at), Reply::Failed(error)) => ProduceView::Failed(
            "get_object_reader("@ + at.key() + ") failed: "@ + error,
        ),
        (ProduceView::Add(at), Reply::Failed(error)) => ProduceView::Failed(
            "zip add("@ + at.name() + ") failed: "@ + error,
        ),
        (ProduceView::Finish, Reply::Failed(error)) => ProduceView::Failed(
            "zip finish failed: "@ + error,
        ),
        _ => step,
    }
}

/// What a run begins with: the first page of the listing.
pub open spec fn first(query: DownloadZipQueryView) -> ProduceView {
    ProduceView::List(ListingView { query, continuation: None })
}

/// A step of a run.
pub enum ProduceStep {
    /// List a page of objects.
    List(ListPage),
    /// Open an object for reading.
    Open(OpenObject),
    /// Add the opened object to the archive.
    Add(AddObject),
    /// Finish the archive.
    Finish(FinishArchive),
    /// The archive is complete.
    Done,
    /// The run failed. The archive is left as it is, without its end.
    Failed(String),
}

impl View for ProduceStep {
    type V = ProduceView;

    open spec fn view(&self) -> ProduceView {
        match self {
            ProduceStep::List(step) => ProduceView::List(step@),
            ProduceStep::Open(step) => ProduceView::Open(step@),
            ProduceStep::Add(step) => ProduceView::Add(step@),
            ProduceStep::Finish(_) => ProduceView::Finish,
            ProduceStep::Done => ProduceView::Done,
            ProduceStep::Failed(message) => ProduceView::Failed(message@),
        }
    }
}

/// Lists every object of the query and streams each into a ZIP. Errors are returned as strings for
/// the caller to log; the partial archive is truncated.
pub fn produce_zip(query: DownloadZipQuery) -> (step: ProduceStep)
    ensures
        step@ == first(query@),
        step matches ProduceStep::List(page) && page@.query == query@ && page@.continuation is None,
{
    ProduceStep::List(ListPage { query, continuation: None })
}

/// Goes on with the objects of `page` from `index` on.
fn go_on(query: DownloadZipQuery, page: ObjectPage, index: usize) -> (step: ProduceStep)
    requires
        index <= page@.objects.len(),
    ensures
        step@ == next_object(query@, page@, index as int),
{
    let mut i: usize = index;
    while i < page.objects.len()
        invariant
            i <= page@.objects.len(),
            next_object(query@, page@, index as int) == next_object(query@, page@, i as int),
        decreases page.objects.len() - i,
    {
        assert(page@.objects[i as int] == page.objects@[i as int]@);
        if !page.objects[i].is_dir {
            return ProduceStep::Open(OpenObject { query, page, index: i });
        }
        i = i + 1;
    }
    if !page.is_truncated {
        return ProduceStep::Finish(FinishArchive);
    }
    match page.next_continuation_token {
        Some(token) => ProduceStep::List(ListPage { query, continuation: Some(token) }),
        None => ProduceStep::Failed(
            "list_objects_v2 failed: truncated page without a token".to_owned(),
        ),
    }
}

/// The next thing to do is to list a page of objects.
pub struct ListPage {
    query: DownloadZipQuery,
    continuation: Option<String>,
}

impl View for ListPage {
    type V = ListingView;

    closed spec fn view(&self) -> ListingView {
        ListingView { query: self.query@, continuation: optional_string(self.continuation) }
    }
}

impl ListPage {
    /// What to ask the store for.
    pub fn request(&self) -> (request: ListRequest)
        ensures
            request@ == list_request(self@),
            request.bucket@ == self@.query.bucket,
            request.prefix@ == self@.query.prefix,
            self@.continuation is None ==> request.continuation is None,
            self@.continuation matches Some(token) ==> (request.continuation matches Some(asked)
                && asked@ == token),
            request.delimiter is None,
            request.max_keys == 1000,
            !request.fetch_owner,
            request.start_after is None,
            !request.include_deleted,
    {
        let continuation: Option<String> = match &self.continuation {
            Some(token) => Some(token.clone()),
            None => None,
        };
        ListRequest {
            bucket: self.query.bucket.clone(),
            prefix: self.query.prefix.clone(),
            continuation,
            delimiter: None,
            max_keys: PAGE_SIZE,
            fetch_owner: false,
            start_after: None,
            include_deleted: false,
        }
    }

    /// The page is there.
    pub fn listed(self, page: ObjectPage) -> (step: ProduceStep)
        ensures
            step@ == next(ProduceView::List(self@), Reply::Listed(page@)),
    {
        go_on(self.query, page, 0)
    }

    /// The page could not be listed.
    pub fn failed(self, error: &str) -> (step: ProduceStep)
        ensures
            step@ == next(ProduceView::List(self@), Reply::Failed(error@)),
            step matches ProduceStep::Failed(message) && message@ == "list_objects_v2 failed: "@
                + error@,
    {
        let mut message = "list_objects_v2 failed: ".to_owned();
        message.append(error);
        ProduceStep::Failed(message)
    }
}

/// The next thing to do is to open an object for reading.
pub struct OpenObject {
    query: DownloadZipQuery,
    page: ObjectPage,
    index: usize,
}

impl View for OpenObject {
    type V = AtObject;

    closed spec fn view(&self) -> AtObject {
        AtObject { query: self.query@, page: self.page@, index: self.index as int }
    }
}

impl OpenObject {
    #[verifier::type_invariant]
    spec fn is_at_an_object(self) -> bool {
        self.index < self.page.objects@.len()
    }

    /// What to ask the store for.
    pub fn request(&self) -> (request: ReadRequest)
        ensures
            request@ == read_request(self@),
            request.bucket@ == self@.query.bucket,
            request.key@ == self@.page.objects[self@.index].name,
            request.range is None,
            request.headers@.len() == 0,
            request.options == ReadOptions::Default,
    {
        proof {
            use_type_invariant(self);
        }
        let headers: Vec<Header> = Vec::new();
        assert(headers@.map_values(|header: Header| header@) =~= Seq::empty());
        ReadRequest {
            bucket: self.query.bucket.clone(),
            key: self.page.objects[self.index].name.clone(),
            range: None,
            headers,
            options: ReadOptions::Default,
        }
    }

    /// The object can be read.
    pub fn opened(self) -> (step: ProduceStep)
        ensures
            step@ == next(ProduceView::Open(self@), Reply::Opened),
            step matches ProduceStep::Add(adding) && adding@ == self@,
    {
        proof {
            use_type_invariant(&self);
        }
        let name = entry_name_for(
            self.query.prefix.as_str(),
            self.page.objects[self.index].name.as_str(),
        );
        ProduceStep::Add(
            AddObject { query: self.query, page: self.page, index: self.index, name },
        )
    }

    /// The object cannot be read.
    pub fn failed(self, error: &str) -> (step: ProduceStep)
        ensures
            step@ == next(ProduceView::Open(self@), Reply::Failed(error@)),
            step matches ProduceStep::Failed(message) && message@ == "get_object_reader("@
                + self@.page.objects[self@.index].name + ") failed: "@ + error@,
    {
        proof {
            use_type_invariant(&self);
        }
        let mut message = "get_object_reader(".to_owned();
        message.append(self.page.objects[self.index].name.as_str());
        message.append(") failed: ");
        message.append(error);
        ProduceStep::Failed(message)
    }
}

/// The next thing to do is to add the opened object to the archive.
pub struct AddObject {
    query: DownloadZipQuery,
    page: ObjectPage,
    index: usize,
    name: String,
}

impl View for AddObject {
    type V = AtObject;

    closed spec fn view(&self) -> AtObject {
        AtObject { query: self.query@, page: self.page@, index: self.index as int }
    }
}

impl AddObject {
    #[verifier::type_invariant]
    spec fn has_the_name_of_its_object(self) -> bool {
        &&& self.index < self.page.objects@.len()
        &&& self.name@ == entry_name(
            self.query.prefix@,
            self.page.objects@[self.index as int].name@,
        )
    }

    /// The name of the entry.
    pub fn name(&self) -> (name: &str)
        ensures
            name@ == self@.name(),
            name@ == entry_name(self@.query.prefix, self@.page.objects[self@.index].name),
    {
        proof {
            use_type_invariant(self);
        }
        self.name.as_str()
    }

    /// The method of the entry.
    pub fn method(&self) -> (method: ZipStreamMethod)
        ensures
            method == self@.query.method,
    {
        self.query.method
    }

    /// The entry is in the archive.
    pub fn added(self) -> (step: ProduceStep)
        ensures
            forall|data: Seq<u8>|
                step@ == #[trigger] next(ProduceView::Add(self@), Reply::Added(data)),
    {
        proof {
            use_type_invariant(&self);
        }
        let listed: usize = self.page.objects.len();
        assert(self.index < listed);
        go_on(self.query, self.page, self.index + 1)
    }

    /// The entry could not be written.
    pub fn failed(self, error: &str) -> (step: ProduceStep)
        ensures
            step@ == next(ProduceView::Add(self@), Reply::Failed(error@)),
            step matches ProduceStep::Failed(message) && message@ == "zip add("@ + entry_name(
                self@.query.prefix,
                self@.page.objects[self@.index].name,
            ) + ") failed: "@ + error@,
    {
        let mut message = "zip add(".to_owned();
        message.append(self.name());
        message.append(") failed: ");
        message.append(error);
        ProduceStep::Failed(message)
    }
}

/// The next thing to do is to finish the archive.
pub struct FinishArchive;

impl FinishArchive {
    /// The archive is closed.
    pub fn finished(self) -> (step: ProduceStep)
        ensures
            step@ == next(ProduceView::Finish, Reply::Finished),
            step is Done,
    {
        ProduceStep::Done
    }

    /// The archive could not be closed.
    pub fn failed(self, error: &str) -> (step: ProduceStep)
        ensures
            step@ == next(ProduceView::Finish, Reply::Failed(error@)),
            step matches ProduceStep::Failed(message) && message@ == "zip finish failed: "@ + error@,
    {
        let mut message = "zip finish failed: ".to_owned();
        message.append(error);
        ProduceStep::Failed(message)
    }
}

/// Where a run stands after the replies.
pub open spec fn run(query: DownloadZipQueryView, replies: Seq<Reply>) -> ProduceView
    decreases replies.len(),
{
    if replies.len() == 0 {
        first(query)
    } else {
        next(run(query, replies.drop_last()), replies.last())
    }
}

/// The pages that a run has listed.
pub open spec fn listed_pages(query: DownloadZipQueryView, replies: Seq<Reply>) -> Seq<PageView>
    decreases replies.len(),
{
    if replies.len() == 0 {
        Seq::empty()
    } else {
        let before = listed_pages(query, replies.drop_last());
        match (run(query, replies.drop_last()), replies.last()) {
            (ProduceView::List(_), Reply::Listed(page)) => before.push(page),
            _ => before,
        }
    }
}

/// The entries that a run has written: one for each object that was added.
pub open spec fn archive(query: DownloadZipQueryView, replies: Seq<Reply>) -> Seq<ArchiveEntry>
    decreases replies.len(),
{
    if replies.len() == 0 {
        Seq::empty()
    } else {
        let before = archive(query, replies.drop_last());
        match (run(query, replies.drop_last()), replies.last()) {
            (ProduceView::Add(at), Reply::Added(data)) => before.push(
                ArchiveEntry { name: at.name(), method: at.query.method, data },
            ),
            _ => before,
        }
    }
}

/// The names of the entries of an archive.
pub open spec fn names_in(archive: Seq<ArchiveEntry>) -> Seq<Seq<char>> {
    archive.map_values(|entry: ArchiveEntry| entry.name)
}

/// The entry names of the objects that are no directories, in the order of the listing.
pub open spec fn object_names(prefix: Seq<char>, objects: Seq<ObjectView>) -> Seq<Seq<char>>
    decreases objects.len(),
{
    if objects.len() == 0 {
        Seq::empty()
    } else if objects.last().is_dir {
        object_names(prefix, objects.drop_last())
    } else {
        object_names(prefix, objects.drop_last()).push(entry_name(prefix, objects.last().name))
    }
}

/// The entry names of all pages, in the order of the listing.
pub open spec fn listing_names(prefix: Seq<char>, pages: Seq<PageView>) -> Seq<Seq<char>>
    decreases pages.len(),
{
    if pages.len() == 0 {
        Seq::empty()
    } else {
        listing_names(prefix, pages.drop_last()) + object_names(prefix, pages.last().objects)
    }
}

/// What holds of a run at every point.
spec fn is_on_course(query: DownloadZipQueryView, replies: Seq<Reply>) -> bool {
    let pages = listed_pages(query, replies);
    let names = names_in(archive(query, replies));
    match run(query, replies) {
        ProduceView::List(at) => {
            &&& at.query == query
            &&& names == listing_names(query.prefix, pages)
            &&& at.continuation == (if pages.len() == 0 {
                None
            } else {
                pages.last().next
            })
            &&& pages.len() > 0 ==> pages.last().is_truncated && pages.last().next is Some
        },
        ProduceView::Open(at) | ProduceView::Add(at) => {
            &&& at.query == query
            &&& pages.len() > 0
            &&& pages.last() == at.page
            &&& 0 <= at.index < at.page.objects.len()
            &&& !at.page.objects[at.index].is_dir
            &&& names == listing_names(query.prefix, pages.drop_last()) + object_names(
                query.prefix,
                at.page.objects.take(at.index),
            )
        },
        ProduceView::Finish | ProduceView::Done => {
            &&& pages.len() > 0
            &&& names == listing_names(query.prefix, pages)
            &&& !pages.last().is_truncated
        },
        ProduceView::Failed(_) => names.is_prefix_of(listing_names(query.prefix, pages)),
    }
}

/// Passing over directories adds no name.
proof fn lemma_next_object(query: DownloadZipQueryView, page: PageView, index: int)
    requires
        0 <= index <= page.objects.len(),
    ensures
        match next_object(query, page, index) {
            ProduceView::Open(at) => {
                &&& at.query == query
                &&& at.page == page
                &&& index <= at.index < page.objects.len()
                &&& !page.objects[at.index].is_dir
                &&& object_names(query.prefix, page.objects.take(at.index)) == object_names(
                    query.prefix,
                    page.objects.take(index),
                )
            },
            other => {
                &&& other == after_page(query, page)
                &&& object_names(query.prefix, page.objects) == object_names(
                    query.prefix,
                    page.objects.take(index),
                )
            },
        },
    decreases page.objects.len() - index,
{
    if index >= page.objects.len() {
        assert(page.objects.take(index) =~= page.objects);
    } else if page.objects[index].is_dir {
        lemma_next_object(query, page, index + 1);
        assert(page.objects.take(index + 1).drop_last() =~= page.objects.take(index));
        assert(page.objects.take(index + 1).last() == page.objects[index]);
    }
}

proof fn lemma_object_names_prefix(prefix: Seq<char>, objects: Seq<ObjectView>, n: int)
    requires
        0 <= n <= objects.len(),
    ensures
        object_names(prefix, objects.take(n)).is_prefix_of(object_names(prefix, objects)),
    decreases objects.len(),
{
    let part = object_names(prefix, objects.take(n));
    if n == objects.len() {
        assert(objects.take(n) =~= objects);
        assert(part.take(part.len() as int) =~= part);
    } else {
        lemma_object_names_prefix(prefix, objects.drop_last(), n);
        assert(objects.drop_last().take(n) =~= objects.take(n));
        assert(object_names(prefix, objects).take(part.len() as int) =~= object_names(
            prefix,
            objects.drop_last(),
        ).take(part.len() as int));
    }
}

proof fn lemma_is_on_course(query: DownloadZipQueryView, replies: Seq<Reply>)
    ensures
        is_on_course(query, replies),
    decreases replies.len(),
{
    if replies.len() == 0 {
        assert(names_in(archive(query, replies)) =~= Seq::empty());
    } else {
        let before = replies.drop_last();
        lemma_is_on_course(query, before);
        let pages = listed_pages(query, before);
        let entries = archive(query, before);
        let all = listing_names(query.prefix, pages);
        match (run(query, before), replies.last()) {
            (ProduceView::List(at), Reply::Listed(page)) => {
                lemma_next_object(query, page, 0);
                assert(pages.push(page).drop_last() =~= pages);
                assert(page.objects.take(0) =~= Seq::empty());
                assert(names_in(entries) + Seq::<Seq<char>>::empty() =~= names_in(entries));
                let now = listing_names(query.prefix, pages.push(page));
                assert(now.take(now.len() as int) =~= now);
            },
            (ProduceView::Add(at), Reply::Added(data)) => {
                let entry = ArchiveEntry { name: at.name(), method: at.query.method, data };
                lemma_next_object(query, at.page, at.index + 1);
                assert(names_in(entries.push(entry)) =~= names_in(entries).push(at.name()));
                assert(at.page.objects.take(at.index + 1).drop_last() =~= at.page.objects.take(
                    at.index,
                ));
                assert(at.page.objects.take(at.index + 1).last() == at.page.objects[at.index]);
                assert(names_in(entries.push(entry)) =~= listing_names(
                    query.prefix,
                    pages.drop_last(),
                ) + object_names(query.prefix, at.page.objects.take(at.index + 1)));
                assert(all.take(all.len() as int) =~= all);
            },
            (ProduceView::Open(at), Reply::Failed(_)) | (
                ProduceView::Add(at),
                Reply::Failed(_),
            ) => {
                lemma_object_names_prefix(query.prefix, at.page.objects, at.index);
                assert(all.take(names_in(entries).len() as int) =~= names_in(entries));
            },
            (_, Reply::Failed(_)) => {
                if !(run(query, before) is Failed) {
                    assert(all.take(all.len() as int) =~= all);
                }
            },
            _ => {},
        }
    }
}

/// When the archive is finished, the listing was read to its last page, and the archive holds an
/// entry for each object that is no directory, in the order of the listing.
pub proof fn law_a_finished_archive_holds_every_listed_object(
    query: DownloadZipQueryView,
    replies: Seq<Reply>,
)
    requires
        run(query, replies) is Finish || run(query, replies) is Done,
    ensures
        names_in(archive(query, replies)) == listing_names(
            query.prefix,
            listed_pages(query, replies),
        ),
        listed_pages(query, replies).len() > 0,
        !listed_pages(query, replies).last().is_truncated,
{
    lemma_is_on_course(query, replies);
}

/// At every point, the entries are those of the first listed objects: none is skipped, repeated or
/// out of order.
pub proof fn law_entries_follow_the_listing(query: DownloadZipQueryView, replies: Seq<Reply>)
    ensures
        names_in(archive(query, replies)).is_prefix_of(
            listing_names(query.prefix, listed_pages(query, replies)),
        ),
{
    lemma_is_on_course(query, replies);
    let pages = listed_pages(query, replies);
    let names = names_in(archive(query, replies));
    let all = listing_names(query.prefix, pages);
    match run(query, replies) {
        ProduceView::Open(at) | ProduceView::Add(at) => {
            lemma_object_names_prefix(query.prefix, at.page.objects, at.index);
            assert(all.take(names.len() as int) =~= names);
        },
        ProduceView::Failed(_) => {},
        _ => {
            assert(all.take(all.len() as int) =~= all);
        },
    }
}

/// Every entry is compressed as the query asks.
pub proof fn law_entries_have_the_method_of_the_query(
    query: DownloadZipQueryView,
    replies: Seq<Reply>,
)
    ensures
        forall|i: int|
            0 <= i < archive(query, replies).len() ==> (#[trigger] archive(
                query,
                replies,
            )[i]).method == query.method,
    decreases replies.len(),
{
    if replies.len() > 0 {
        law_entries_have_the_method_of_the_query(query, replies.drop_last());
        lemma_is_on_course(query, replies.drop_last());
        let before = archive(query, replies.drop_last());
        assert forall|i: int| 0 <= i < archive(query, replies).len() implies (#[trigger] archive(
            query,
            replies,
        )[i]).method == query.method by {
            if i < before.len() {
                assert(before[i].method == query.method);
            }
        }
    }
}

/// The keys of the objects that a run has opened, in turn.
pub open spec fn opened_keys(query: DownloadZipQueryView, replies: Seq<Reply>) -> Seq<Seq<char>>
    decreases replies.len(),
{
    if replies.len() == 0 {
        Seq::empty()
    } else {
        let before = opened_keys(query, replies.drop_last());
        match (run(query, replies.drop_last()), replies.last()) {
            (ProduceView::Open(at), Reply::Opened) => before.push(read_request(at).key),
            _ => before,
        }
    }
}

/// The keys of the objects that are no directories, in the order of the listing.
pub open spec fn object_keys(objects: Seq<ObjectView>) -> Seq<Seq<char>>
    decreases objects.len(),
{
    if objects.len() == 0 {
        Seq::empty()
    } else if objects.last().is_dir {
        object_keys(objects.drop_last())
    } else {
        object_keys(objects.drop_last()).push(objects.last().name)
    }
}

/// The keys of all pages, in the order of the listing.
pub open spec fn listing_keys(pages: Seq<PageView>) -> Seq<Seq<char>>
    decreases pages.len(),
{
    if pages.len() == 0 {
        Seq::empty()
    } else {
        listing_keys(pages.drop_last()) + object_keys(pages.last().objects)
    }
}

/// What a run has opened, at every point.
spec fn has_opened_in_turn(query: DownloadZipQueryView, replies: Seq<Reply>) -> bool {
    let pages = listed_pages(query, replies);
    let keys = opened_keys(query, replies);
    match run(query, replies) {
        ProduceView::Open(at) => keys == listing_keys(pages.drop_last()) + object_keys(
            at.page.objects.take(at.index),
        ),
        ProduceView::Add(at) => keys == listing_keys(pages.drop_last()) + object_keys(
            at.page.objects.take(at.index + 1),
        ),
        ProduceView::Failed(_) => true,
        _ => keys == listing_keys(pages),
    }
}

/// Passing over directories adds no key.
proof fn lemma_next_object_keys(query: DownloadZipQueryView, page: PageView, index: int)
    requires
        0 <= index <= page.objects.len(),
    ensures
        match next_object(query, page, index) {
            ProduceView::Open(at) => object_keys(page.objects.take(at.index)) == object_keys(
                page.objects.take(index),
            ),
            _ => object_keys(page.objects) == object_keys(page.objects.take(index)),
        },
    decreases page.objects.len() - index,
{
    if index >= page.objects.len() {
        assert(page.objects.take(index) =~= page.objects);
    } else if page.objects[index].is_dir {
        lemma_next_object_keys(query, page, index + 1);
        assert(page.objects.take(index + 1).drop_last() =~= page.objects.take(index));
        assert(page.objects.take(index + 1).last() == page.objects[index]);
    }
}

proof fn lemma_has_opened_in_turn(query: DownloadZipQueryView, replies: Seq<Reply>)
    ensures
        has_opened_in_turn(query, replies),
    decreases replies.len(),
{
    if replies.len() > 0 {
        let before = replies.drop_last();
        lemma_has_opened_in_turn(query, before);
        lemma_is_on_course(query, before);
        let pages = listed_pages(query, before);
        let keys = opened_keys(query, before);
        match (run(query, before), replies.last()) {
            (ProduceView::List(at), Reply::Listed(page)) => {
                lemma_next_object(query, page, 0);
                lemma_next_object_keys(query, page, 0);
                assert(pages.push(page).drop_last() =~= pages);
                assert(page.objects.take(0) =~= Seq::empty());
                assert(keys + Seq::<Seq<char>>::empty() =~= keys);
            },
            (ProduceView::Open(at), Reply::Opened) => {
                let objects = at.page.objects;
                assert(objects.take(at.index + 1).drop_last() =~= objects.take(at.index));
                assert(objects.take(at.index + 1).last() == objects[at.index]);
                assert(keys.push(at.key()) =~= listing_keys(pages.drop_last()) + object_keys(
                    objects.take(at.index + 1),
                ));
            },
            (ProduceView::Add(at), Reply::Added(_)) => {
                lemma_next_object(query, at.page, at.index + 1);
                lemma_next_object_keys(query, at.page, at.index + 1);
            },
            _ => {},
        }
    }
}

/// When the archive is finished, each listed object that is no directory was opened once, by its
/// key, in the order of the listing.
pub proof fn law_every_listed_object_is_opened_once(
    query: DownloadZipQueryView,
    replies: Seq<Reply>,
)
    requires
        run(query, replies) is Finish || run(query, replies) is Done,
    ensures
        opened_keys(query, replies) == listing_keys(listed_pages(query, replies)),
{
    lemma_has_opened_in_turn(query, replies);
}

/// Whatever a run asks of the store is about the bucket and the prefix of the query.
pub proof fn law_a_run_keeps_to_its_query(query: DownloadZipQueryView, replies: Seq<Reply>)
    ensures
        run(query, replies) matches ProduceView::List(at) ==> at.query == query,
        run(query, replies) matches ProduceView::Open(at) ==> at.query == query,
        run(query, replies) matches ProduceView::Add(at) ==> at.query == query,
{
    lemma_is_on_course(query, replies);
}

/// Only objects that were listed, and no directories, are opened and added; each is read whole, by
/// its key in the bucket of the query.
pub proof fn law_only_listed_objects_are_opened(query: DownloadZipQueryView, replies: Seq<Reply>)
    ensures
        match run(query, replies) {
            ProduceView::Open(at) | ProduceView::Add(at) => {
                &&& listed_pages(query, replies).contains(at.page)
                &&& 0 <= at.index < at.page.objects.len()
                &&& !at.page.objects[at.index].is_dir
            },
            _ => true,
        },
        run(query, replies) matches ProduceView::Open(at) ==> read_request(at) == (ReadRequestView {
            bucket: query.bucket,
            key: at.page.objects[at.index].name,
            range: None,
            headers: Seq::empty(),
            options: ReadOptions::Default,
        }),
{
    lemma_is_on_course(query, replies);
    let pages = listed_pages(query, replies);
    match run(query, replies) {
        ProduceView::Open(at) | ProduceView::Add(at) => {
            assert(pages[pages.len() - 1] == at.page);
        },
        _ => {},
    }
}

/// The first page is asked for without a token, each other with the token of the page before; all
/// else that is asked for is the same for every page.
pub proof fn law_pages_are_listed_in_turn(query: DownloadZipQueryView, replies: Seq<Reply>)
    ensures
        run(query, replies) matches ProduceView::List(at) ==> list_request(at) == (
        ListRequestView {
            bucket: query.bucket,
            prefix: query.prefix,
            continuation: if listed_pages(query, replies).len() == 0 {
                None
            } else {
                listed_pages(query, replies).last().next
            },
            delimiter: None,
            max_keys: 1000,
            fetch_owner: false,
            start_after: None,
            include_deleted: false,
        }),
        run(query, replies) is List && listed_pages(query, replies).len() > 0 ==> listed_pages(
            query,
            replies,
        ).last().next is Some,
{
    lemma_is_on_course(query, replies);
}

/// A page that is not the last one, without a token to go on, makes the run fail once its objects
/// are added; the archive gets no end.
pub proof fn law_a_listing_that_breaks_off_fails_the_run(
    query: DownloadZipQueryView,
    page: PageView,
    index: int,
)
    requires
        0 <= index <= page.objects.len(),
        page.is_truncated,
        page.next is None,
        forall|i: int| index <= i < page.objects.len() ==> (#[trigger] page.objects[i]).is_dir,
    ensures
        next_object(query, page, index) == ProduceView::Failed(
            "list_objects_v2 failed: truncated page without a token"@,
        ),
    decreases page.objects.len() - index,
{
    if index < page.objects.len() {
        assert(page.objects[index].is_dir);
        law_a_listing_that_breaks_off_fails_the_run(query, page, index + 1);
    }
}

/// A run that is over stays as it is: after a failure nothing is added and the archive gets no end.
pub proof fn law_the_end_of_a_run_is_final(
    query: DownloadZipQueryView,
    replies: Seq<Reply>,
    reply: Reply,
)
    requires
        run(query, replies) is Failed || run(query, replies) is Done,
    ensures
        run(query, replies.push(reply)) == run(query, replies),
        archive(query, replies.push(reply)) == archive(query, replies),
{
    assert(replies.push(reply).drop_last() =~= replies);
}

/// An object that is added is the entry that the archive writer closes: the object's entry name, the
/// method of the query and all the bytes that were read.
pub proof fn law_an_added_object_is_the_entry_that_was_written<E>(
    query: DownloadZipQueryView,
    replies: Seq<Reply>,
    operations: Seq<AddReply<E>>,
)
    requires
        run(query, replies) is Add,
        run_add(run(query, replies)->Add_0.name(), query.method, operations) is Close,
    ensures
        archive(
            query,
            replies.push(
                Reply::Added(
                    chunks_read(
                        run(query, replies)->Add_0.name(),
                        query.method,
                        operations,
                    ).flatten(),
                ),
            ),
        ) == archive(query, replies).push(
            run_add(run(query, replies)->Add_0.name(), query.method, operations)->Close_0,
        ),
{
    let name = run(query, replies)->Add_0.name();
    let data = chunks_read(name, query.method, operations).flatten();
    lemma_is_on_course(query, replies);
    law_entry_holds_what_was_read(name, query.method, operations);
    assert(replies.push(Reply::Added(data)).drop_last() =~= replies);
}

/// Any failure that a run is told of, while it goes on, makes the run fail.
pub proof fn law_a_failure_ends_the_run(
    query: DownloadZipQueryView,
    replies: Seq<Reply>,
    error: Seq<char>,
)
    requires
        !(run(query, replies) is Done),
    ensures
        run(query, replies.push(Reply::Failed(error))) is Failed,
        archive(query, replies.push(Reply::Failed(error))) == archive(query, replies),
{
    assert(replies.push(Reply::Failed(error)).drop_last() =~= replies);
}

/// From any object on, the next step is to open the first object that is no directory, whatever its
/// key, its place and the size of the page.
pub proof fn law_the_next_object_is_the_first_that_is_no_directory(
    query: DownloadZipQueryView,
    page: PageView,
    from: int,
    index: int,
)
    requires
        0 <= from <= index < page.objects.len(),
        !page.objects[index].is_dir,
        forall|k: int| from <= k < index ==> (#[trigger] page.objects[k]).is_dir,
    ensures
        next_object(query, page, from) == ProduceView::Open(AtObject { query, page, index }),
    decreases index - from,
{
    if from < index {
        assert(page.objects[from].is_dir);
        law_the_next_object_is_the_first_that_is_no_directory(query, page, from + 1, index);
    }
}

/// A page that has no more objects but directories is through, whatever its size: the archive is
/// finished if the page is not truncated, else the next page is listed with the page's token.
pub proof fn law_what_follows_the_last_object_of_a_page(
    query: DownloadZipQueryView,
    page: PageView,
    from: int,
)
    requires
        0 <= from <= page.objects.len(),
        forall|k: int| from <= k < page.objects.len() ==> (#[trigger] page.objects[k]).is_dir,
    ensures
        !page.is_truncated ==> next_object(query, page, from) is Finish,
        page.is_truncated ==> (page.next matches Some(token) ==> next_object(query, page, from)
            == ProduceView::List(ListingView { query, continuation: Some(token) })),
        page.is_truncated && page.next is None ==> next_object(query, page, from)
            == ProduceView::Failed("list_objects_v2 failed: truncated page without a token"@),
    decreases page.objects.len() - from,
{
    if from < page.objects.len() {
        assert(page.objects[from].is_dir);
        law_what_follows_the_last_object_of_a_page(query, page, from + 1);
    }
}

/// Once the last object of a page that is no directory is added, whatever its data and the size of the
/// page, the run goes on to the next page by the page's token, or to the end of the archive if the
/// page is not truncated.
pub proof fn law_a_page_that_is_through_leads_on(at: AtObject, data: Seq<u8>)
    requires
        0 <= at.index < at.page.objects.len(),
        forall|k: int|
            at.index < k < at.page.objects.len() ==> (#[trigger] at.page.objects[k]).is_dir,
    ensures
        !at.page.is_truncated ==> next(ProduceView::Add(at), Reply::Added(data)) is Finish,
        at.page.is_truncated ==> (at.page.next matches Some(token) ==> next(
            ProduceView::Add(at),
            Reply::Added(data),
        ) == ProduceView::List(ListingView { query: at.query, continuation: Some(token) })),
{
    law_what_follows_the_last_object_of_a_page(at.query, at.page, at.index + 1);
}

/// A page that holds no object but directories, or none, leads on as soon as it is listed, whatever its
/// size: to the next page by its token, or to the end of the archive if it is not truncated.
pub proof fn law_a_page_without_objects_leads_on(at: ListingView, page: PageView)
    requires
        forall|k: int| 0 <= k < page.objects.len() ==> (#[trigger] page.objects[k]).is_dir,
    ensures
        !page.is_truncated ==> next(ProduceView::List(at), Reply::Listed(page)) is Finish,
        page.is_truncated ==> (page.next matches Some(token) ==> next(
            ProduceView::List(at),
            Reply::Listed(page),
        ) == ProduceView::List(ListingView { query: at.query, continuation: Some(token) })),
{
    law_what_follows_the_last_object_of_a_page(at.query, page, 0);
}

/// After a listed page the first object of it that is no directory is opened, and after an added
/// object the next one that is none; an object is added as soon as it is opened.
pub proof fn law_objects_are_opened_in_turn(
    listing: ListingView,
    at: AtObject,
    index: int,
    data: Seq<u8>,
)
    requires
        0 <= index < at.page.objects.len(),
        !at.page.objects[index].is_dir,
    ensures
        (forall|k: int| 0 <= k < index ==> (#[trigger] at.page.objects[k]).is_dir) ==> next(
            ProduceView::List(listing),
            Reply::Listed(at.page),
        ) == ProduceView::Open(AtObject { query: listing.query, page: at.page, index }),
        0 <= at.index < index && (forall|k: int|
            at.index < k < index ==> (#[trigger] at.page.objects[k]).is_dir) ==> next(
            ProduceView::Add(at),
            Reply::Added(data),
        ) == ProduceView::Open(AtObject { query: at.query, page: at.page, index }),
        next(ProduceView::Open(at), Reply::Opened) == ProduceView::Add(at),
{
    if forall|k: int| 0 <= k < index ==> (#[trigger] at.page.objects[k]).is_dir {
        law_the_next_object_is_the_first_that_is_no_directory(listing.query, at.page, 0, index);
    }
    if 0 <= at.index < index && (forall|k: int|
        at.index < k < index ==> (#[trigger] at.page.objects[k]).is_dir) {
        law_the_next_object_is_the_first_that_is_no_directory(
            at.query,
            at.page,
            at.index + 1,
            index,
        );
    }
}

/// What succeeds takes the run on: a page to its first object, an opened object to its addition, an
/// added one to the next object of its page, a finished archive to the end.
pub proof fn law_what_succeeds_takes_the_run_on(
    at: ListingView,
    page: PageView,
    object: AtObject,
    data: Seq<u8>,
)
    ensures
        next(ProduceView::List(at), Reply::Listed(page)) == next_object(at.query, page, 0),
        next(ProduceView::Open(object), Reply::Opened) == ProduceView::Add(object),
        next(ProduceView::Add(object), Reply::Added(data)) == next_object(
            object.query,
            object.page,
            object.index + 1,
        ),
        next(ProduceView::Finish, Reply::Finished) is Done,
{
}

/// What fails ends the run with a message that says what failed, of which object, and why.
pub proof fn law_what_fails_is_reported(at: ListingView, object: AtObject, error: Seq<char>)
    ensures
        next(ProduceView::List(at), Reply::Failed(error)) == ProduceView::Failed(
            "list_objects_v2 failed: "@ + error,
        ),
        next(ProduceView::Open(object), Reply::Failed(error)) == ProduceView::Failed(
            "get_object_reader("@ + object.page.objects[object.index].name + ") failed: "@ + error,
        ),
        next(ProduceView::Add(object), Reply::Failed(error)) == ProduceView::Failed(
            "zip add("@ + entry_name(
                object.query.prefix,
                object.page.objects[object.index].name,
            ) + ") failed: "@ + error,
        ),
        next(ProduceView::Finish, Reply::Failed(error)) == ProduceView::Failed(
            "zip finish failed: "@ + error,
        ),
{
}

/// A run fails only by a failure: one that is answered none, and only truncated pages with a token,
/// does not fail.
pub proof fn law_a_run_fails_only_by_a_failure(query: DownloadZipQueryView, replies: Seq<Reply>)
    requires
        forall|i: int| 0 <= i < replies.len() ==> !((#[trigger] replies[i]) is Failed),
        forall|i: int|
            0 <= i < replies.len() ==> ((#[trigger] replies[i]) matches Reply::Listed(page)
                ==> page.is_truncated ==> page.next is Some),
    ensures
        !(run(query, replies) is Failed),
        match run(query, replies) {
            ProduceView::Open(at) | ProduceView::Add(at) => at.page.is_truncated
                ==> at.page.next is Some,
            _ => true,
        },
    decreases replies.len(),
{
    if replies.len() > 0 {
        let before = replies.drop_last();
        let reply = replies[replies.len() - 1];
        assert(!(reply is Failed));
        assert(reply matches Reply::Listed(page) ==> page.is_truncated ==> page.next is Some);
        assert forall|i: int| 0 <= i < before.len() implies !((#[trigger] before[i]) is Failed) by {
            assert(!(replies[i] is Failed));
        }
        assert forall|i: int| 0 <= i < before.len() implies ((
        #[trigger] before[i]) matches Reply::Listed(page) ==> page.is_truncated
            ==> page.next is Some) by {
            assert(replies[i] == before[i]);
        }
        law_a_run_fails_only_by_a_failure(query, before);
        lemma_is_on_course(query, before);
        match (run(query, before), reply) {
            (ProduceView::List(at), Reply::Listed(page)) => {
                lemma_next_object(query, page, 0);
            },
            (ProduceView::Add(at), Reply::Added(_)) => {
                lemma_next_object(query, at.page, at.index + 1);
            },
            _ => {},
        }
    }
}

/// The answers to the objects of a page when each can be read, as `data` says, and added.
pub open spec fn object_replies(
    objects: Seq<ObjectView>,
    data: spec_fn(Seq<char>) -> Seq<u8>,
) -> Seq<Reply>
    decreases objects.len(),
{
    if objects.len() == 0 {
        Seq::empty()
    } else if objects.last().is_dir {
        object_replies(objects.drop_last(), data)
    } else {
        object_replies(objects.drop_last(), data).push(Reply::Opened).push(
            Reply::Added(data(objects.last().name)),
        )
    }
}

/// The answers to a listing of `pages` when nothing fails.
pub open spec fn listing_replies(
    pages: Seq<PageView>,
    data: spec_fn(Seq<char>) -> Seq<u8>,
) -> Seq<Reply>
    decreases pages.len(),
{
    if pages.len() == 0 {
        Seq::empty()
    } else {
        listing_replies(pages.drop_last(), data).push(Reply::Listed(pages.last()))
            + object_replies(pages.last().objects, data)
    }
}

/// The entries of the objects of a page that are no directories.
spec fn page_entries(
    query: DownloadZipQueryView,
    objects: Seq<ObjectView>,
    data: spec_fn(Seq<char>) -> Seq<u8>,
) -> Seq<ArchiveEntry> {
    objects.filter(|object: ObjectView| !object.is_dir).map_values(
        |object: ObjectView|
            ArchiveEntry {
                name: entry_name(query.prefix, object.name),
                method: query.method,
                data: data(object.name),
            },
    )
}

proof fn lemma_page_entries_push(
    query: DownloadZipQueryView,
    objects: Seq<ObjectView>,
    n: int,
    data: spec_fn(Seq<char>) -> Seq<u8>,
)
    requires
        0 <= n < objects.len(),
    ensures
        page_entries(query, objects.take(n + 1), data) == (if objects[n].is_dir {
            page_entries(query, objects.take(n), data)
        } else {
            page_entries(query, objects.take(n), data).push(
                ArchiveEntry {
                    name: entry_name(query.prefix, objects[n].name),
                    method: query.method,
                    data: data(objects[n].name),
                },
            )
        }),
{
    reveal(Seq::filter);
    assert(objects.take(n + 1).drop_last() =~= objects.take(n));
    assert(objects.take(n + 1).last() == objects[n]);
    let keep = |object: ObjectView| !object.is_dir;
    let kept = objects.take(n).filter(keep);
    assert(objects.take(n + 1).filter(keep) == (if objects[n].is_dir {
        kept
    } else {
        kept.push(objects[n])
    }));
    let entry = |object: ObjectView|
        ArchiveEntry {
            name: entry_name(query.prefix, object.name),
            method: query.method,
            data: data(object.name),
        };
    assert(kept.push(objects[n]).map_values(entry) =~= kept.map_values(entry).push(
        entry(objects[n]),
    ));
}

/// The objects of a page that was just listed, up to the `n`th, are worked off one by one.
proof fn lemma_objects_go_well(
    query: DownloadZipQueryView,
    replies: Seq<Reply>,
    page: PageView,
    n: int,
    data: spec_fn(Seq<char>) -> Seq<u8>,
)
    requires
        0 <= n <= page.objects.len(),
        run(query, replies) == next_object(query, page, 0),
    ensures
        ({
            let now = replies + object_replies(page.objects.take(n), data);
            &&& run(query, now) == next_object(query, page, n)
            &&& archive(query, now) == archive(query, replies) + page_entries(
                query,
                page.objects.take(n),
                data,
            )
        }),
    decreases n,
{
    let now = replies + object_replies(page.objects.take(n), data);
    if n == 0 {
        assert(page.objects.take(0) =~= Seq::empty());
        assert(now =~= replies);
        reveal(Seq::filter);
        assert(page_entries(query, page.objects.take(0), data) =~= Seq::empty());
        assert(archive(query, replies) + Seq::<ArchiveEntry>::empty() =~= archive(query, replies));
    } else {
        let m = n - 1;
        lemma_objects_go_well(query, replies, page, m, data);
        lemma_page_entries_push(query, page.objects, m, data);
        let before = replies + object_replies(page.objects.take(m), data);
        assert(page.objects.take(n).drop_last() =~= page.objects.take(m));
        assert(page.objects.take(n).last() == page.objects[m]);
        if !page.objects[m].is_dir {
            let at = AtObject { query, page, index: m };
            let opened = before.push(Reply::Opened);
            let added = opened.push(Reply::Added(data(page.objects[m].name)));
            assert(now =~= added);
            assert(opened.drop_last() =~= before);
            assert(added.drop_last() =~= opened);
            assert(run(query, before) == ProduceView::Open(at));
            assert(run(query, opened) == ProduceView::Add(at));
            assert(archive(query, opened) == archive(query, before));
            assert(archive(query, added) =~= archive(query, replies) + page_entries(
                query,
                page.objects.take(n),
                data,
            ));
        }
    }
}

proof fn lemma_pages_go_well(
    query: DownloadZipQueryView,
    pages: Seq<PageView>,
    data: spec_fn(Seq<char>) -> Seq<u8>,
)
    requires
        forall|i: int|
            0 <= i < pages.len() - 1 ==> (#[trigger] pages[i]).is_truncated && pages[i].next is Some,
    ensures
        run(query, listing_replies(pages, data)) == (if pages.len() == 0 {
            first(query)
        } else {
            after_page(query, pages.last())
        }),
        archive(query, listing_replies(pages, data)) == pages.map_values(
            |page: PageView| page_entries(query, page.objects, data),
        ).flatten(),
    decreases pages.len(),
{
    let entries = |page: PageView| page_entries(query, page.objects, data);
    if pages.len() == 0 {
        assert(pages.map_values(entries) =~= Seq::empty());
        assert(pages.map_values(entries).flatten() =~= Seq::empty());
    } else {
        let before = pages.drop_last();
        let page = pages.last();
        assert forall|i: int| 0 <= i < before.len() - 1 implies (#[trigger] before[i]).is_truncated
            && before[i].next is Some by {
            assert(pages[i].is_truncated && pages[i].next is Some);
        }
        lemma_pages_go_well(query, before, data);
        if before.len() > 0 {
            assert(pages[before.len() - 1].is_truncated && pages[before.len() - 1].next is Some);
        }
        let replies = listing_replies(before, data);
        let listed = replies.push(Reply::Listed(page));
        assert(listed.drop_last() =~= replies);
        assert(run(query, listed) == next_object(query, page, 0));
        assert(archive(query, listed) == archive(query, replies));
        lemma_objects_go_well(query, listed, page, page.objects.len() as int, data);
        assert(page.objects.take(page.objects.len() as int) =~= page.objects);
        before.map_values(entries).lemma_flatten_push(entries(page));
        assert(before.map_values(entries).push(entries(page)) =~= pages.map_values(entries));
    }
}

/// A run in which nothing fails, over pages that each name the next one up to one that is not
/// truncated, reaches the end of the archive; and the archive then holds, page by page and in order,
/// an entry for every object that is no directory, under its entry name, with the method of the query
/// and all the data of the object.
pub proof fn law_a_run_without_failure_archives_every_object(
    query: DownloadZipQueryView,
    pages: Seq<PageView>,
    data: spec_fn(Seq<char>) -> Seq<u8>,
)
    requires
        pages.len() > 0,
        forall|i: int|
            0 <= i < pages.len() - 1 ==> (#[trigger] pages[i]).is_truncated && pages[i].next is Some,
        !pages.last().is_truncated,
    ensures
        run(query, listing_replies(pages, data)) is Finish,
        run(query, listing_replies(pages, data).push(Reply::Finished)) is Done,
        archive(query, listing_replies(pages, data)) == pages.map_values(
            |page: PageView|
                page.objects.filter(|object: ObjectView| !object.is_dir).map_values(
                    |object: ObjectView|
                        ArchiveEntry {
                            name: entry_name(query.prefix, object.name),
                            method: query.method,
                            data: data(object.name),
                        },
                ),
        ).flatten(),
{
    lemma_pages_go_well(query, pages, data);
    let replies = listing_replies(pages, data);
    assert(replies.push(Reply::Finished).drop_last() =~= replies);
    let entries = |page: PageView| page_entries(query, page.objects, data);
    let plain = |page: PageView|
        page.objects.filter(|object: ObjectView| !object.is_dir).map_values(
            |object: ObjectView|
                ArchiveEntry {
                    name: entry_name(query.prefix, object.name),
                    method: query.method,
                    data: data(object.name),
                },
        );
    assert(pages.map_values(entries) =~= pages.map_values(plain));
}

/// Objects, pages and requests show their fields.
pub proof fn law_listings_show_their_fields(
    object: ObjectInfo,
    page: ObjectPage,
    i: int,
    list: ListRequest,
    read: ReadRequest,
)
    ensures
        object@.name == object.name@,
        object@.is_dir == object.is_dir,
        page@.objects.len() == page.objects@.len(),
        0 <= i < page.objects@.len() ==> page@.objects[i].name == page.objects@[i].name@,
        0 <= i < page.objects@.len() ==> page@.objects[i].is_dir == page.objects@[i].is_dir,
        page@.is_truncated == page.is_truncated,
        page@.next is None <==> page.next_continuation_token is None,
        page.next_continuation_token matches Some(token) ==> page@.next == Some(token@),
        list@.bucket == list.bucket@ && list@.prefix == list.prefix@,
        list@.max_keys == list.max_keys,
        read@.bucket == read.bucket@ && read@.key == read.key@,
        read@.range == read.range,
{
}

/// A step shows which step it is and, of a failed run, the message.
pub proof fn law_a_run_step_shows_what_it_is(step: ProduceStep)
    ensures
        step matches ProduceStep::List(s) ==> step@ == ProduceView::List(s@),
        step matches ProduceStep::Open(s) ==> step@ == ProduceView::Open(s@),
        step matches ProduceStep::Add(s) ==> step@ == ProduceView::Add(s@),
        step is Finish <==> step@ is Finish,
        step is Done <==> step@ is Done,
        step matches ProduceStep::Failed(message) ==> step@ == ProduceView::Failed(message@),
{
}

} // verus!
