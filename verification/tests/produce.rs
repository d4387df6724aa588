use zip_download::produce::{produce_zip, ListRequest, ObjectInfo, ObjectPage, ProduceStep, ReadOptions, ReadRequest};
use zip_download::query::DownloadZipQuery;
use zip_download::zip_stream::ZipStreamMethod;

/// Objects in the order of their keys, listed in pages of `page_size`.
struct FakeStore {
    objects: Vec<(&'static str, &'static [u8])>,
    page_size: usize,
    listings: Vec<ListRequest>,
    reads: Vec<ReadRequest>,
}

impl FakeStore {
    fn new(objects: &[(&'static str, &'static [u8])], page_size: usize) -> Self {
        FakeStore { objects: objects.to_vec(), page_size, listings: Vec::new(), reads: Vec::new() }
    }

    fn list(&mut self, request: ListRequest) -> ObjectPage {
        let start: usize = request.continuation.as_ref().map(|t| t.parse().unwrap()).unwrap_or(0);
        let found: Vec<&str> =
            self.objects.iter().map(|o| o.0).filter(|k| k.starts_with(&request.prefix)).collect();
        let end = found.len().min(start + self.page_size);
        self.listings.push(request);
        ObjectPage {
            objects: found[start..end]
                .iter()
                .map(|k| ObjectInfo { name: k.to_string(), is_dir: k.ends_with('/') })
                .collect(),
            is_truncated: end < found.len(),
            next_continuation_token: if end < found.len() { Some(end.to_string()) } else { None },
        }
    }

    fn get(&mut self, request: ReadRequest) -> Vec<u8> {
        let data = self.objects.iter().find(|o| o.0 == request.key).unwrap().1.to_vec();
        self.reads.push(request);
        data
    }
}

fn query(prefix: &str, method: ZipStreamMethod) -> DownloadZipQuery {
    DownloadZipQuery { bucket: "dltest".to_string(), prefix: prefix.to_string(), method }
}

type Entry = (String, ZipStreamMethod, Vec<u8>);

fn produce(store: &mut FakeStore, query: DownloadZipQuery) -> Result<Vec<Entry>, String> {
    let mut archive: Vec<Entry> = Vec::new();
    let mut data = Vec::new();
    let mut step = produce_zip(query);
    loop {
        step = match step {
            ProduceStep::List(s) => {
                let page = store.list(s.request());
                s.listed(page)
            }
            ProduceStep::Open(s) => {
                data = store.get(s.request());
                s.opened()
            }
            ProduceStep::Add(s) => {
                archive.push((s.name().to_string(), s.method(), data.clone()));
                s.added()
            }
            ProduceStep::Finish(s) => s.finished(),
            ProduceStep::Done => return Ok(archive),
            ProduceStep::Failed(message) => return Err(message),
        };
    }
}

#[test]
fn produce_zip_archives_only_the_prefix() {
    let mut store = FakeStore::new(
        &[("other/c.txt", b"charlie"), ("p/a.txt", b"alpha"), ("p/sub/b.txt", b"bravo")],
        1000,
    );
    let archive = produce(&mut store, query("p/", ZipStreamMethod::Stored)).expect("produce_zip ok");
    let names: Vec<String> = archive.iter().map(|e| e.0.clone()).collect();
    assert!(names.contains(&"p/a.txt".to_string()), "names: {names:?}");
    assert!(names.contains(&"p/sub/b.txt".to_string()), "names: {names:?}");
    assert!(!names.iter().any(|n| n.contains("other")), "prefix leak: {names:?}");
    assert_eq!(archive[0].2, b"alpha");
}

#[test]
fn pages_are_listed_in_turn_and_directories_left_out() {
    let mut store = FakeStore::new(
        &[("q/p/", b""), ("q/p/1", b"1"), ("q/p/2/", b""), ("q/p/3", b"3"), ("q/p/4", b"4"), ("q/p/5/", b"")],
        2,
    );
    let archive = produce(&mut store, query("q/p", ZipStreamMethod::Deflate)).unwrap();
    assert_eq!(
        archive,
        vec![
            ("p/1".to_string(), ZipStreamMethod::Deflate, b"1".to_vec()),
            ("p/3".to_string(), ZipStreamMethod::Deflate, b"3".to_vec()),
            ("p/4".to_string(), ZipStreamMethod::Deflate, b"4".to_vec()),
        ]
    );
    let asked = |continuation: Option<&str>| ListRequest {
        bucket: "dltest".to_string(),
        prefix: "q/p".to_string(),
        continuation: continuation.map(|t| t.to_string()),
        delimiter: None,
        max_keys: 1000,
        fetch_owner: false,
        start_after: None,
        include_deleted: false,
    };
    assert_eq!(store.listings, vec![asked(None), asked(Some("2")), asked(Some("4"))]);
    let read = |key: &str| ReadRequest {
        bucket: "dltest".to_string(),
        key: key.to_string(),
        range: None,
        headers: vec![],
        options: ReadOptions::Default,
    };
    assert_eq!(store.reads, vec![read("q/p/1"), read("q/p/3"), read("q/p/4")]);
}

#[test]
fn empty_listing_finishes_an_empty_archive() {
    let mut store = FakeStore::new(&[], 2);
    assert_eq!(produce(&mut store, query("p/", ZipStreamMethod::Stored)).unwrap(), vec![]);
    assert_eq!(store.listings.len(), 1);
}

fn one_file() -> ObjectPage {
    ObjectPage {
        objects: vec![ObjectInfo { name: "p/a".to_string(), is_dir: false }],
        is_truncated: false,
        next_continuation_token: None,
    }
}

fn listing() -> ProduceStep {
    produce_zip(query("p/", ZipStreamMethod::Stored))
}

fn opening() -> ProduceStep {
    match listing() {
        ProduceStep::List(s) => s.listed(one_file()),
        _ => panic!("no listing"),
    }
}

fn adding() -> ProduceStep {
    match opening() {
        ProduceStep::Open(s) => s.opened(),
        _ => panic!("nothing to open"),
    }
}

fn finishing() -> ProduceStep {
    match adding() {
        ProduceStep::Add(s) => s.added(),
        _ => panic!("nothing to add"),
    }
}

fn message(step: ProduceStep) -> String {
    match step {
        ProduceStep::List(s) => message(s.failed("E")),
        ProduceStep::Open(s) => message(s.failed("E")),
        ProduceStep::Add(s) => message(s.failed("E")),
        ProduceStep::Finish(s) => message(s.failed("E")),
        ProduceStep::Done => "done".to_string(),
        ProduceStep::Failed(text) => text,
    }
}

#[test]
fn failures_say_what_failed() {
    assert_eq!(message(listing()), "list_objects_v2 failed: E");
    assert_eq!(message(opening()), "get_object_reader(p/a) failed: E");
    assert_eq!(message(adding()), "zip add(p/a) failed: E");
    assert_eq!(message(finishing()), "zip finish failed: E");
}

#[test]
fn listing_ends_with_the_page_that_is_not_truncated() {
    for token in [Some("t".to_string()), None] {
        let ProduceStep::List(s) = listing() else { panic!("no listing") };
        let page = ObjectPage { objects: vec![], is_truncated: false, next_continuation_token: token };
        assert!(matches!(s.listed(page), ProduceStep::Finish(_)));
    }
    let ProduceStep::List(s) = listing() else { panic!("no listing") };
    let page = ObjectPage { objects: vec![], is_truncated: true, next_continuation_token: Some("t".to_string()) };
    let ProduceStep::List(s) = s.listed(page) else { panic!("no second page") };
    assert_eq!(s.request().continuation, Some("t".to_string()));
}

#[test]
fn truncated_page_without_a_token_fails_the_run() {
    let ProduceStep::List(s) = listing() else { panic!("no listing") };
    let page = ObjectPage { is_truncated: true, ..one_file() };
    let ProduceStep::Open(s) = s.listed(page) else { panic!("nothing to open") };
    let ProduceStep::Add(s) = s.opened() else { panic!("nothing to add") };
    let ProduceStep::Failed(text) = s.added() else { panic!("the run goes on") };
    assert_eq!(text, "list_objects_v2 failed: truncated page without a token");
}
