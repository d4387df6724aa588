//! The query of a download request.

use url::form_urlencoded;
use vstd::prelude::*;
use vstd::string::*;

use crate::error::{S3Error, S3ErrorCode};
#[allow(unused_imports)]
use crate::error::S3ErrorView;
#[allow(unused_imports)]
use crate::text::optional_text;
use crate::text::same_text;
use crate::zip_stream::ZipStreamMethod;

verus! {

/// The pairs of names and values that `form_urlencoded::parse` reads in a query.
pub uninterp spec fn form_pairs(query: Seq<u8>) -> Seq<(Seq<char>, Seq<char>)>;

/// Reads a query in the `application/x-www-form-urlencoded` syntax.
///
/// Trusted: `form_urlencoded::parse` is a function of the bytes of the query alone. What the pairs
/// are for given bytes is left unsaid.
#[verifier::external_body]
fn parse_form(query: &[u8]) -> (pairs: Vec<(String, String)>)
    ensures
        pairs.deep_view() == form_pairs(query@),
{
    form_urlencoded::parse(query).into_owned().collect()
}

/// What to download: the objects of `bucket` under `prefix`, each compressed with `method`.
#[derive(Debug, PartialEq, Eq)]
pub struct DownloadZipQuery {
    pub bucket: String,
    pub prefix: String,
    pub method: ZipStreamMethod,
}

/// What a [`DownloadZipQuery`] asks for.
pub struct DownloadZipQueryView {
    pub bucket: Seq<char>,
    pub prefix: Seq<char>,
    pub method: ZipStreamMethod,
}

impl View for DownloadZipQuery {
    type V = DownloadZipQueryView;

    open spec fn view(&self) -> DownloadZipQueryView {
        DownloadZipQueryView { bucket: self.bucket@, prefix: self.prefix@, method: self.method }
    }
}

/// The value of the last pair named `name`, empty if there is none.
pub open spec fn last_value(pairs: Seq<(Seq<char>, Seq<char>)>, name: Seq<char>) -> Seq<char>
    decreases pairs.len(),
{
    if pairs.len() == 0 {
        Seq::empty()
    } else if pairs.last().0 == name {
        pairs.last().1
    } else {
        last_value(pairs.drop_last(), name)
    }
}

/// The method that a value of `compression` names, if any.
pub open spec fn method_named(value: Seq<char>) -> Option<ZipStreamMethod> {
    if value == "deflate"@ {
        Some(ZipStreamMethod::Deflate)
    } else if value == "stored"@ || value.len() == 0 {
        Some(ZipStreamMethod::Stored)
    } else {
        None
    }
}

/// Whether the pair asks for a compression that is not supported.
pub open spec fn is_unsupported(pair: (Seq<char>, Seq<char>)) -> bool {
    pair.0 == "compression"@ && method_named(pair.1) is None
}

/// The value of the first pair that asks for a compression that is not supported.
pub open spec fn first_unsupported(pairs: Seq<(Seq<char>, Seq<char>)>) -> Option<Seq<char>>
    decreases pairs.len(),
{
    if pairs.len() == 0 {
        None
    } else if is_unsupported(pairs[0]) {
        Some(pairs[0].1)
    } else {
        first_unsupported(pairs.skip(1))
    }
}

/// What the pairs ask for, or the error that refuses them.
pub open spec fn query_of(pairs: Seq<(Seq<char>, Seq<char>)>) -> Result<
    DownloadZipQueryView,
    S3ErrorView,
> {
    match first_unsupported(pairs) {
        Some(value) => Err(
            S3ErrorView {
                code: S3ErrorCode::InvalidArgument,
                message: "unsupported compression: "@ + value,
            },
        ),
        None => if last_value(pairs, "bucket"@).len() == 0 {
            Err(
                S3ErrorView {
                    code: S3ErrorCode::InvalidArgument,
                    message: "bucket is required"@,
                },
            )
        } else {
            Ok(
                DownloadZipQueryView {
                    bucket: last_value(pairs, "bucket"@),
                    prefix: last_value(pairs, "prefix"@),
                    method: method_named(last_value(pairs, "compression"@))->0,
                },
            )
        },
    }
}

/// The pairs of a request: those of its query, none if it has no query.
pub open spec fn request_pairs(query: Option<Seq<char>>) -> Seq<(Seq<char>, Seq<char>)> {
    match query {
        Some(text) => form_pairs(vstd::utf8::encode_utf8(text)),
        None => Seq::empty(),
    }
}

/// The method that a value of `compression` names, if any. An empty value names `Stored`.
pub fn parse_method(value: &str) -> (method: Option<ZipStreamMethod>)
    ensures
        method == method_named(value@),
{
    if same_text(value, "deflate") {
        Some(ZipStreamMethod::Deflate)
    } else if same_text(value, "stored") || value.is_empty() {
        Some(ZipStreamMethod::Stored)
    } else {
        None
    }
}

/// The first pairs, all of them supported, tell nothing of the rest.
proof fn lemma_first_unsupported(pairs: Seq<(Seq<char>, Seq<char>)>, n: int)
    requires
        0 <= n <= pairs.len(),
        forall|i: int| 0 <= i < n ==> !is_unsupported(#[trigger] pairs[i]),
    ensures
        first_unsupported(pairs) == first_unsupported(pairs.skip(n)),
    decreases n,
{
    if n > 0 {
        assert(!is_unsupported(pairs[0]));
        assert forall|i: int| 0 <= i < n - 1 implies !is_unsupported(
            #[trigger] pairs.skip(1)[i],
        ) by {
            assert(!is_unsupported(pairs[i + 1]));
        }
        lemma_first_unsupported(pairs.skip(1), n - 1);
        assert(pairs.skip(1).skip(n - 1) =~= pairs.skip(n));
    } else {
        assert(pairs.skip(0) =~= pairs);
    }
}

impl DownloadZipQuery {
    /// Reads the query of a request: `bucket`, `prefix` and `compression`.
    pub fn from_uri(query: Option<&str>) -> (parsed: Result<Self, S3Error>)
        ensures
            match parsed {
                Ok(q) => query_of(request_pairs(optional_text(query))) == Ok::<
                    DownloadZipQueryView,
                    S3ErrorView,
                >(q@),
                Err(e) => query_of(request_pairs(optional_text(query))) == Err::<
                    DownloadZipQueryView,
                    S3ErrorView,
                >(e@),
            },
    {
        let pairs: Vec<(String, String)> = match query {
            Some(text) => parse_form(text.as_bytes()),
            None => Vec::new(),
        };
        assert(query is None ==> pairs.deep_view() =~= Seq::empty());
        Self::from_pairs(&pairs)
    }

    /// Reads decoded pairs. The last pair of a name decides; an unsupported compression is refused
    /// wherever it stands, and so is a missing bucket.
    pub fn from_pairs(pairs: &Vec<(String, String)>) -> (parsed: Result<Self, S3Error>)
        ensures
            match parsed {
                Ok(q) => query_of(pairs.deep_view()) == Ok::<DownloadZipQueryView, S3ErrorView>(q@),
                Err(e) => query_of(pairs.deep_view()) == Err::<DownloadZipQueryView, S3ErrorView>(
                    e@,
                ),
            },
    {
        let ghost all = pairs.deep_view();
        let mut bucket = String::new();
        let mut prefix = String::new();
        let mut method = ZipStreamMethod::Stored;
        proof {
            reveal_strlit("bucket");
            reveal_strlit("prefix");
            reveal_strlit("compression");
            reveal_strlit("deflate");
            assert("prefix"@[0] != "bucket"@[0]);
        }
        for i in 0..pairs.len()
            invariant
                all == pairs.deep_view(),
                "bucket"@ != "prefix"@,
                "bucket"@ != "compression"@,
                "prefix"@ != "compression"@,
                bucket@ == last_value(all.take(i as int), "bucket"@),
                prefix@ == last_value(all.take(i as int), "prefix"@),
                method_named(last_value(all.take(i as int), "compression"@)) == Some(method),
                forall|k: int| 0 <= k < i ==> !is_unsupported(#[trigger] all[k]),
        {
            let (key, value) = &pairs[i];
            assert(all[i as int] == (key@, value@));
            assert(all.take(i + 1).drop_last() =~= all.take(i as int));
            assert(all.take(i + 1).last() == all[i as int]);
            if same_text(key.as_str(), "bucket") {
                bucket = value.clone();
            } else if same_text(key.as_str(), "prefix") {
                prefix = value.clone();
            } else if same_text(key.as_str(), "compression") {
                match parse_method(value.as_str()) {
                    Some(m) => {
                        method = m;
                    },
                    None => {
                        proof {
                            lemma_first_unsupported(all, i as int);
                            assert(all.skip(i as int)[0] == all[i as int]);
                        }
                        let mut message = "unsupported compression: ".to_owned();
                        message.append(value.as_str());
                        return Err(S3Error { code: S3ErrorCode::InvalidArgument, message });
                    },
                }
            }
        }
        proof {
            lemma_first_unsupported(all, all.len() as int);
            assert(all.take(all.len() as int) =~= all);
        }
        if bucket.as_str().is_empty() {
            return Err(S3Error::new(S3ErrorCode::InvalidArgument, "bucket is required"));
        }
        Ok(DownloadZipQuery { bucket, prefix, method })
    }
}

/// A pair overrides every earlier pair of its name.
pub proof fn law_the_last_pair_of_a_name_decides(
    pairs: Seq<(Seq<char>, Seq<char>)>,
    name: Seq<char>,
    value: Seq<char>,
)
    ensures
        last_value(pairs.push((name, value)), name) == value,
        forall|other: Seq<char>|
            other != name ==> last_value(pairs.push((name, value)), other) == last_value(
                pairs,
                other,
            ),
{
    assert(pairs.push((name, value)).drop_last() =~= pairs);
}

proof fn lemma_first_unsupported_push(
    pairs: Seq<(Seq<char>, Seq<char>)>,
    pair: (Seq<char>, Seq<char>),
)
    ensures
        first_unsupported(pairs.push(pair)) == match first_unsupported(pairs) {
            Some(value) => Some(value),
            None => if is_unsupported(pair) {
                Some(pair.1)
            } else {
                None
            },
        },
    decreases pairs.len(),
{
    if pairs.len() > 0 {
        lemma_first_unsupported_push(pairs.skip(1), pair);
        assert(pairs.push(pair).skip(1) =~= pairs.skip(1).push(pair));
    } else {
        assert(pairs.push(pair).skip(1) =~= Seq::empty());
        assert(first_unsupported(Seq::empty()) is None);
    }
}

/// A pair of another name than the three changes nothing.
pub proof fn law_other_names_are_ignored(
    pairs: Seq<(Seq<char>, Seq<char>)>,
    name: Seq<char>,
    value: Seq<char>,
)
    requires
        name != "bucket"@,
        name != "prefix"@,
        name != "compression"@,
    ensures
        query_of(pairs.push((name, value))) == query_of(pairs),
{
    lemma_first_unsupported_push(pairs, (name, value));
    law_the_last_pair_of_a_name_decides(pairs, name, value);
}

proof fn lemma_none_unsupported(pairs: Seq<(Seq<char>, Seq<char>)>)
    ensures
        first_unsupported(pairs) is None <==> forall|i: int|
            0 <= i < pairs.len() ==> !is_unsupported(#[trigger] pairs[i]),
    decreases pairs.len(),
{
    if pairs.len() > 0 {
        lemma_none_unsupported(pairs.skip(1));
        assert(is_unsupported(pairs[0]) || !is_unsupported(pairs[0]));
        if first_unsupported(pairs) is None {
            assert forall|i: int| 0 <= i < pairs.len() implies !is_unsupported(
                #[trigger] pairs[i],
            ) by {
                if i > 0 {
                    assert(!is_unsupported(pairs.skip(1)[i - 1]));
                }
            }
        } else if !is_unsupported(pairs[0]) {
            let k = choose|k: int|
                0 <= k < pairs.skip(1).len() && is_unsupported(#[trigger] pairs.skip(1)[k]);
            assert(is_unsupported(pairs[k + 1]));
        }
    }
}

/// A query is accepted if and only if it names a bucket and each of its compressions is supported;
/// it is refused with `InvalidArgument` otherwise.
pub proof fn law_when_a_query_is_accepted(pairs: Seq<(Seq<char>, Seq<char>)>)
    ensures
        query_of(pairs) is Ok <==> last_value(pairs, "bucket"@).len() > 0 && forall|i: int|
            0 <= i < pairs.len() ==> !is_unsupported(#[trigger] pairs[i]),
        query_of(pairs) matches Ok(query) ==> query.bucket.len() > 0,
        query_of(pairs) matches Err(error) ==> error.code == S3ErrorCode::InvalidArgument,
{
    lemma_none_unsupported(pairs);
}

/// A query that does not speak of compression asks for stored entries.
pub proof fn law_entries_are_stored_by_default(pairs: Seq<(Seq<char>, Seq<char>)>)
    requires
        forall|i: int| 0 <= i < pairs.len() ==> (#[trigger] pairs[i]).0 != "compression"@,
    ensures
        query_of(pairs) matches Ok(query) ==> query.method == ZipStreamMethod::Stored,
{
    reveal_strlit("deflate");
    lemma_no_value(pairs, "compression"@);
}

proof fn lemma_no_value(pairs: Seq<(Seq<char>, Seq<char>)>, name: Seq<char>)
    requires
        forall|i: int| 0 <= i < pairs.len() ==> (#[trigger] pairs[i]).0 != name,
    ensures
        last_value(pairs, name).len() == 0,
    decreases pairs.len(),
{
    if pairs.len() > 0 {
        assert(pairs[pairs.len() - 1].0 != name);
        assert forall|i: int| 0 <= i < pairs.drop_last().len() implies (
        #[trigger] pairs.drop_last()[i]).0 != name by {
            assert(pairs[i].0 != name);
        }
        lemma_no_value(pairs.drop_last(), name);
    }
}

proof fn lemma_last_value(pairs: Seq<(Seq<char>, Seq<char>)>, name: Seq<char>, i: int)
    requires
        0 <= i < pairs.len(),
        pairs[i].0 == name,
        forall|k: int| i < k < pairs.len() ==> (#[trigger] pairs[k]).0 != name,
    ensures
        last_value(pairs, name) == pairs[i].1,
    decreases pairs.len(),
{
    if i < pairs.len() - 1 {
        assert(pairs[pairs.len() - 1].0 != name);
        assert forall|k: int| i < k < pairs.drop_last().len() implies (
        #[trigger] pairs.drop_last()[k]).0 != name by {
            assert(pairs[k].0 != name);
        }
        lemma_last_value(pairs.drop_last(), name, i);
    }
}

/// Whatever else an accepted query holds, its bucket is the value of the last pair named `bucket`,
/// its prefix that of the last pair named `prefix`, and its method the one that the last pair named
/// `compression` names.
pub proof fn law_an_accepted_query_holds_the_last_value_of_each_name(
    pairs: Seq<(Seq<char>, Seq<char>)>,
    i: int,
)
    requires
        query_of(pairs) is Ok,
        0 <= i < pairs.len(),
        forall|k: int| i < k < pairs.len() ==> (#[trigger] pairs[k]).0 != pairs[i].0,
    ensures
        pairs[i].0 == "bucket"@ ==> query_of(pairs)->Ok_0.bucket == pairs[i].1,
        pairs[i].0 == "prefix"@ ==> query_of(pairs)->Ok_0.prefix == pairs[i].1,
        pairs[i].0 == "compression"@ && pairs[i].1 == "deflate"@ ==> query_of(pairs)->Ok_0.method
            == ZipStreamMethod::Deflate,
        pairs[i].0 == "compression"@ && pairs[i].1 != "deflate"@ ==> query_of(pairs)->Ok_0.method
            == ZipStreamMethod::Stored,
{
    lemma_last_value(pairs, pairs[i].0, i);
    lemma_none_unsupported(pairs);
    assert(!is_unsupported(pairs[i]));
}

/// What an accepted query does not speak of is left at its default: no prefix, and stored entries. A
/// bucket it does speak of.
pub proof fn law_what_an_accepted_query_holds_by_default(pairs: Seq<(Seq<char>, Seq<char>)>)
    requires
        query_of(pairs) is Ok,
    ensures
        (forall|i: int| 0 <= i < pairs.len() ==> (#[trigger] pairs[i]).0 != "prefix"@) ==> query_of(
            pairs,
        )->Ok_0.prefix.len() == 0,
        (forall|i: int| 0 <= i < pairs.len() ==> (#[trigger] pairs[i]).0 != "compression"@)
            ==> query_of(pairs)->Ok_0.method == ZipStreamMethod::Stored,
        exists|i: int| 0 <= i < pairs.len() && (#[trigger] pairs[i]).0 == "bucket"@,
        query_of(pairs)->Ok_0.bucket.len() > 0,
{
    reveal_strlit("deflate");
    if forall|i: int| 0 <= i < pairs.len() ==> (#[trigger] pairs[i]).0 != "prefix"@ {
        lemma_no_value(pairs, "prefix"@);
    }
    if forall|i: int| 0 <= i < pairs.len() ==> (#[trigger] pairs[i]).0 != "compression"@ {
        lemma_no_value(pairs, "compression"@);
    }
    if forall|i: int| 0 <= i < pairs.len() ==> (#[trigger] pairs[i]).0 != "bucket"@ {
        lemma_no_value(pairs, "bucket"@);
    }
}

/// A query is accepted if its last pair named `bucket` has a value and each of its pairs named
/// `compression` has the value `deflate`, `stored` or none.
pub proof fn law_a_query_that_names_a_bucket_is_accepted(
    pairs: Seq<(Seq<char>, Seq<char>)>,
    bucket: int,
)
    requires
        0 <= bucket < pairs.len(),
        pairs[bucket].0 == "bucket"@,
        pairs[bucket].1.len() > 0,
        forall|k: int| bucket < k < pairs.len() ==> (#[trigger] pairs[k]).0 != "bucket"@,
        forall|k: int|
            0 <= k < pairs.len() && (#[trigger] pairs[k]).0 == "compression"@ ==> pairs[k].1
                == "deflate"@ || pairs[k].1 == "stored"@ || pairs[k].1.len() == 0,
    ensures
        query_of(pairs) is Ok,
        query_of(pairs)->Ok_0.bucket == pairs[bucket].1,
{
    lemma_last_value(pairs, "bucket"@, bucket);
    assert forall|i: int| 0 <= i < pairs.len() implies !is_unsupported(#[trigger] pairs[i]) by {
    }
    lemma_none_unsupported(pairs);
}

/// The first pair named `compression` with another value than `deflate`, `stored` or none has the
/// query refused, whatever else it holds; the error names that value.
pub proof fn law_an_unsupported_compression_is_refused(
    pairs: Seq<(Seq<char>, Seq<char>)>,
    i: int,
)
    requires
        0 <= i < pairs.len(),
        pairs[i].0 == "compression"@,
        pairs[i].1 != "deflate"@,
        pairs[i].1 != "stored"@,
        pairs[i].1.len() > 0,
        forall|k: int|
            0 <= k < i && (#[trigger] pairs[k]).0 == "compression"@ ==> pairs[k].1 == "deflate"@
                || pairs[k].1 == "stored"@ || pairs[k].1.len() == 0,
    ensures
        query_of(pairs) == Err::<DownloadZipQueryView, S3ErrorView>(
            S3ErrorView {
                code: S3ErrorCode::InvalidArgument,
                message: "unsupported compression: "@ + pairs[i].1,
            },
        ),
{
    assert forall|k: int| 0 <= k < i implies !is_unsupported(#[trigger] pairs[k]) by {
    }
    lemma_first_unsupported(pairs, i);
    assert(pairs.skip(i)[0] == pairs[i]);
    assert(is_unsupported(pairs[i]));
}

/// A query with supported compressions whose last pair named `bucket` is empty, or that has none, is
/// refused: a bucket is required.
pub proof fn law_a_query_without_bucket_is_refused(pairs: Seq<(Seq<char>, Seq<char>)>)
    requires
        forall|k: int|
            0 <= k < pairs.len() && (#[trigger] pairs[k]).0 == "compression"@ ==> pairs[k].1
                == "deflate"@ || pairs[k].1 == "stored"@ || pairs[k].1.len() == 0,
        (forall|k: int| 0 <= k < pairs.len() ==> (#[trigger] pairs[k]).0 != "bucket"@) || exists|
            i: int,
        |
            0 <= i < pairs.len() && (#[trigger] pairs[i]).0 == "bucket"@ && pairs[i].1.len() == 0 && (
            forall|k: int| i < k < pairs.len() ==> (#[trigger] pairs[k]).0 != "bucket"@),
    ensures
        query_of(pairs) == Err::<DownloadZipQueryView, S3ErrorView>(
            S3ErrorView { code: S3ErrorCode::InvalidArgument, message: "bucket is required"@ },
        ),
{
    assert forall|i: int| 0 <= i < pairs.len() implies !is_unsupported(#[trigger] pairs[i]) by {
    }
    lemma_none_unsupported(pairs);
    if forall|k: int| 0 <= k < pairs.len() ==> (#[trigger] pairs[k]).0 != "bucket"@ {
        lemma_no_value(pairs, "bucket"@);
    } else {
        let i = choose|i: int|
            0 <= i < pairs.len() && (#[trigger] pairs[i]).0 == "bucket"@ && pairs[i].1.len() == 0 && (
            forall|k: int| i < k < pairs.len() ==> (#[trigger] pairs[k]).0 != "bucket"@);
        lemma_last_value(pairs, "bucket"@, i);
    }
}

/// Which value names which method.
pub proof fn law_which_values_name_a_method(value: Seq<char>)
    ensures
        method_named(value) == Some(ZipStreamMethod::Deflate) <==> value == "deflate"@,
        method_named(value) == Some(ZipStreamMethod::Stored) <==> value == "stored"@ || value.len()
            == 0,
{
    reveal_strlit("deflate");
    reveal_strlit("stored");
    assert("deflate"@.len() != "stored"@.len());
}

/// The pairs of a request are those of all the bytes of its query; a request without a query has
/// none.
pub proof fn law_the_pairs_of_a_request_are_those_of_its_query(text: Seq<char>)
    ensures
        request_pairs(Some(text)) == form_pairs(vstd::utf8::encode_utf8(text)),
        request_pairs(None).len() == 0,
{
}

/// A query shows its fields.
pub proof fn law_a_query_shows_its_fields(query: DownloadZipQuery)
    ensures
        query@.bucket == query.bucket@,
        query@.prefix == query.prefix@,
        query@.method == query.method,
{
}

} // verus!
