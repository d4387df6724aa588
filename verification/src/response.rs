//! The headers of a download's response.

use http::header::{HeaderValue, InvalidHeaderValue};
use vstd::prelude::*;
use vstd::string::*;
#[allow(unused_imports)]
use vstd::utf8::{encode_scalar, encode_utf8};

use crate::error::{S3Error, S3ErrorCode};
#[allow(unused_imports)]
use crate::error::S3ErrorView;
use crate::names::download_filename;
#[allow(unused_imports)]
use crate::names::{
    filename, is_unsafe_char, law_filename_is_safe, law_filename_is_the_last_segment,
    law_filename_without_segment, law_slashes_at_the_end_of_the_prefix_do_not_matter,
};
#[allow(unused_imports)]
use crate::text::is_control_char;

verus! {

/// A byte that may stand in a header value: visible ASCII, a space, a tab, or beyond ASCII.
pub open spec fn is_header_byte(b: u8) -> bool {
    b >= 32 && b != 127 || b == 9
}

/// Whether the bytes may be a header value.
pub open spec fn is_header_text(bytes: Seq<u8>) -> bool {
    forall|i: int| 0 <= i < bytes.len() ==> is_header_byte(#[trigger] bytes[i])
}

/// The error of `http` for a text that cannot be a header value.
#[verifier::external_type_specification]
#[verifier::external_body]
pub struct ExInvalidHeaderValue(http::header::InvalidHeaderValue);

/// The bytes of the header value that `http` makes of `text`.
///
/// Trusted: `HeaderValue::from_str` accepts `text` if and only if every byte of it may stand in a
/// header value, and the value then holds the bytes of `text` unchanged.
#[verifier::external_body]
fn parse_header_value(text: &str) -> (value: Result<Vec<u8>, InvalidHeaderValue>)
    ensures
        value is Ok <==> is_header_text(text.spec_bytes()),
        value matches Ok(bytes) ==> bytes@ == text.spec_bytes(),
{
    HeaderValue::from_str(text).map(|value| value.as_bytes().to_vec())
}

/// The message of `http` for a text that cannot be a header value.
///
/// Trusted: `InvalidHeaderValue` displays as one fixed sentence.
#[verifier::external_body]
fn invalid_header_value_message(error: &InvalidHeaderValue) -> (message: String)
    ensures
        message@ == "failed to parse header value"@,
{
    error.to_string()
}

/// What a text is as a header value: its bytes, or the error that refuses it.
pub open spec fn header_value_of(text: Seq<char>) -> Result<Seq<u8>, S3ErrorView> {
    if is_header_text(encode_utf8(text)) {
        Ok(encode_utf8(text))
    } else {
        Err(
            S3ErrorView {
                code: S3ErrorCode::InternalError,
                message: "invalid filename: "@ + "failed to parse header value"@,
            },
        )
    }
}

/// Makes a header value of `text`, which holds the filename.
pub fn filename_header_value(text: &str) -> (value: Result<Vec<u8>, S3Error>)
    ensures
        match value {
            Ok(bytes) => header_value_of(text@) == Ok::<Seq<u8>, S3ErrorView>(bytes@),
            Err(error) => header_value_of(text@) == Err::<Seq<u8>, S3ErrorView>(error@),
        },
{
    match parse_header_value(text) {
        Ok(bytes) => Ok(bytes),
        Err(error) => {
            let mut message = "invalid filename: ".to_owned();
            message.append(invalid_header_value_message(&error).as_str());
            Err(S3Error { code: S3ErrorCode::InternalError, message })
        },
    }
}

/// The value of `Content-Disposition` for the archive of `prefix`.
pub open spec fn disposition(prefix: Seq<char>) -> Seq<char> {
    "attachment; filename=\""@ + filename(prefix) + ".zip\""@
}

/// Writes the value of `Content-Disposition`: an attachment named after the prefix.
pub fn content_disposition(prefix: &str) -> (value: String)
    ensures
        value@ == disposition(prefix@),
{
    let mut value = "attachment; filename=\"".to_owned();
    value.append(download_filename(prefix).as_str());
    value.append(".zip\"");
    value
}

/// A response header.
#[derive(Debug, PartialEq, Eq)]
pub struct Header {
    /// The name, in lower case.
    pub name: String,
    /// The value.
    pub value: Vec<u8>,
}

impl View for Header {
    type V = (Seq<char>, Seq<u8>);

    open spec fn view(&self) -> (Seq<char>, Seq<u8>) {
        (self.name@, self.value@)
    }
}

/// The headers of the response that carries the archive of `prefix`.
pub open spec fn archive_headers(prefix: Seq<char>) -> Seq<(Seq<char>, Seq<u8>)> {
    seq![
        ("content-type"@, encode_utf8("application/zip"@)),
        ("content-disposition"@, encode_utf8(disposition(prefix))),
        ("x-accel-buffering"@, encode_utf8("no"@)),
    ]
}

/// Makes the headers of the response that carries the archive of `prefix`.
pub fn response_headers(prefix: &str) -> (headers: Result<Vec<Header>, S3Error>)
    ensures
        headers matches Ok(list) && list@.map_values(|header: Header| header@) == archive_headers(
            prefix@,
        ),
{
    proof {
        law_disposition_is_a_header_value(prefix@);
    }
    let disposition_value = filename_header_value(content_disposition(prefix).as_str())?;
    let mut list: Vec<Header> = Vec::new();
    list.push(
        Header { name: "content-type".to_owned(), value: "application/zip".as_bytes_vec() },
    );
    list.push(Header { name: "content-disposition".to_owned(), value: disposition_value });
    list.push(Header { name: "x-accel-buffering".to_owned(), value: "no".as_bytes_vec() });
    assert(list@.map_values(|header: Header| header@) =~= archive_headers(prefix@));
    Ok(list)
}

proof fn lemma_scalar_is_header_text(c: char)
    requires
        !is_control_char(c),
    ensures
        is_header_text(encode_scalar(c as u32)),
{
    let v = c as u32;
    assert(v < 0x80 ==> (v & 0x7f) as u8 == v) by (bit_vector);
    assert(0xC0u8 | ((v >> 6) & 0x1F) as u8 >= 0x80) by (bit_vector);
    assert(0xE0u8 | ((v >> 12) & 0x0F) as u8 >= 0x80) by (bit_vector);
    assert(0xF0u8 | ((v >> 18) & 0x7) as u8 >= 0x80) by (bit_vector);
    assert(0x80u8 | (v & 0x3F) as u8 >= 0x80) by (bit_vector);
    assert(0x80u8 | ((v >> 6) & 0x3F) as u8 >= 0x80) by (bit_vector);
    assert(0x80u8 | ((v >> 12) & 0x3F) as u8 >= 0x80) by (bit_vector);
}

/// A text without control characters can be a header value.
pub proof fn law_text_without_control_is_a_header_value(text: Seq<char>)
    requires
        forall|i: int| 0 <= i < text.len() ==> !is_control_char(#[trigger] text[i]),
    ensures
        is_header_text(encode_utf8(text)),
    decreases text.len(),
{
    if text.len() > 0 {
        lemma_scalar_is_header_text(text[0]);
        assert forall|i: int| 0 <= i < text.drop_first().len() implies !is_control_char(
            #[trigger] text.drop_first()[i],
        ) by {
            assert(!is_control_char(text[i + 1]));
        }
        law_text_without_control_is_a_header_value(text.drop_first());
        let head = encode_scalar(text[0] as u32);
        let tail = encode_utf8(text.drop_first());
        assert forall|i: int| 0 <= i < encode_utf8(text).len() implies is_header_byte(
            #[trigger] encode_utf8(text)[i],
        ) by {
            if i < head.len() {
                assert(is_header_byte(head[i]));
            } else {
                assert(is_header_byte(tail[i - head.len()]));
            }
        }
    }
}

/// Whatever the prefix, its `Content-Disposition` can be a header value: no download is refused
/// for its filename.
pub proof fn law_disposition_is_a_header_value(prefix: Seq<char>)
    ensures
        is_header_text(encode_utf8(disposition(prefix))),
{
    reveal_strlit("attachment; filename=\"");
    reveal_strlit(".zip\"");
    law_filename_is_safe(prefix);
    assert forall|i: int| 0 <= i < disposition(prefix).len() implies !is_control_char(
        #[trigger] disposition(prefix)[i],
    ) by {
        let start = "attachment; filename=\""@.len();
        if start <= i < start + filename(prefix).len() {
            assert(disposition(prefix)[i] == filename(prefix)[i - start]);
        }
    }
    law_text_without_control_is_a_header_value(disposition(prefix));
}

/// The filename stands in the only pair of quotes of `Content-Disposition`, with no escapes.
pub proof fn law_disposition_quotes_the_filename_once(prefix: Seq<char>)
    ensures
        forall|i: int|
            0 <= i < disposition(prefix).len() ==> {
                &&& #[trigger] disposition(prefix)[i] != '\\'
                &&& disposition(prefix)[i] == '"' <==> i == 21 || i == disposition(prefix).len() - 1
            },
        disposition(prefix).subrange(22, disposition(prefix).len() - 5) == filename(prefix),
{
    reveal_strlit("attachment; filename=\"");
    reveal_strlit(".zip\"");
    law_filename_is_safe(prefix);
    assert forall|i: int| 0 <= i < disposition(prefix).len() implies {
        &&& #[trigger] disposition(prefix)[i] != '\\'
        &&& disposition(prefix)[i] == '"' <==> i == 21 || i == disposition(prefix).len() - 1
    } by {
        if 22 <= i < 22 + filename(prefix).len() {
            assert(disposition(prefix)[i] == filename(prefix)[i - 22]);
        }
    }
    assert(disposition(prefix).subrange(22, disposition(prefix).len() - 5) =~= filename(prefix));
}

/// The value of `Content-Disposition` is `attachment; filename="NAME.zip"`, where NAME is the whole
/// last segment of the prefix but its control characters, quotes and backslashes, whatever stands
/// before the segment and however many slashes follow it.
pub proof fn law_disposition_names_a_zip_file(
    parent: Seq<char>,
    segment: Seq<char>,
    end: Seq<char>,
)
    requires
        parent.len() > 0 ==> parent.last() == '/',
        segment.len() > 0,
        forall|i: int| 0 <= i < segment.len() ==> segment[i] != '/',
        forall|i: int| 0 <= i < end.len() ==> end[i] == '/',
    ensures
        disposition(parent + segment + end) == "attachment; filename=\""@ + segment.filter(
            |c: char|
                (c as u32) >= 32 && !(127 <= (c as u32) < 160) && c != '"' && c != '\\',
        ) + ".zip\""@,
{
    law_filename_is_the_last_segment(parent, segment, end);
}

/// For a prefix of nothing but slashes, or none, the value of `Content-Disposition` is
/// `attachment; filename="download.zip"`.
pub proof fn law_disposition_without_segment(end: Seq<char>)
    requires
        forall|i: int| 0 <= i < end.len() ==> end[i] == '/',
    ensures
        disposition(end) == "attachment; filename=\"download.zip\""@,
{
    law_filename_without_segment(end);
    reveal_strlit("attachment; filename=\"");
    reveal_strlit("download");
    reveal_strlit(".zip\"");
    reveal_strlit("attachment; filename=\"download.zip\"");
    assert(disposition(end) =~= "attachment; filename=\"download.zip\""@);
}

/// Whatever the prefix, the value of `Content-Disposition` begins with `attachment; filename="`,
/// goes on with the filename and ends with `.zip"`; a slash at the end of the prefix changes nothing.
pub proof fn law_disposition_is_an_attachment_for_every_prefix(prefix: Seq<char>)
    ensures
        "attachment; filename=\""@.is_prefix_of(disposition(prefix)),
        ".zip\""@.is_suffix_of(disposition(prefix)),
        disposition(prefix).len() == 22 + filename(prefix).len() + 5,
        disposition(prefix).subrange(22, 22 + filename(prefix).len() as int) == filename(prefix),
        disposition(prefix.push('/')) == disposition(prefix),
{
    reveal_strlit("attachment; filename=\"");
    reveal_strlit(".zip\"");
    let value = disposition(prefix);
    assert(value.take(22) =~= "attachment; filename=\""@);
    assert(value.skip(value.len() - 5) =~= ".zip\""@);
    assert(value.subrange(22, 22 + filename(prefix).len() as int) =~= filename(prefix));
    law_slashes_at_the_end_of_the_prefix_do_not_matter(prefix, prefix);
}

/// The response has exactly three headers: the type of a ZIP archive, the disposition of the prefix,
/// and the wish that proxies do not buffer.
pub proof fn law_which_headers_an_archive_has(prefix: Seq<char>)
    ensures
        archive_headers(prefix).len() == 3,
        archive_headers(prefix)[0].0 == "content-type"@,
        archive_headers(prefix)[0].1 == encode_utf8("application/zip"@),
        archive_headers(prefix)[1].0 == "content-disposition"@,
        archive_headers(prefix)[1].1 == encode_utf8(
            "attachment; filename=\""@ + filename(prefix) + ".zip\""@,
        ),
        archive_headers(prefix)[2].0 == "x-accel-buffering"@,
        archive_headers(prefix)[2].1 == encode_utf8("no"@),
{
}

/// A text whose bytes are all visible ASCII, spaces, tabs or beyond ASCII is a header value as it
/// is; any other byte, wherever it stands, has the text refused.
pub proof fn law_which_texts_are_header_values(text: Seq<char>)
    ensures
        (forall|i: int|
            0 <= i < encode_utf8(text).len() ==> {
                let b = #[trigger] encode_utf8(text)[i];
                b == 9 || 32 <= b <= 126 || 128 <= b
            }) ==> header_value_of(text) == Ok::<Seq<u8>, S3ErrorView>(encode_utf8(text)),
        (exists|i: int|
            0 <= i < encode_utf8(text).len() && {
                let b = #[trigger] encode_utf8(text)[i];
                b < 9 || 9 < b < 32 || b == 127
            }) ==> header_value_of(text) == Err::<Seq<u8>, S3ErrorView>(
            S3ErrorView {
                code: S3ErrorCode::InternalError,
                message: "invalid filename: failed to parse header value"@,
            },
        ),
{
    reveal_strlit("invalid filename: ");
    reveal_strlit("failed to parse header value");
    reveal_strlit("invalid filename: failed to parse header value");
    assert("invalid filename: "@ + "failed to parse header value"@
        =~= "invalid filename: failed to parse header value"@);
    if exists|i: int|
        0 <= i < encode_utf8(text).len() && {
            let b = #[trigger] encode_utf8(text)[i];
            b < 9 || 9 < b < 32 || b == 127
        } {
        let k = choose|i: int|
            0 <= i < encode_utf8(text).len() && {
                let b = #[trigger] encode_utf8(text)[i];
                b < 9 || 9 < b < 32 || b == 127
            };
        assert(!is_header_byte(encode_utf8(text)[k]));
    }
}

/// A header shows its name and its value.
pub proof fn law_a_header_shows_its_fields(header: Header)
    ensures
        header@.0 == header.name@,
        header@.1 == header.value@,
{
}

} // verus!
