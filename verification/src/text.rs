//! Path text: slashes, segments and the characters that a file name may hold.
//!
//! Every function works on the characters of a string. The specification functions speak of
//! `Seq<char>`, the view of `str` and `String`.

use vstd::prelude::*;
use vstd::std_specs::iter::IteratorSpec;
use vstd::string::*;

verus! {

/// `s` without the slashes at its end.
pub open spec fn trim_end_slashes(s: Seq<char>) -> Seq<char>
    decreases s.len(),
{
    if s.len() > 0 && s.last() == '/' {
        trim_end_slashes(s.drop_last())
    } else {
        s
    }
}

/// `s` without the slashes at its start.
pub open spec fn trim_start_slashes(s: Seq<char>) -> Seq<char>
    decreases s.len(),
{
    if s.len() > 0 && s[0] == '/' {
        trim_start_slashes(s.skip(1))
    } else {
        s
    }
}

/// What follows the last slash of `s`: all of `s` if it has none.
pub open spec fn last_segment(s: Seq<char>) -> Seq<char>
    decreases s.len(),
{
    if s.len() == 0 || s.last() == '/' {
        Seq::empty()
    } else {
        last_segment(s.drop_last()).push(s.last())
    }
}

/// `s` without `prefix` at its start, or all of `s` if it does not start with `prefix`.
pub open spec fn without_prefix(s: Seq<char>, prefix: Seq<char>) -> Seq<char> {
    if prefix.is_prefix_of(s) {
        s.skip(prefix.len() as int)
    } else {
        s
    }
}

/// The control characters of Unicode: general category `Cc`.
pub open spec fn is_control_char(c: char) -> bool {
    c as u32 <= 0x1f || 0x7f <= c as u32 <= 0x9f
}

/// What an optional text holds.
pub open spec fn optional_text(text: Option<&str>) -> Option<Seq<char>> {
    match text {
        Some(t) => Some(t@),
        None => None,
    }
}

/// What an optional string holds.
pub open spec fn optional_string(text: Option<String>) -> Option<Seq<char>> {
    match text {
        Some(t) => Some(t@),
        None => None,
    }
}

/// Appends one character.
///
/// Trusted: `String::push` adds `c` at the end of the string and changes nothing else.
pub assume_specification[ String::push ](s: &mut String, c: char)
    ensures
        final(s)@ == old(s)@.push(c),
;

/// A string trimmed down to its first `end` characters, all that follow being slashes.
proof fn lemma_trim_end(s: Seq<char>, end: int)
    requires
        0 <= end <= s.len(),
        end > 0 ==> s[end - 1] != '/',
        forall|i: int| end <= i < s.len() ==> s[i] == '/',
    ensures
        trim_end_slashes(s) == s.take(end),
    decreases s.len(),
{
    if end < s.len() {
        lemma_trim_end(s.drop_last(), end);
        assert(s.drop_last().take(end) =~= s.take(end));
    } else {
        assert(s.take(end) =~= s);
    }
}

/// A string whose first `start` characters are slashes.
proof fn lemma_trim_start(s: Seq<char>, start: int)
    requires
        0 <= start <= s.len(),
        start < s.len() ==> s[start] != '/',
        forall|i: int| 0 <= i < start ==> s[i] == '/',
    ensures
        trim_start_slashes(s) == s.skip(start),
    decreases s.len(),
{
    if start > 0 {
        lemma_trim_start(s.skip(1), start - 1);
        assert(s.skip(1).skip(start - 1) =~= s.skip(start));
    } else {
        assert(s.skip(0) =~= s);
    }
}

/// A string whose last slash stands just before `start`.
proof fn lemma_last_segment(s: Seq<char>, start: int)
    requires
        0 <= start <= s.len(),
        start > 0 ==> s[start - 1] == '/',
        forall|i: int| start <= i < s.len() ==> s[i] != '/',
    ensures
        last_segment(s) == s.skip(start),
    decreases s.len(),
{
    if start < s.len() {
        lemma_last_segment(s.drop_last(), start);
        assert(s.drop_last().skip(start).push(s.last()) =~= s.skip(start));
    } else {
        assert(s.skip(start) =~= Seq::<char>::empty());
    }
}

/// Drops the slashes at the end.
pub fn trim_end<'a>(s: &'a str) -> (trimmed: &'a str)
    ensures
        trimmed@ == trim_end_slashes(s@),
{
    let len = s.unicode_len();
    let mut i: usize = 0;
    let mut end: usize = 0;
    for c in it: s.chars()
        invariant
            len == s@.len(),
            it.seq() == s@,
            i == it.index(),
            end <= i,
            end > 0 ==> s@[end - 1] != '/',
            forall|k: int| end <= k < i ==> s@[k] == '/',
    {
        i = i + 1;
        if c != '/' {
            end = i;
        }
    }
    proof {
        lemma_trim_end(s@, end as int);
    }
    s.substring_char(0, end)
}

/// Drops the slashes at the start.
pub fn trim_start<'a>(s: &'a str) -> (trimmed: &'a str)
    ensures
        trimmed@ == trim_start_slashes(s@),
{
    let len = s.unicode_len();
    let mut start: usize = 0;
    let mut leading = true;
    for c in it: s.chars()
        invariant
            len == s@.len(),
            it.seq() == s@,
            start <= it.index(),
            leading ==> start == it.index(),
            !leading ==> start < it.index() && s@[start as int] != '/',
            forall|k: int| 0 <= k < start ==> s@[k] == '/',
    {
        if leading {
            if c == '/' {
                start = start + 1;
            } else {
                leading = false;
            }
        }
    }
    proof {
        lemma_trim_start(s@, start as int);
    }
    s.substring_char(start, len)
}

/// Takes what follows the last slash.
pub fn segment_after_last_slash<'a>(s: &'a str) -> (segment: &'a str)
    ensures
        segment@ == last_segment(s@),
{
    let len = s.unicode_len();
    let mut i: usize = 0;
    let mut start: usize = 0;
    for c in it: s.chars()
        invariant
            len == s@.len(),
            it.seq() == s@,
            i == it.index(),
            start <= i,
            start > 0 ==> s@[start - 1] == '/',
            forall|k: int| start <= k < i ==> s@[k] != '/',
    {
        i = i + 1;
        if c == '/' {
            start = i;
        }
    }
    proof {
        lemma_last_segment(s@, start as int);
    }
    s.substring_char(start, len)
}

/// Whether `s` starts with `prefix`.
pub fn has_prefix(s: &str, prefix: &str) -> (found: bool)
    ensures
        found == prefix@.is_prefix_of(s@),
{
    let mut rest = s.chars();
    let ghost mut n: int = 0;
    for p in it: prefix.chars()
        invariant
            it.seq() == prefix@,
            n == it.index(),
            n <= s@.len(),
            rest.obeys_prophetic_iter_laws(),
            rest.remaining() == s@.skip(n),
            forall|k: int| 0 <= k < n ==> prefix@[k] == s@[k],
    {
        match rest.next() {
            Some(c) => {
                if c != p {
                    assert(s@.skip(n)[0] == s@[n]);
                    assert(prefix@[n] != s@[n]);
                    return false;
                }
                assert(s@.skip(n)[0] == s@[n]);
                assert(s@.skip(n).drop_first() =~= s@.skip(n + 1));
            },
            None => {
                return false;
            },
        }
        proof {
            n = n + 1;
        }
    }
    assert(prefix@ =~= s@.take(prefix@.len() as int));
    true
}

/// Removes `prefix` from the start of `s`; `s` itself where it does not start with `prefix`.
pub fn strip_prefix_or_keep<'a>(s: &'a str, prefix: &str) -> (rest: &'a str)
    ensures
        rest@ == without_prefix(s@, prefix@),
{
    if has_prefix(s, prefix) {
        let cut = prefix.unicode_len();
        let len = s.unicode_len();
        assert(s@.subrange(cut as int, len as int) =~= s@.skip(cut as int));
        s.substring_char(cut, len)
    } else {
        s
    }
}

/// Whether two strings hold the same characters.
pub fn same_text(a: &str, b: &str) -> (same: bool)
    ensures
        same == (a@ == b@),
{
    let same = a.unicode_len() == b.unicode_len() && has_prefix(a, b);
    proof {
        if same {
            assert(a@ =~= b@);
        }
    }
    same
}

/// Whether `c` is a control character.
pub fn is_control(c: char) -> (control: bool)
    ensures
        control == is_control_char(c),
{
    let code: u32 = c as u32;
    code <= 0x1f || (0x7f <= code && code <= 0x9f)
}

/// Slashes at the end are dropped, and nothing else is.
pub proof fn law_trim_end_drops_the_slashes_at_the_end(body: Seq<char>, slashes: Seq<char>)
    requires
        body.len() > 0 ==> body.last() != '/',
        forall|i: int| 0 <= i < slashes.len() ==> slashes[i] == '/',
    ensures
        trim_end_slashes(body + slashes) == body,
{
    let s = body + slashes;
    assert forall|i: int| body.len() <= i < s.len() implies s[i] == '/' by {
        assert(s[i] == slashes[i - body.len()]);
    }
    lemma_trim_end(s, body.len() as int);
    assert(s.take(body.len() as int) =~= body);
}

/// Slashes at the start are dropped, and nothing else is.
pub proof fn law_trim_start_drops_the_slashes_at_the_start(slashes: Seq<char>, body: Seq<char>)
    requires
        body.len() > 0 ==> body[0] != '/',
        forall|i: int| 0 <= i < slashes.len() ==> slashes[i] == '/',
    ensures
        trim_start_slashes(slashes + body) == body,
{
    let s = slashes + body;
    lemma_trim_start(s, slashes.len() as int);
    assert(s.skip(slashes.len() as int) =~= body);
}

/// The last segment is all that follows the last slash.
pub proof fn law_last_segment_is_all_after_the_last_slash(parent: Seq<char>, segment: Seq<char>)
    requires
        parent.len() > 0 ==> parent.last() == '/',
        forall|i: int| 0 <= i < segment.len() ==> segment[i] != '/',
    ensures
        last_segment(parent + segment) == segment,
{
    let s = parent + segment;
    assert forall|i: int| parent.len() <= i < s.len() implies s[i] != '/' by {
        assert(s[i] == segment[i - parent.len()]);
    }
    lemma_last_segment(s, parent.len() as int);
    assert(s.skip(parent.len() as int) =~= segment);
}

/// A prefix is removed whole, and alone; a string without it is kept.
pub proof fn law_without_prefix_removes_the_prefix(prefix: Seq<char>, rest: Seq<char>, other: Seq<char>)
    ensures
        without_prefix(prefix + rest, prefix) == rest,
        !prefix.is_prefix_of(other) ==> without_prefix(other, prefix) == other,
{
    let s = prefix + rest;
    assert(s.take(prefix.len() as int) =~= prefix);
    assert(s.skip(prefix.len() as int) =~= rest);
}

/// The control characters are the codes up to 1f and those from 7f to 9f.
pub proof fn law_which_characters_are_control(c: char)
    ensures
        is_control_char(c) <==> (c as u32) < 32 || 127 <= (c as u32) < 160,
{
}

/// An optional text that is there holds its characters; one that is not holds nothing.
pub proof fn law_optional_texts_keep_their_text(text: &str, string: String)
    ensures
        optional_text(Some(text)) == Some(text@),
        optional_text(None) == None::<Seq<char>>,
        optional_string(Some(string)) == Some(string@),
        optional_string(None) == None::<Seq<char>>,
{
}

} // verus!
