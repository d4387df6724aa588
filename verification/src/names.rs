//! Names derived from a prefix: the entries of the archive and the file that is downloaded.

use vstd::prelude::*;
use vstd::string::*;

use crate::text::{is_control, segment_after_last_slash, strip_prefix_or_keep, trim_end, trim_start};
#[allow(unused_imports)]
use crate::text::{
    is_control_char, last_segment, law_last_segment_is_all_after_the_last_slash,
    law_trim_end_drops_the_slashes_at_the_end, law_trim_start_drops_the_slashes_at_the_start,
    law_without_prefix_removes_the_prefix, trim_end_slashes, trim_start_slashes, without_prefix,
};

verus! {

/// The archive's root folder: the last segment of the prefix, slashes at its end left aside.
pub open spec fn root_folder(prefix: Seq<char>) -> Seq<char> {
    last_segment(trim_end_slashes(prefix))
}

/// The path of the object below the prefix; the whole key where it does not start with the prefix.
pub open spec fn path_below(prefix: Seq<char>, key: Seq<char>) -> Seq<char> {
    trim_start_slashes(without_prefix(key, trim_end_slashes(prefix)))
}

/// The entry name of the object `key` in the archive of `prefix`.
pub open spec fn entry_name(prefix: Seq<char>, key: Seq<char>) -> Seq<char> {
    if root_folder(prefix).len() == 0 {
        path_below(prefix, key)
    } else {
        root_folder(prefix).push('/') + path_below(prefix, key)
    }
}

/// A character that may not stand in a quoted file name.
pub open spec fn is_unsafe_char(c: char) -> bool {
    is_control_char(c) || c == '"' || c == '\\'
}

/// `s` without its unsafe characters.
pub open spec fn safe_chars(s: Seq<char>) -> Seq<char> {
    s.filter(|c: char| !is_unsafe_char(c))
}

/// The name of the downloaded file, without its extension.
pub open spec fn filename(prefix: Seq<char>) -> Seq<char> {
    safe_chars(
        if root_folder(prefix).len() == 0 {
            "download"@
        } else {
            root_folder(prefix)
        },
    )
}

/// Maps an object key to its archive entry name: the last segment of the prefix
/// becomes the archive's root folder, with the object's path below it.
pub fn entry_name_for(prefix: &str, key: &str) -> (name: String)
    ensures
        name@ == entry_name(prefix@, key@),
{
    let trimmed = trim_end(prefix);
    let root = segment_after_last_slash(trimmed);
    let rel = trim_start(strip_prefix_or_keep(key, trimmed));
    if root.is_empty() {
        rel.to_owned()
    } else {
        let mut name = root.to_owned();
        name.push('/');
        name.append(rel);
        name
    }
}

/// Derives the download filename (without extension) from the prefix's last segment.
pub fn download_filename(prefix: &str) -> (name: String)
    ensures
        name@ == filename(prefix@),
{
    let segment = segment_after_last_slash(trim_end(prefix));
    let base = if segment.is_empty() {
        "download"
    } else {
        segment
    };
    let mut name = String::new();
    let ghost mut n: int = 0;
    proof {
        reveal(Seq::filter);
        assert(base@.take(0) =~= Seq::<char>::empty());
    }
    for c in it: base.chars()
        invariant
            it.seq() == base@,
            n == it.index(),
            name@ == safe_chars(base@.take(n)),
    {
        proof {
            reveal(Seq::filter);
            assert(base@.take(n + 1).drop_last() =~= base@.take(n));
            assert(base@.take(n + 1).last() == c);
            n = n + 1;
        }
        if !is_control(c) && c != '"' && c != '\\' {
            name.push(c);
        }
    }
    assert(base@.take(n) =~= base@);
    name
}

proof fn lemma_trim_end_has_no_slash_at_end(s: Seq<char>)
    ensures
        trim_end_slashes(s).len() > 0 ==> trim_end_slashes(s).last() != '/',
    decreases s.len(),
{
    if s.len() > 0 && s.last() == '/' {
        lemma_trim_end_has_no_slash_at_end(s.drop_last());
    }
}

proof fn lemma_trim_start_has_no_slash_at_start(s: Seq<char>)
    ensures
        trim_start_slashes(s).len() > 0 ==> trim_start_slashes(s)[0] != '/',
    decreases s.len(),
{
    if s.len() > 0 && s[0] == '/' {
        lemma_trim_start_has_no_slash_at_start(s.skip(1));
    }
}

proof fn lemma_last_segment_has_no_slash(s: Seq<char>)
    ensures
        forall|i: int| 0 <= i < last_segment(s).len() ==> last_segment(s)[i] != '/',
    decreases s.len(),
{
    if s.len() > 0 && s.last() != '/' {
        let before = last_segment(s.drop_last());
        lemma_last_segment_has_no_slash(s.drop_last());
        assert forall|i: int| 0 <= i < last_segment(s).len() implies last_segment(s)[i] != '/' by {
            if i < before.len() {
                assert(last_segment(s)[i] == before[i]);
            }
        }
    }
}

/// Slashes at the end of the prefix change neither the entry names nor the filename.
pub proof fn law_slashes_at_the_end_of_the_prefix_do_not_matter(prefix: Seq<char>, key: Seq<char>)
    ensures
        entry_name(prefix.push('/'), key) == entry_name(prefix, key),
        filename(prefix.push('/')) == filename(prefix),
{
    assert(prefix.push('/').drop_last() =~= prefix);
}

/// The root folder is a single segment, and it is empty only for a prefix of nothing but slashes.
pub proof fn law_root_folder_is_one_segment(prefix: Seq<char>)
    ensures
        forall|i: int| 0 <= i < root_folder(prefix).len() ==> root_folder(prefix)[i] != '/',
        root_folder(prefix).len() == 0 <==> trim_end_slashes(prefix).len() == 0,
{
    lemma_last_segment_has_no_slash(trim_end_slashes(prefix));
    lemma_trim_end_has_no_slash_at_end(prefix);
}

/// Whatever the key, its entry stands in the root folder.
pub proof fn law_entries_stand_in_the_root_folder(prefix: Seq<char>, key: Seq<char>)
    requires
        root_folder(prefix).len() > 0,
    ensures
        root_folder(prefix).push('/').is_prefix_of(entry_name(prefix, key)),
{
    let folder = root_folder(prefix).push('/');
    assert(entry_name(prefix, key).take(folder.len() as int) =~= folder);
}

/// No entry name starts with a slash: every entry is a relative path.
pub proof fn law_entry_names_are_relative(prefix: Seq<char>, key: Seq<char>)
    ensures
        entry_name(prefix, key).len() > 0 ==> entry_name(prefix, key)[0] != '/',
{
    law_root_folder_is_one_segment(prefix);
    lemma_trim_start_has_no_slash_at_start(without_prefix(key, trim_end_slashes(prefix)));
}

/// An object `prefix/rest` is the entry `rest` in the root folder.
pub proof fn law_entry_keeps_the_path_below_the_prefix(prefix: Seq<char>, rest: Seq<char>)
    requires
        rest.len() > 0 ==> rest[0] != '/',
    ensures
        entry_name(prefix, trim_end_slashes(prefix).push('/') + rest) == (if root_folder(
            prefix,
        ).len() == 0 {
            rest
        } else {
            root_folder(prefix).push('/') + rest
        }),
{
    let trimmed = trim_end_slashes(prefix);
    let key = trimmed.push('/') + rest;
    assert(key.take(trimmed.len() as int) =~= trimmed);
    assert(key.skip(trimmed.len() as int).skip(1) =~= rest);
    assert(trim_start_slashes(rest) == rest);
    assert(trim_start_slashes(key.skip(trimmed.len() as int)) == rest);
}

/// Without a prefix, a key is its own entry name, slashes at its start left aside.
pub proof fn law_entry_name_without_prefix(key: Seq<char>)
    ensures
        entry_name(Seq::empty(), key) == trim_start_slashes(key),
{
    assert(key.skip(0) =~= key);
}

/// Two different objects below the prefix are two different entries.
pub proof fn law_different_objects_have_different_entries(
    prefix: Seq<char>,
    rest1: Seq<char>,
    rest2: Seq<char>,
)
    requires
        rest1 != rest2,
        rest1.len() > 0 ==> rest1[0] != '/',
        rest2.len() > 0 ==> rest2[0] != '/',
    ensures
        entry_name(prefix, trim_end_slashes(prefix).push('/') + rest1) != entry_name(
            prefix,
            trim_end_slashes(prefix).push('/') + rest2,
        ),
{
    law_entry_keeps_the_path_below_the_prefix(prefix, rest1);
    law_entry_keeps_the_path_below_the_prefix(prefix, rest2);
    let folder = root_folder(prefix).push('/');
    assert((folder + rest1).skip(folder.len() as int) =~= rest1);
    assert((folder + rest2).skip(folder.len() as int) =~= rest2);
}

proof fn lemma_safe_chars(s: Seq<char>)
    ensures
        forall|i: int|
            0 <= i < safe_chars(s).len() ==> !is_unsafe_char(#[trigger] safe_chars(s)[i])
                && s.contains(safe_chars(s)[i]),
    decreases s.len(),
{
    reveal(Seq::filter);
    if s.len() > 0 {
        lemma_safe_chars(s.drop_last());
        assert forall|i: int| 0 <= i < safe_chars(s).len() implies !is_unsafe_char(
            #[trigger] safe_chars(s)[i],
        ) && s.contains(safe_chars(s)[i]) by {
            if i < safe_chars(s.drop_last()).len() {
                assert(safe_chars(s)[i] == safe_chars(s.drop_last())[i]);
                let k = choose|k: int|
                    0 <= k < s.drop_last().len() && s.drop_last()[k] == safe_chars(s)[i];
                assert(s[k] == safe_chars(s)[i]);
            } else {
                assert(s[s.len() - 1] == safe_chars(s)[i]);
            }
        }
    }
}

/// A filename holds no control character, no quote, no backslash and no slash.
pub proof fn law_filename_is_safe(prefix: Seq<char>)
    ensures
        forall|i: int|
            0 <= i < filename(prefix).len() ==> !is_unsafe_char(#[trigger] filename(prefix)[i])
                && filename(prefix)[i] != '/',
{
    reveal_strlit("download");
    let root = root_folder(prefix);
    let base = if root.len() == 0 {
        "download"@
    } else {
        root
    };
    lemma_safe_chars(base);
    law_root_folder_is_one_segment(prefix);
    assert forall|i: int| 0 <= i < filename(prefix).len() implies !is_unsafe_char(
        #[trigger] filename(prefix)[i],
    ) && filename(prefix)[i] != '/' by {
        assert(base.contains(safe_chars(base)[i]));
    }
}

/// A prefix whose last segment has no unsafe character gives that segment as the filename.
pub proof fn law_filename_keeps_a_safe_segment(prefix: Seq<char>)
    requires
        root_folder(prefix).len() > 0,
        forall|i: int|
            0 <= i < root_folder(prefix).len() ==> !is_unsafe_char(#[trigger] root_folder(prefix)[i]),
    ensures
        filename(prefix) == root_folder(prefix),
{
    lemma_all_safe(root_folder(prefix));
}

proof fn lemma_all_safe(s: Seq<char>)
    requires
        forall|i: int| 0 <= i < s.len() ==> !is_unsafe_char(#[trigger] s[i]),
    ensures
        safe_chars(s) == s,
    decreases s.len(),
{
    reveal(Seq::filter);
    if s.len() > 0 {
        assert forall|i: int| 0 <= i < s.drop_last().len() implies !is_unsafe_char(
            #[trigger] s.drop_last()[i],
        ) by {
            assert(!is_unsafe_char(s[i]));
        }
        lemma_all_safe(s.drop_last());
        assert(!is_unsafe_char(s[s.len() - 1]));
        assert(s.drop_last().push(s.last()) =~= s);
    }
}

/// A prefix of nothing but slashes gives the filename `download`.
pub proof fn law_filename_without_segment(prefix: Seq<char>)
    requires
        forall|i: int| 0 <= i < prefix.len() ==> prefix[i] == '/',
    ensures
        filename(prefix) == "download"@,
    decreases prefix.len(),
{
    if prefix.len() > 0 {
        law_filename_without_segment(prefix.drop_last());
    } else {
        reveal_strlit("download");
        lemma_all_safe("download"@);
    }
}

/// The root folder is the whole last segment of the prefix, whatever stands before it and however
/// many slashes follow it.
pub proof fn law_root_folder_is_the_whole_last_segment(
    parent: Seq<char>,
    segment: Seq<char>,
    end: Seq<char>,
)
    requires
        parent.len() > 0 ==> parent.last() == '/',
        segment.len() > 0,
        forall|i: int| 0 <= i < segment.len() ==> segment[i] != '/',
        forall|i: int| 0 <= i < end.len() ==> end[i] == '/',
    ensures
        trim_end_slashes(parent + segment + end) == parent + segment,
        root_folder(parent + segment + end) == segment,
{
    assert((parent + segment).last() == segment.last());
    law_trim_end_drops_the_slashes_at_the_end(parent + segment, end);
    law_last_segment_is_all_after_the_last_slash(parent, segment);
}

/// An object under the prefix is the entry `segment/rest`: the whole last segment of the prefix,
/// one slash, and all that follows the prefix and the slashes after it.
pub proof fn law_entry_of_an_object_under_the_prefix(
    parent: Seq<char>,
    segment: Seq<char>,
    end: Seq<char>,
    gap: Seq<char>,
    rest: Seq<char>,
)
    requires
        parent.len() > 0 ==> parent.last() == '/',
        segment.len() > 0,
        forall|i: int| 0 <= i < segment.len() ==> segment[i] != '/',
        forall|i: int| 0 <= i < end.len() ==> end[i] == '/',
        forall|i: int| 0 <= i < gap.len() ==> gap[i] == '/',
        rest.len() > 0 ==> rest[0] != '/',
    ensures
        entry_name(parent + segment + end, parent + segment + gap + rest) == segment + seq!['/']
            + rest,
{
    law_root_folder_is_the_whole_last_segment(parent, segment, end);
    let key = parent + segment + gap + rest;
    assert(key =~= (parent + segment) + (gap + rest));
    law_without_prefix_removes_the_prefix(parent + segment, gap + rest, key);
    law_trim_start_drops_the_slashes_at_the_start(gap, rest);
    assert(segment.push('/') + rest =~= segment + seq!['/'] + rest);
}

/// An object outside the prefix is the entry `segment/key`: the whole last segment of the prefix, one
/// slash, and all of the key but the slashes at its start.
pub proof fn law_entry_of_an_object_outside_the_prefix(
    parent: Seq<char>,
    segment: Seq<char>,
    end: Seq<char>,
    gap: Seq<char>,
    rest: Seq<char>,
)
    requires
        parent.len() > 0 ==> parent.last() == '/',
        segment.len() > 0,
        forall|i: int| 0 <= i < segment.len() ==> segment[i] != '/',
        forall|i: int| 0 <= i < end.len() ==> end[i] == '/',
        forall|i: int| 0 <= i < gap.len() ==> gap[i] == '/',
        rest.len() > 0 ==> rest[0] != '/',
        !(parent + segment).is_prefix_of(gap + rest),
    ensures
        entry_name(parent + segment + end, gap + rest) == segment + seq!['/'] + rest,
{
    law_root_folder_is_the_whole_last_segment(parent, segment, end);
    law_without_prefix_removes_the_prefix(parent + segment, rest, gap + rest);
    law_trim_start_drops_the_slashes_at_the_start(gap, rest);
    assert(segment.push('/') + rest =~= segment + seq!['/'] + rest);
}

/// Under a prefix of nothing but slashes, or none, an object is the entry of its whole key but the
/// slashes at its start.
pub proof fn law_entry_without_a_root_folder(end: Seq<char>, gap: Seq<char>, rest: Seq<char>)
    requires
        forall|i: int| 0 <= i < end.len() ==> end[i] == '/',
        forall|i: int| 0 <= i < gap.len() ==> gap[i] == '/',
        rest.len() > 0 ==> rest[0] != '/',
    ensures
        entry_name(end, gap + rest) == rest,
{
    let none = Seq::<char>::empty();
    assert(none + end =~= end);
    law_trim_end_drops_the_slashes_at_the_end(none, end);
    assert(none + (gap + rest) =~= gap + rest);
    law_without_prefix_removes_the_prefix(none, gap + rest, none);
    law_trim_start_drops_the_slashes_at_the_start(gap, rest);
}

/// The filename is the whole last segment of the prefix but its control characters, quotes and
/// backslashes.
pub proof fn law_filename_is_the_last_segment(
    parent: Seq<char>,
    segment: Seq<char>,
    end: Seq<char>,
)
    requires
        parent.len() > 0 ==> parent.last() == '/',
        segment.len() > 0,
        forall|i: int| 0 <= i < segment.len() ==> segment[i] != '/',
        forall|i: int| 0 <= i < end.len() ==> end[i] == '/',
    ensures
        filename(parent + segment + end) == segment.filter(
            |c: char|
                (c as u32) >= 32 && !(127 <= (c as u32) < 160) && c != '"' && c != '\\',
        ),
{
    law_root_folder_is_the_whole_last_segment(parent, segment, end);
    let safe = |c: char| !is_unsafe_char(c);
    let plain = |c: char|
        (c as u32) >= 32 && !(127 <= (c as u32) < 160) && c != '"' && c != '\\';
    assert(safe =~= plain);
}

} // verus!
