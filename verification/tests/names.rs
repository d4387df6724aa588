use zip_download::names::{download_filename, entry_name_for};
use zip_download::text::{
    has_prefix, is_control, same_text, segment_after_last_slash, strip_prefix_or_keep, trim_end, trim_start,
};

#[test]
fn entry_name_uses_last_prefix_segment_as_root() {
    assert_eq!(entry_name_for("p/", "p/a.txt"), "p/a.txt");
    assert_eq!(entry_name_for("p/", "p/sub/b.txt"), "p/sub/b.txt");
    assert_eq!(entry_name_for("a/b/c/", "a/b/c/d.txt"), "c/d.txt");
    assert_eq!(entry_name_for("p", "p/a.txt"), "p/a.txt");
    assert_eq!(entry_name_for("", "x.txt"), "x.txt");
}

#[test]
fn download_filename_strips_unsafe_chars() {
    assert_eq!(download_filename("a/b/c/"), "c");
    assert_eq!(download_filename(""), "download");
    assert_eq!(download_filename("we\"ird/"), "weird");
}

#[test]
fn entry_name_ignores_slashes_at_the_end_of_the_prefix() {
    assert_eq!(entry_name_for("a/b///", "a/b/c"), entry_name_for("a/b", "a/b/c"));
    assert_eq!(entry_name_for("a/b///", "a/b/c"), "b/c");
    assert_eq!(download_filename("a/b///"), "b");
}

#[test]
fn entry_name_of_a_prefix_of_slashes_has_no_root() {
    assert_eq!(entry_name_for("/", "/x/y.txt"), "x/y.txt");
    assert_eq!(entry_name_for("//", "x.txt"), "x.txt");
    assert_eq!(download_filename("//"), "download");
}

#[test]
fn entry_name_keeps_a_key_outside_the_prefix_whole() {
    assert_eq!(entry_name_for("p/", "other/c.txt"), "p/other/c.txt");
    assert_eq!(entry_name_for("p/", "/other/c.txt"), "p/other/c.txt");
}

#[test]
fn entry_name_cuts_a_prefix_that_ends_inside_a_segment() {
    assert_eq!(entry_name_for("a/b", "a/bc/d"), "b/c/d");
}

#[test]
fn entry_name_drops_slashes_before_the_path() {
    assert_eq!(entry_name_for("p/", "p//a.txt"), "p/a.txt");
    assert_eq!(entry_name_for("p/", "p/"), "p/");
    assert_eq!(entry_name_for("p/", "p"), "p/");
}

#[test]
fn entry_name_handles_characters_beyond_ascii() {
    assert_eq!(entry_name_for("données/été/", "données/été/a b/ü.txt"), "été/a b/ü.txt");
    assert_eq!(download_filename("données/été/"), "été");
}

#[test]
fn entry_names_of_different_objects_differ() {
    assert_ne!(entry_name_for("p/", "p/a/b"), entry_name_for("p/", "p/ab"));
    assert_ne!(entry_name_for("", "a"), entry_name_for("", "b"));
}

#[test]
fn entry_names_are_relative_and_below_the_root() {
    for prefix in ["", "/", "p", "p/", "/p/q/"] {
        for key in ["", "/", "p", "/p/q/r", "x//y", "//z"] {
            let name = entry_name_for(prefix, key);
            assert!(!name.starts_with('/'), "{prefix} {key}");
            if prefix == "/p/q/" {
                assert!(name.starts_with("q/"));
            }
        }
    }
}

#[test]
fn filename_drops_control_characters_quotes_and_backslashes() {
    assert_eq!(download_filename("x/a\u{0}b\tc\nd\u{7f}e\u{85}f\"g\\h/"), "abcdefgh");
    assert_eq!(download_filename("\"\\/"), "");
}

#[test]
fn control_characters_are_those_of_unicode() {
    for code in 0..=0x10ffffu32 {
        if let Some(c) = char::from_u32(code) {
            assert_eq!(is_control(c), c.is_control(), "{code:x}");
        }
    }
}

#[test]
fn text_functions_agree_with_str() {
    let texts = ["", "/", "//", "a", "a/", "/a", "a/b", "/a//b//", "é/ü/", "aé", "a/é"];
    for s in texts {
        assert_eq!(trim_end(s), s.trim_end_matches('/'));
        assert_eq!(trim_start(s), s.trim_start_matches('/'));
        assert_eq!(segment_after_last_slash(s), s.rsplit('/').next().unwrap_or(""));
        for t in texts {
            assert_eq!(has_prefix(s, t), s.starts_with(t));
            assert_eq!(strip_prefix_or_keep(s, t), s.strip_prefix(t).unwrap_or(s));
            assert_eq!(same_text(s, t), s == t);
        }
    }
}
