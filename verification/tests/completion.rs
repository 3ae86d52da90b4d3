use sidewire::completion::{
    command_context, common_completion_prefix, complete_home, complete_path, complete_programs,
    completion_plan, completion_token_start, environ_value, search_path, DirEntry, DirectoryCache,
    Place, Source,
};
use sidewire::order::{is_less, sort_keys, SortKey};
use sidewire::table::Table;
use sidewire::text::{
    char_width, chars_of, count_within, decimal_string, equal_ignoring_case, lines_of, pieces,
    printed_text, read_unsigned, split_chars, string_of, trimmed,
};
use sidewire::utf16::{encode_utf16, from_utf16_lossy};

#[test]
fn finds_path_token_after_shell_separator() {
    let line = "echo ok && cd /sys/cl";
    assert_eq!(completion_token_start(line, line.len()), 14);
}

#[test]
fn skips_opening_quote_in_path_token() {
    let line = "cat \"foo bar/ba";
    assert_eq!(completion_token_start(line, line.len()), 5);
}

#[test]
fn finds_common_candidate_prefix() {
    let values = vec!["class/".into(), "classes.dex".into()];
    assert_eq!(common_completion_prefix(&values), "class");
}

#[test]
fn detects_command_position_after_separator() {
    let line = "echo ok && getpr";
    let start = completion_token_start(line, line.len());
    assert_eq!(command_context(line, start), (true, None));
}

#[test]
fn detects_cd_argument_context() {
    let line = "cd /sys/cl";
    let start = completion_token_start(line, line.len());
    assert_eq!(command_context(line, start), (false, Some("cd")));
}

fn entry(name: &str, is_dir: bool) -> DirEntry {
    DirEntry { name: name.to_string(), is_dir }
}

#[test]
fn a_path_is_completed() {
    let line = "cd /sys/cl";
    let plan = completion_plan(line, line.len() as u32);
    assert_eq!((plan.start, plan.cursor), (3, 10));
    match plan.source {
        Source::Directory { text, needle, place, directory_only } => {
            assert_eq!(text, "/sys/");
            assert_eq!(needle, "cl");
            assert!(matches!(place, Place::Absolute));
            assert!(directory_only);
            let entries = vec![entry("class", true), entry("clock", false), entry("bus", true)];
            let result = complete_path(line, 3, 10, &text, &needle, directory_only, &entries);
            assert_eq!(result.line, "cd /sys/class/");
            assert_eq!(result.cursor, 14);
            assert_eq!(result.candidates, vec!["/sys/class/"]);
            assert_eq!(result.candidate_count, 1);
        }
        other => panic!("{other:?}"),
    }
}

#[test]
fn programs_are_completed_from_the_search_path() {
    assert_eq!(search_path("/a::/b"), vec!["/a", "/b"]);
    let line = "ls; getp";
    let plan = completion_plan(line, line.len() as u32);
    assert!(matches!(plan.source, Source::Programs));
    let listings = vec![
        vec![entry("getprop", false), entry("getpid", false)],
        vec![entry("getprop", false), entry("ls", false)],
    ];
    let result = complete_programs(line, &plan, &listings);
    assert_eq!(result.candidates, vec!["getpid", "getprop"]);
    assert_eq!(result.line, "ls; getp");
    assert_eq!(result.candidate_count, 2);
}

#[test]
fn the_home_directory_is_completed() {
    let line = "cat ~";
    let plan = completion_plan(line, 5);
    assert!(matches!(plan.source, Source::Home));
    let result = complete_home(line, plan.start, plan.cursor);
    assert_eq!(result.line, "cat ~/");
    match completion_plan("cat ~/a/b", 9).source {
        Source::Directory { place: Place::Home(rest), needle, .. } => {
            assert_eq!(rest, "a/");
            assert_eq!(needle, "b");
        }
        other => panic!("{other:?}"),
    }
}

#[test]
fn environments_are_read() {
    let data = b"PATH=/bin\0HOME=/data\0\xff=x\0";
    assert_eq!(environ_value(data, "HOME").as_deref(), Some("/data"));
    assert_eq!(environ_value(data, "HOM"), None);
}

#[test]
fn directory_listings_are_kept_for_a_moment() {
    let mut cache = DirectoryCache::new();
    cache.store("/a".to_string(), 1000, vec![entry("x", true)]);
    assert_eq!(cache.lookup("/a", 750_001_000).unwrap().len(), 1);
    assert!(cache.lookup("/a", 750_001_001).is_none());
    assert!(cache.lookup("/b", 1000).is_none());
    for i in 0..64 {
        cache.store(format!("/{i}"), 1000, Vec::new());
    }
    assert!(cache.listings.len() <= 64);
    assert!(cache.lookup("/63", 1000).is_some());
}

#[test]
fn whitespace_is_what_unicode_says() {
    let spaces = [
        0x9u32, 0xa, 0xb, 0xc, 0xd, 0x20, 0x85, 0xa0, 0x1680, 0x2000, 0x2001, 0x2002, 0x2003,
        0x2004, 0x2005, 0x2006, 0x2007, 0x2008, 0x2009, 0x200a, 0x2028, 0x2029, 0x202f, 0x205f,
        0x3000,
    ];
    for n in 0..=0x10ffffu32 {
        if let Some(c) = char::from_u32(n) {
            assert_eq!(trimmed(&[c]).is_empty(), spaces.contains(&n), "{n:x}");
        }
    }
}

#[test]
fn text_basics() {
    assert_eq!(decimal_string(0), "0");
    assert_eq!(decimal_string(u64::MAX), "18446744073709551615");
    assert_eq!(read_unsigned(&chars_of("+42"), 100), Some(42));
    assert_eq!(read_unsigned(&chars_of("-1"), 100), None);
    assert_eq!(read_unsigned(&chars_of("101"), 100), None);
    assert_eq!(read_unsigned(&chars_of(""), 100), None);
    assert_eq!(string_of(&trimmed(&chars_of("\u{2003} a b\t"))), "a b");
    assert_eq!(printed_text(b" \xf0\x28 x\n"), "\u{fffd}( x");
    assert!(equal_ignoring_case("AbC", "aBc"));
    assert!(!equal_ignoring_case("É", "é"));
    assert_eq!(split_chars(&chars_of("a,,b"), ',').len(), 3);
    assert_eq!(pieces("a,,b", ','), vec!["a", "b"]);
    let lines: Vec<String> = lines_of("a\r\nb\n\nc").iter().map(|l| string_of(l)).collect();
    assert_eq!(lines, vec!["a", "b", "", "c"]);
    assert_eq!(char_width('한'), 3);
    assert_eq!(count_within(&chars_of("한b"), 3), 1);
    assert_eq!(count_within(&chars_of("한b"), 2), 0);
}

#[test]
fn utf16_round_trips() {
    for s in ["", "plain", "한글", "a\u{10000}b\u{10ffff}", "\u{ffff}\u{e000}"] {
        let wide: Vec<u16> = s.encode_utf16().collect();
        assert_eq!(encode_utf16(s), wide);
        assert_eq!(from_utf16_lossy(&wide), s);
    }
    for broken in [&[0xd800u16, 0x41][..], &[0xdc00], &[0xd800, 0xd801, 0xdc01], &[0xdbff]] {
        assert_eq!(from_utf16_lossy(broken), String::from_utf16_lossy(broken));
    }
}

#[test]
fn sorting_and_tables() {
    assert!(is_less(&['a'], &['a', 'b']));
    assert!(!is_less(&['b'], &['a', 'b']));
    let key = |name: &str, id: &str| SortKey { name: chars_of(name), id: chars_of(id) };
    assert_eq!(
        sort_keys(&[key("b", "1"), key("a", "2"), key("a", "1")]),
        vec![2, 1, 0]
    );
    let mut t: Table<u8> = Table::new();
    assert!(!t.insert("a".to_string(), 1) || t.get("a") == Some(&1));
    t.insert("b".to_string(), 2);
    t.insert("a".to_string(), 3);
    assert_eq!(t.get("a"), Some(&3));
    assert_eq!(t.get("b"), Some(&2));
    assert_eq!(t.remove("a"), Some(3));
    assert_eq!(t.remove("a"), None);
    assert_eq!(t.position("b"), Some(0));
}
