use vault_sync::frontmatter::{normalize_for_compare, normalize_outgoing};
use vault_sync::numbers::{i64_text, parse_u64, parse_usize, u64_text};
use vault_sync::paths::{is_within, join, strip_root, PathStyle};
use vault_sync::text::{is_white_char, segments, trim};

#[test]
fn white_space_is_what_std_says() {
    for n in 0..=0x10FFFFu32 {
        if let Some(c) = char::from_u32(n) {
            assert_eq!(is_white_char(c), c.is_whitespace(), "{n:x}");
        }
    }
    assert_eq!(trim("\u{a0} x y\t\n"), "x y");
    assert_eq!(trim("\u{a0} \t\n"), "");
}

#[test]
fn numbers_are_written_and_read() {
    for n in [0u64, 1, 9, 10, 99, 100, 1_000_000_007, u64::MAX] {
        assert_eq!(u64_text(n), n.to_string());
        assert_eq!(parse_u64(&n.to_string()), Some(n));
    }
    for n in [i64::MIN, -10, -1, 0, 7, i64::MAX] {
        assert_eq!(i64_text(n), n.to_string());
    }
    for s in ["", "+", "-", "-1", "+-1", "1 ", " 1", "1a", "18446744073709551616", "\u{661}"] {
        assert_eq!(parse_u64(s), s.parse::<u64>().ok(), "{s:?}");
        assert_eq!(parse_usize(s), s.parse::<usize>().ok(), "{s:?}");
    }
    for s in ["+7", "007", "00000000000000000000000000001"] {
        assert_eq!(parse_u64(s), s.parse::<u64>().ok(), "{s:?}");
    }
}

#[test]
fn paths_are_joined_with_one_slash() {
    assert_eq!(join("/a", "b/c.md"), "/a/b/c.md");
    assert_eq!(join("/a/", "b"), "/a/b");
    assert_eq!(join("", "b"), "b");
    assert!(is_within(PathStyle::Unix, "/a", "/a/b"));
    assert!(is_within(PathStyle::Unix, "/a", "/a"));
    assert!(!is_within(PathStyle::Unix, "/a", "/ab"));
    assert_eq!(strip_root(PathStyle::Unix, "/a", "/a/b.md"), Some("b.md".to_string()));
    assert_eq!(strip_root(PathStyle::Unix, "/a", "/ab/b.md"), None);
}

#[test]
fn volatile_fields_do_not_count() {
    let fields = vec!["updated".to_string()];
    let crlf = b"\xef\xbb\xbf---\r\nupdated: 1\r\nt: x\r\n---\r\nb\r\n";
    let lf = b"---\nupdated: 2\nt: x\n---\nb\n";
    assert_eq!(normalize_for_compare(crlf, &fields), normalize_for_compare(lf, &fields));
    assert_eq!(normalize_for_compare(b"\xff\x00", &fields), b"\xff\x00".to_vec());
    assert_eq!(
        normalize_outgoing(b"---\nupdated: 2\nt: x\n---\nb\n", &fields),
        b"---\nt: x\n---\nb\n".to_vec()
    );
}

#[test]
fn segments_come_in_order() {
    assert_eq!(segments("a/b\\c//d"), vec!["a", "b", "c", "", "d"]);
    assert_eq!(segments(""), vec![""]);
    assert_eq!(segments("/x/"), vec!["", "x", ""]);
}

#[test]
fn disk_paths_are_cut_as_their_host_cuts_them() {
    let (u, w) = (PathStyle::Unix, PathStyle::Windows);
    assert!(is_within(w, "\\\\?\\D:\\Vaults", "\\\\?\\D:\\Vaults\\sub"));
    assert!(is_within(w, "D:\\Vaults", "D:/Vaults/sub"));
    assert!(!is_within(w, "D:\\Vaults", "D:\\Vaults2"));
    assert!(!is_within(w, "\\srv\\x", "\\\\srv\\x\\y"));
    assert_eq!(strip_root(w, "D:\\Vaults", "D:\\Vaults\\a\\b.md"), Some("a\\b.md".to_string()));
    assert!(is_within(w, "d:\\Vaults", "D:\\Vaults\\a"));
    assert!(is_within(w, "\\\\?\\D:\\Vaults", "\\\\?\\d:\\Vaults\\a"));
    assert!(!is_within(w, "D:\\Vaults", "D:\\vaults\\a"));
    assert!(!is_within(w, "D:\\Vaults", "E:\\Vaults\\a"));
    assert!(!is_within(u, "d:/v", "D:/v"));
    assert!(!is_within(u, "/v", "/v\\x"));
    assert!(!is_within(u, "\\v", "\\v\\x"));
}

#[test]
fn unix_paths_compare_as_std_compares_them() {
    let roots = ["", "/", "/a", "/a/", "a", "./a", "/a/b", "/a//b/.", "."];
    let paths = [
        "", "/", "/a", "/a/", "/ab", "a", "./a", "a/b", "/a/b", "/a//b/", "/a/./b/c", "/a/b/../c",
        "a\\b", "/a\\b", ".", "./", "/a/b/c/d.md",
    ];
    for r in roots {
        for p in paths {
            let (sr, sp) = (std::path::Path::new(r), std::path::Path::new(p));
            assert_eq!(is_within(PathStyle::Unix, r, p), sp.starts_with(sr), "{r:?} {p:?}");
            if !r.is_empty() {
                let want = sp.strip_prefix(sr).ok().map(|x| x.to_string_lossy().into_owned());
                assert_eq!(strip_root(PathStyle::Unix, r, p), want, "{r:?} {p:?}");
            }
        }
    }
}
