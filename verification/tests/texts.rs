use research_ingest::bytes::{bytes_of, decode_checked, decode_lossy, decode_or_empty};
use research_ingest::numbers::{parse_u64, parse_usize};
use research_ingest::order::{not_after, sort};
use research_ingest::paths;
use research_ingest::search;
use research_ingest::split;
use research_ingest::text;
use std::path::Path;

const SAMPLES: [&str; 12] = [
    "",
    " ",
    "abc",
    "  a b  ",
    "Größe\u{a0}x\n",
    "a\r\nb\n\nc\r",
    "\n",
    "a&b==c&&",
    "ééé-ABC-\u{2028}z",
    "one two\tthree\u{3000}four",
    "aaa",
    "😀a😀",
];

#[test]
fn characters_agree_with_std() {
    let mut n = 0u32;
    while n <= 0x10ffff {
        if let Some(c) = char::from_u32(n) {
            assert_eq!(text::is_white_char(c), c.is_whitespace());
            assert_eq!(text::is_alnum_char(c), c.is_ascii_alphanumeric());
            assert_eq!(text::to_lower_char(c), c.to_ascii_lowercase());
        }
        n += 1;
    }
}

#[test]
fn texts_agree_with_std() {
    for s in SAMPLES {
        assert_eq!(text::trim(s), s.trim());
        assert_eq!(text::to_lower(s), s.to_ascii_lowercase());
        assert_eq!(text::strip_char(s, 'a'), s.trim_matches('a'));
        assert_eq!(text::strip_front(s, 'a'), s.trim_start_matches('a'));
        assert_eq!(text::clip(s, 3), s.chars().take(3).collect::<String>());
        assert_eq!(split::lines(s), s.lines().map(|l| l.to_string()).collect::<Vec<_>>());
        assert_eq!(split::words(s), s.split_whitespace().map(|l| l.to_string()).collect::<Vec<_>>());
        assert_eq!(split::split(s, '&'), s.split('&').map(|l| l.to_string()).collect::<Vec<_>>());
        assert_eq!(
            split::split_once(s, '='),
            s.split_once('=').map(|(a, b)| (a.to_string(), b.to_string()))
        );
        for p in ["a", "ab", "", "\n", "😀"] {
            assert_eq!(text::starts_with(s, p), s.starts_with(p));
            assert_eq!(text::ends_with(s, p), s.ends_with(p));
            assert_eq!(text::after_prefix(s, p), s.strip_prefix(p));
            assert_eq!(search::contains(s, p), s.contains(p));
            assert_eq!(
                search::find(s, p),
                s.find(p).map(|i| s[..i].chars().count())
            );
            if !p.is_empty() {
                assert_eq!(search::replace(s, p, "<>"), s.replace(p, "<>"));
            }
        }
        for t in SAMPLES {
            assert_eq!(text::same(s, t), s == t);
            assert_eq!(not_after(s, t), s <= t);
        }
    }
    assert_eq!(search::insert_at("aé", 1, "-"), "a-é");
    assert_eq!(text::decimal(0), "0");
    assert_eq!(text::decimal(u64::MAX), u64::MAX.to_string());
    assert_eq!(split::join(&vec!["a".to_string(), "b".to_string()], ", "), "a, b");
}

#[test]
fn sorting_agrees_with_std() {
    let v: Vec<String> = ["b", "a", "ä", "Z", "", "a", "ab"].iter().map(|s| s.to_string()).collect();
    let mut w = v.clone();
    w.sort();
    assert_eq!(sort(v), w);
}

#[test]
fn bytes_as_text() {
    assert_eq!(decode_lossy("aé".as_bytes()), "aé");
    assert_eq!(decode_lossy(&[b'a', 0xff, b'b']), "a\u{fffd}b");
    assert_eq!(decode_or_empty(&[b'a', 0xff]), "");
    assert_eq!(decode_or_empty("é".as_bytes()), "é");
    assert_eq!(decode_checked(&[0xc3]), None);
    assert_eq!(decode_checked(b"x"), Some("x"));
    assert_eq!(bytes_of("é"), vec![0xc3, 0xa9]);
}

#[test]
fn numbers_are_read_back() {
    for n in [0u64, 7, 10, 99, 12_345, u64::MAX] {
        assert_eq!(parse_u64(&text::decimal(n)), Some(n));
    }
    for s in ["", "+", "+5", "05", "-1", "1a", " 1", "18446744073709551615", "18446744073709551616", "99999999999999999999999"] {
        assert_eq!(parse_u64(s), s.parse::<u64>().ok(), "{s}");
        assert_eq!(parse_usize(s), s.parse::<usize>().ok(), "{s}");
    }
}

#[test]
fn paths_agree_with_std() {
    let all = [
        "", "/", "a", "a/", "/a", "a/b.txt", "a/b.tar.gz", ".", "..", "./a", "a/.", "a/..", "a//b",
        "/a/./b", ".hidden", "a/.hidden.txt", "a.", "..x", "é/ü.md", "//a", "a/b/",
    ];
    for a in all {
        let p = Path::new(a);
        assert_eq!(paths::file_name(a), p.file_name().map(|s| s.to_string_lossy().into_owned()), "{a}");
        assert_eq!(paths::extension(a), p.extension().map(|s| s.to_string_lossy().into_owned()), "{a}");
        assert_eq!(paths::file_stem(a), p.file_stem().map(|s| s.to_string_lossy().into_owned()), "{a}");
        for b in all {
            let q = Path::new(b);
            assert_eq!(Path::new(&paths::join(a, b)), p.join(b).as_path());
            assert_eq!(paths::join(a, b), p.join(b).to_string_lossy(), "{a} {b}");
            assert_eq!(paths::is_inside(a, b), p.starts_with(q), "{a} {b}");
            assert_eq!(paths::same_path(a, b), p == q, "{a} {b}");
        }
    }
    assert_eq!(paths::extension_lower("a.TXT"), "txt");
    assert_eq!(paths::extension_lower("a"), "");
}
