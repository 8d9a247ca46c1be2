use ttytips::text::{
    chars_of, has_substring, join_path, lower_string, paths_equal, split_lines, split_words, string_of,
    trim_chars,
};

fn lines(s: &str) -> Vec<String> {
    split_lines(&chars_of(s)).iter().map(|l| l.iter().collect()).collect()
}

#[test]
fn lines_like_std() {
    for s in ["", "a", "a\n", "a\nb", "a\r\nb\r\n", "\n\n", "x\r", "a\rb\n"] {
        let expected: Vec<String> = s.lines().map(|l| l.to_string()).collect();
        assert_eq!(lines(s), expected, "{:?}", s);
    }
}

#[test]
fn words_like_std() {
    for s in ["", "  a  b\tc\n", "one", "\u{3000}x\u{a0}y "] {
        let got: Vec<String> = split_words(&chars_of(s)).iter().map(|w| w.iter().collect()).collect();
        let expected: Vec<String> = s.split_whitespace().map(|w| w.to_string()).collect();
        assert_eq!(got, expected, "{:?}", s);
    }
}

#[test]
fn trim_like_std() {
    for s in ["", "  a b  ", "\u{2003}x\u{2029}", "\t\n"] {
        let got: String = trim_chars(&chars_of(s)).iter().collect();
        assert_eq!(got, s.trim(), "{:?}", s);
    }
}

#[test]
fn substring_search() {
    assert!(has_substring(&chars_of("hello"), &chars_of("ell")));
    assert!(has_substring(&chars_of("hello"), &chars_of("")));
    assert!(!has_substring(&chars_of("hello"), &chars_of("hellos")));
    assert!(!has_substring(&chars_of("hello"), &chars_of("lo!")));
}

#[test]
fn string_round_trip_and_lowercase() {
    assert_eq!(string_of(&chars_of("Привет, World")), "Привет, World");
    assert_eq!(lower_string("ПРИВЕТ World"), "привет world");
}

#[test]
fn joining_paths() {
    assert_eq!(join_path("/a", "b"), "/a/b");
    assert_eq!(join_path("/a/", "b"), "/a/b");
    assert_eq!(join_path("", "b"), "b");
    assert_eq!(join_path("/a", "/etc"), "/etc");
    assert_eq!(join_path("/a", ""), "/a/");
}

#[test]
fn comparing_paths() {
    assert!(paths_equal("/a/b", "/a/b"));
    assert!(paths_equal("/a//b/", "/a/b"));
    assert!(paths_equal("a/./b", "a/b"));
    assert!(!paths_equal("./a", "a"));
    assert!(!paths_equal("/a", "a"));
    assert!(!paths_equal("/a/b", "/a/c"));
}

#[test]
fn joining_paths_like_std() {
    for (b, r) in [("/a", "b"), ("/a/", "b"), ("", "b"), ("/a", "/etc"), ("/a", ""), ("a", "b/c"), ("/", "x")] {
        let expected = std::path::Path::new(b).join(r).to_string_lossy().into_owned();
        assert_eq!(join_path(b, r), expected, "{:?}", (b, r));
    }
}

#[test]
fn comparing_paths_like_std() {
    let cases = ["/a/b", "/a//b/", "a/./b", "./a", "a", "/a", ".", "", "/", "a/..", "a/../", "./", "/./a"];
    for x in cases {
        for y in cases {
            let expected = std::path::Path::new(x) == std::path::Path::new(y);
            assert_eq!(paths_equal(x, y), expected, "{:?}", (x, y));
        }
    }
}
