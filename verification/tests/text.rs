use cep_extensions::text::{
    chars_of, contains, ends_with, equals, find, is_cut, is_word, lower, matches_at, split,
    starts_with, trim, upper, Separator,
};

fn c(s: &str) -> Vec<char> {
    s.chars().collect()
}

#[test]
fn characters_of_a_string() {
    assert_eq!(chars_of("a\u{e9}\u{4e2d}\u{1f600}"), vec!['a', '\u{e9}', '\u{4e2d}', '\u{1f600}']);
    assert!(chars_of("").is_empty());
}

#[test]
fn find_gives_the_leftmost_position() {
    assert_eq!(find(&c("abcabc"), &c("bc")), Some(1));
    assert_eq!(find(&c("abcabc"), &c("abcabc")), Some(0));
    assert_eq!(find(&c("abcabc"), &c("c")), Some(2));
    assert_eq!(find(&c("abcabc"), &c("cab")), Some(2));
    assert_eq!(find(&c("abcabc"), &c("abcabcd")), None);
    assert_eq!(find(&c("abcabc"), &c("x")), None);
    assert_eq!(find(&c("abc"), &c("")), Some(0));
    assert_eq!(find(&c(""), &c("")), Some(0));
    assert_eq!(find(&c(""), &c("a")), None);
    assert_eq!(find(&c("\u{e9}\u{e9}x"), &c("x")), Some(2));
    assert_eq!(find(&c("aab"), &c("ab")), Some(1));
}

#[test]
fn find_agrees_with_the_standard_search() {
    let hays = ["", "a", "ab", "aaa", "abab", "<Host Name=\"x\">", "xx<Menu>y</Menu>"];
    let pats = ["", "a", "b", "ab", "ba", "aa", "<Menu>", "Name=\"", ">"];
    for h in hays {
        for p in pats {
            assert_eq!(find(&c(h), &c(p)), h.find(p), "{:?} {:?}", h, p);
            assert_eq!(contains(&c(h), &c(p)), h.contains(p));
            assert_eq!(starts_with(&c(h), &c(p)), h.starts_with(p));
            assert_eq!(ends_with(&c(h), &c(p)), h.ends_with(p));
            assert_eq!(equals(&c(h), &c(p)), h == p);
            assert_eq!(is_word(&c(h), p), h == p);
        }
    }
}

#[test]
fn matching_at_a_position() {
    assert!(matches_at(&c("abc"), &c("bc"), 1));
    assert!(!matches_at(&c("abc"), &c("bc"), 0));
    assert!(!matches_at(&c("abc"), &c("bc"), 2));
    assert!(matches_at(&c("abc"), &c(""), 3));
    assert!(!matches_at(&c("abc"), &c(""), 4));
    assert!(!matches_at(&c("abc"), &c("abcd"), 0));
    assert!(!matches_at(&c("abc"), &c("c"), usize::MAX));
}

#[test]
fn trim_agrees_with_the_standard_trim() {
    for s in [
        "",
        " ",
        "a",
        " a",
        "a ",
        "  a b  ",
        "\t\r\n x \u{a0}\u{2003}\u{3000}",
        "\u{200b}x\u{200b}",
        " \u{85} ",
        "\u{1680}\u{2028}\u{2029}\u{202f}\u{205f}y",
    ] {
        assert_eq!(trim(&c(s)).to_vec(), c(s.trim()), "{:?}", s);
    }
}

#[test]
fn split_at_a_character() {
    let pieces = |s: &str, sep: char| -> Vec<String> {
        split(&c(s), Separator::Char(sep)).iter().map(|p| p.iter().collect()).collect()
    };
    for s in ["", "a", ".", "a.b", "a..b", ".a.", "com.example.tool", "..."] {
        let expected: Vec<String> = s.split('.').map(|p| p.to_string()).collect();
        assert_eq!(pieces(s, '.'), expected, "{:?}", s);
    }
    assert_eq!(pieces("one\ntwo\r\n\nthree\n", '\n'), vec!["one", "two\r", "", "three", ""]);
}

#[test]
fn split_at_whitespace() {
    let s = c(" a\tb\u{a0}\u{a0}c ");
    let got: Vec<String> =
        split(&s, Separator::Whitespace).iter().map(|p| p.iter().collect()).collect();
    assert_eq!(got, vec!["", "a", "b", "", "c", ""]);
    assert!(is_cut(Separator::Whitespace, '\n'));
    assert!(!is_cut(Separator::Whitespace, 'n'));
    assert!(is_cut(Separator::Char('n'), 'n'));
    assert!(!is_cut(Separator::Char('n'), '\n'));
}

#[test]
fn case_folding_follows_unicode() {
    assert_eq!(lower(&c("PaNeL \u{c9}\u{130}")), c(&"PaNeL \u{c9}\u{130}".to_lowercase()));
    assert_eq!(lower(&c("MAIN")), c("main"));
    assert_eq!(upper(&c("phsp")), c("PHSP"));
    assert_eq!(upper(&c("stra\u{df}e")), c("STRASSE"));
    assert_eq!(lower(&c("")), c(""));
}

#[test]
fn whitespace_is_the_set_that_unicode_names() {
    let stated = |c: char| {
        let n = c as u32;
        (0x09..=0x0d).contains(&n)
            || n == 0x20
            || n == 0x85
            || n == 0xa0
            || n == 0x1680
            || (0x2000..=0x200a).contains(&n)
            || n == 0x2028
            || n == 0x2029
            || n == 0x202f
            || n == 0x205f
            || n == 0x3000
    };
    let mut count = 0;
    for n in 0..=0x10ffffu32 {
        if let Some(c) = char::from_u32(n) {
            assert_eq!(is_cut(Separator::Whitespace, c), stated(c), "{:x}", n);
            assert_eq!(c.is_whitespace(), stated(c), "{:x}", n);
            if stated(c) {
                count += 1;
            }
        }
    }
    assert_eq!(count, 25);
}
