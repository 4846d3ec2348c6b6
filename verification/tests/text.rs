use obj_parser::text::{
    after_last, copy_range, fields, find_with, has_at, has_part, has_prefix, is_whitespace,
    is_word, lines, to_chars, to_text, words,
};

fn chars(s: &str) -> Vec<char> {
    s.chars().collect()
}

fn strings(v: Vec<Vec<char>>) -> Vec<String> {
    let mut out = Vec::new();
    for item in v {
        let s: String = item.into_iter().collect();
        out.push(s);
    }
    out
}

const SAMPLES: [&str; 24] = [
    "",
    "\n",
    "\r\n",
    "a",
    "a\n",
    "a\nb",
    "a\n\nb",
    "a\r\nb\r\n",
    "a\r",
    "a\r\r\n",
    "\r",
    "\n\n",
    "v 1 2 3",
    "  v\t1  2 3  ",
    "o my object\ng grp\n",
    "f 1/2/3 4//5 6\n",
    "mtllib scene.mtl\nv 0 0 0\n",
    "a/b/mesh.obj",
    "/",
    "//",
    " ",
    "\u{a0}x\u{2003}y\u{3000}",
    "x\u{85}y\u{1680}z\u{2028}w\u{2029}",
    "tab\tsep\u{b}vt\u{c}ff\r",
];

#[test]
fn white_space_is_the_unicode_property() {
    let mut n: u32 = 0;
    while n <= 0x10FFFF {
        if let Some(c) = char::from_u32(n) {
            assert_eq!(is_whitespace(c), c.is_whitespace(), "U+{:04X}", n);
        }
        n += 1;
    }
}

#[test]
fn to_chars_gives_each_character() {
    assert_eq!(to_chars(""), Vec::<char>::new());
    assert_eq!(to_chars("v 1"), vec!['v', ' ', '1']);
    assert_eq!(to_chars("é\u{3000}z"), vec!['é', '\u{3000}', 'z']);
}

#[test]
fn to_text_appends_each_character() {
    assert_eq!(to_text(&[]), "");
    assert_eq!(to_text(&['a']), "a");
    assert_eq!(to_text(&['a', '/', 'é', 'b']), "a/éb");
    for s in SAMPLES {
        assert_eq!(to_text(&to_chars(s)), s);
    }
}

#[test]
fn copy_range_copies_the_range() {
    let s = chars("abcdef");
    assert_eq!(copy_range(&s, 0, 0), Vec::<char>::new());
    assert_eq!(copy_range(&s, 1, 4), chars("bcd"));
    assert_eq!(copy_range(&s, 0, 6), s);
    assert_eq!(copy_range(&s, 6, 6), Vec::<char>::new());
}

#[test]
fn is_word_compares_with_the_word() {
    assert!(is_word(&chars("v"), "v"));
    assert!(is_word(&chars("newmtl"), "newmtl"));
    assert!(is_word(&chars(""), ""));
    assert!(!is_word(&chars("vt"), "v"));
    assert!(!is_word(&chars("v"), "vt"));
    assert!(!is_word(&chars("vn"), "vt"));
    assert!(!is_word(&chars(""), "v"));
    assert!(!is_word(&chars("v"), ""));
}

#[test]
fn lines_are_those_of_std() {
    for s in SAMPLES {
        let expected: Vec<String> = s.lines().map(|l| l.to_string()).collect();
        assert_eq!(strings(lines(&chars(s))), expected, "{:?}", s);
    }
}

#[test]
fn lines_keep_a_bare_carriage_return_at_the_end() {
    assert_eq!(strings(lines(&chars("a\r"))), vec!["a\r"]);
    assert_eq!(strings(lines(&chars("a\r\nb\r"))), vec!["a", "b\r"]);
    assert_eq!(strings(lines(&chars("a\r\r\n"))), vec!["a\r"]);
    assert_eq!(strings(lines(&chars("\n"))), vec![""]);
    assert_eq!(strings(lines(&chars(""))), Vec::<String>::new());
}

#[test]
fn words_are_those_of_std() {
    for s in SAMPLES {
        let expected: Vec<String> = s.split_whitespace().map(|l| l.to_string()).collect();
        assert_eq!(strings(words(&chars(s))), expected, "{:?}", s);
    }
}

#[test]
fn words_of_a_blank_line() {
    assert_eq!(strings(words(&chars(""))), Vec::<String>::new());
    assert_eq!(strings(words(&chars(" \t "))), Vec::<String>::new());
    assert_eq!(strings(words(&chars("  v\t1  2 3  "))), vec!["v", "1", "2", "3"]);
}

#[test]
fn fields_are_those_of_std() {
    for s in SAMPLES {
        for sep in ['/', ' ', '\n', 'a'] {
            let expected: Vec<String> = s.split(sep).map(|l| l.to_string()).collect();
            assert_eq!(strings(fields(&chars(s), sep)), expected, "{:?} at {:?}", s, sep);
        }
    }
}

#[test]
fn fields_keep_empty_pieces() {
    assert_eq!(strings(fields(&chars(""), '/')), vec![""]);
    assert_eq!(strings(fields(&chars("1//3"), '/')), vec!["1", "", "3"]);
    assert_eq!(strings(fields(&chars("/"), '/')), vec!["", ""]);
    assert_eq!(strings(fields(&chars("1/2/"), '/')), vec!["1", "2", ""]);
}

#[test]
fn search_is_that_of_std() {
    let patterns = ["", "o ", "g ", "f ", "mtllib ", "a", "\n", "b\r", "/b/", "xyz"];
    for s in SAMPLES {
        for p in patterns {
            assert_eq!(has_part(&chars(s), &chars(p)), s.contains(p), "{:?} in {:?}", p, s);
            assert_eq!(has_prefix(&chars(s), &chars(p)), s.starts_with(p), "{:?} at {:?}", p, s);
        }
    }
}

#[test]
fn has_at_tests_one_position() {
    let s = chars("foo bar");
    assert!(has_at(&s, &chars("o "), 2));
    assert!(!has_at(&s, &chars("o "), 1));
    assert!(has_at(&s, &chars("bar"), 4));
    assert!(!has_at(&s, &chars("bar"), 5));
    assert!(has_at(&s, &chars(""), 7));
    assert!(!has_at(&s, &chars(""), 8));
    assert!(!has_at(&s, &chars("foo bar!"), 0));
}

#[test]
fn find_with_gives_the_first_line_that_holds_the_part() {
    let all = lines(&chars("v 0 0 0\nfoo bar\no Cube\n\ng x\n"));
    assert_eq!(find_with(&all, "o "), Some(1));
    assert_eq!(find_with(&all, "o C"), Some(2));
    assert_eq!(find_with(&all, "g "), Some(4));
    assert_eq!(find_with(&all, "v "), Some(0));
    assert_eq!(find_with(&all, "mtllib "), None);
    assert_eq!(find_with(&all, ""), Some(0));
    assert_eq!(find_with(&Vec::new(), ""), None);
}

#[test]
fn after_last_gives_the_position_behind_the_last_one() {
    assert_eq!(after_last(&chars("a/b/mesh.obj"), '/'), 4);
    assert_eq!(after_last(&chars("mesh.obj"), '/'), 0);
    assert_eq!(after_last(&chars("a/"), '/'), 2);
    assert_eq!(after_last(&chars("/"), '/'), 1);
    assert_eq!(after_last(&chars(""), '/'), 0);
    for s in SAMPLES {
        for c in ['/', ' ', 'a'] {
            let expected = match s.rfind(c) {
                Some(at) => s[..at].chars().count() + 1,
                None => 0,
            };
            assert_eq!(after_last(&chars(s), c), expected, "{:?} {:?}", s, c);
        }
    }
}
