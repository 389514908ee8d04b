use std::path::Path;
use tacc_sync::text::{
    append, chars_of, ends_with, file_name_of, parse_decimal, path_join, same_text, split_lines,
    split_on, starts_with, text_of, text_precedes,
};

fn strings(items: &[&str]) -> Vec<String> {
    items.iter().map(|s| s.to_string()).collect()
}

#[test]
fn chars_of_gives_the_characters_in_order() {
    assert_eq!(chars_of("a√c"), vec!['a', '√', 'c']);
    assert_eq!(chars_of(""), Vec::<char>::new());
}

#[test]
fn text_of_takes_a_range_of_characters() {
    let chars = vec!['a', '√', 'c', 'd'];
    assert_eq!(text_of(&chars, 1, 3), "√c");
    assert_eq!(text_of(&chars, 0, 4), "a√cd");
    assert_eq!(text_of(&chars, 2, 2), "");
    assert_eq!(text_of(&vec![], 0, 0), "");
}

#[test]
fn append_puts_one_text_after_the_other() {
    assert_eq!(append("ab", "cd"), "abcd");
    assert_eq!(append("", ""), "");
}

#[test]
fn same_text_compares_whole_texts() {
    assert!(same_text("FILE", "FILE"));
    assert!(!same_text("FILE", "FILE "));
    assert!(!same_text("FILE", "file"));
    assert!(same_text("", ""));
}

#[test]
fn starts_with_and_ends_with_agree_with_std() {
    let cases = [
        ("/hpss/base/a.zip", "/hpss/base"),
        ("/hpss/base", "/hpss/base"),
        ("/hpss", "/hpss/base"),
        ("abc", ""),
        ("", ""),
        ("", "a"),
        ("a.json", ".json"),
        (".json", ".json"),
        ("json", ".json"),
        ("a.json.safety", ".safety"),
        ("héllo", "hé"),
        ("héllo", "llo"),
        ("hé", "héllo"),
        ("abc", "abd"),
        ("abc", "bbc"),
    ];
    for (text, part) in cases {
        assert_eq!(starts_with(text, part), text.starts_with(part), "{} {}", text, part);
        assert_eq!(ends_with(text, part), text.ends_with(part), "{} {}", text, part);
    }
}

#[test]
fn split_on_agrees_with_std() {
    let cases = ["", "a", "a\tb", "\t", "a\t", "\ta", "a\t\tb", "FILE\t/x\t1\t1\t2+3\tAB0001"];
    for text in cases {
        let expected: Vec<String> = text.split('\t').map(|s| s.to_string()).collect();
        assert_eq!(split_on(text, '\t'), expected, "{:?}", text);
    }
    assert_eq!(split_on("840+0", '+'), strings(&["840", "0"]));
    assert_eq!(split_on("1+2+3", '+'), strings(&["1", "2", "3"]));
}

#[test]
fn split_on_keeps_empty_pieces() {
    assert_eq!(split_on("", ','), strings(&[""]));
    assert_eq!(split_on(",", ','), strings(&["", ""]));
    assert_eq!(split_on("a,,b,", ','), strings(&["a", "", "b", ""]));
}

#[test]
fn parse_decimal_reads_numerals() {
    assert_eq!(parse_decimal("0"), Some(0));
    assert_eq!(parse_decimal("99658060045"), Some(99658060045));
    assert_eq!(parse_decimal("+7"), Some(7));
    assert_eq!(parse_decimal("007"), Some(7));
    assert_eq!(parse_decimal("18446744073709551615"), Some(u64::MAX));
}

#[test]
fn parse_decimal_rejects_what_is_no_numeral() {
    for text in [
        "",
        "+",
        "-1",
        "1 ",
        " 1",
        "1.5",
        "0x10",
        "12a",
        "++1",
        "1+",
        "18446744073709551616",
        "99999999999999999999999",
        "١٢٣",
    ] {
        assert_eq!(parse_decimal(text), None, "{:?}", text);
    }
}

#[test]
fn parse_decimal_agrees_with_std() {
    for text in ["0", "+0", "42", "+42", "", "+", "-0", "18446744073709551615",
        "18446744073709551616", "184467440737095516150", "000000000000000000000001", "4 2", "4_2"]
    {
        assert_eq!(parse_decimal(text), text.parse::<u64>().ok(), "{:?}", text);
    }
}

#[test]
fn text_precedes_agrees_with_std() {
    let words = ["", "a", "ab", "abc", "abd", "b", "AG084600", "AU031800", "AU031900", "0", "é", "z", "√", "/a/b", "/a/b/c", "/a/c"];
    for a in words {
        for b in words {
            assert_eq!(text_precedes(a, b), a <= b, "{:?} {:?}", a, b);
        }
    }
}

#[test]
fn path_join_agrees_with_std() {
    let dirs = ["", "/", "/work", "/work/", "work", "a/b", "a/b//"];
    let names = ["x.json", "", "a/b.zip", "/abs/x", ".", "..", "x/"];
    for dir in dirs {
        for name in names {
            let expected = Path::new(dir).join(name);
            assert_eq!(path_join(dir, name), expected.to_str().unwrap(), "{:?} {:?}", dir, name);
        }
    }
}

#[test]
fn path_join_puts_one_separator_between() {
    assert_eq!(path_join("/inbox", "a.json"), "/inbox/a.json");
    assert_eq!(path_join("/inbox/", "a.json"), "/inbox/a.json");
    assert_eq!(path_join("", "a.json"), "a.json");
    assert_eq!(path_join("/inbox", "/other/a.json"), "/other/a.json");
    assert_eq!(path_join("/inbox", ""), "/inbox/");
}

#[test]
fn file_name_of_agrees_with_std() {
    let paths = [
        "", "/", "//", ".", "..", "a", "a/", "a//", "a/.", "a/./", "a/..", "a/../", "/a/b.zip",
        "/a/b.zip/", "./a", "../a", "a/./b", "a/b/.", "a/b/./.", "a/b/..", "..a", "a..", "...",
        ".a", "/.", "/..", "/a/.b", "a//b", "/home/projects/icecube/data/x.zip", ".json",
        "./.", "./..", "a/.../b", "a/ /", " ",
    ];
    for path in paths {
        let expected = Path::new(path).file_name().map(|n| n.to_str().unwrap().to_string());
        assert_eq!(file_name_of(path), expected, "{:?}", path);
    }
}

#[test]
fn file_name_of_names_the_last_component() {
    assert_eq!(file_name_of("/a/b/c.zip"), Some("c.zip".to_string()));
    assert_eq!(file_name_of("c.zip"), Some("c.zip".to_string()));
    assert_eq!(file_name_of("/a/b/"), Some("b".to_string()));
    assert_eq!(file_name_of("/a/b/."), Some("b".to_string()));
    assert_eq!(file_name_of("/a/b/.."), None);
    assert_eq!(file_name_of("/"), None);
    assert_eq!(file_name_of(""), None);
}

#[test]
fn split_lines_agrees_with_std() {
    let texts = [
        "", "a", "a\n", "a\nb", "a\nb\n", "\n", "\n\n", "a\r\nb", "a\r\nb\r\n", "a\r", "a\rb\n",
        "\r\n", "\r", "a\n\nb", "a\r\r\n", "/x/a.zip\n/x/b.zip\n",
    ];
    for text in texts {
        let expected: Vec<String> = text.lines().map(|s| s.to_string()).collect();
        assert_eq!(split_lines(text), expected, "{:?}", text);
    }
}

#[test]
fn split_lines_handles_a_long_listing() {
    let mut listing = String::new();
    for n in 0..50_000 {
        listing.push_str(&format!("/home/projects/icecube/data/exp/IceCube/2011/{}.zip\n", n));
    }
    let lines = split_lines(&listing);
    assert_eq!(lines.len(), 50_000);
    assert_eq!(lines[0], "/home/projects/icecube/data/exp/IceCube/2011/0.zip");
    assert_eq!(lines[49_999], "/home/projects/icecube/data/exp/IceCube/2011/49999.zip");
}

#[test]
fn split_lines_drops_line_endings() {
    assert_eq!(split_lines("a\nb\r\nc"), strings(&["a", "b", "c"]));
    assert_eq!(split_lines(""), Vec::<String>::new());
    assert_eq!(split_lines("\n"), strings(&[""]));
    assert_eq!(split_lines("a\r"), strings(&["a\r"]));
}
