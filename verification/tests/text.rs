use tng_ingress::text::{compare_text, push_decimal, push_rooted, same_text, Standing};

#[test]
fn numbers_are_written_in_decimal() {
    for n in [0u16, 7, 9, 10, 99, 100, 8080, 30001, 65535] {
        let mut out = String::from(":");
        push_decimal(&mut out, n);
        assert_eq!(out, format!(":{n}"));
    }
}

#[test]
fn text_is_ordered_by_its_bytes() {
    let words = ["", "a", "a-b", "aa", "ab", "b", "z", "\u{e9}", "\u{ffff}", "\u{10000}"];
    for (i, a) in words.iter().enumerate() {
        for (j, b) in words.iter().enumerate() {
            let expected = if i < j {
                Standing::Before
            } else if i == j {
                Standing::Same
            } else {
                Standing::After
            };
            assert_eq!(compare_text(a, b), expected);
            assert_eq!(same_text(a, b), a == b);
            assert_eq!(a < b, i < j);
        }
    }
}

#[test]
fn paths_begin_at_the_root() {
    for (path, rooted) in [("", "/"), ("a", "/a"), ("/a", "/a"), ("//a", "//a"), ("\u{e9}", "/\u{e9}")] {
        let mut out = String::from("h");
        push_rooted(&mut out, path);
        assert_eq!(out, format!("h{rooted}"));
    }
}
