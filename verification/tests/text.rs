use blrec::path::extension;
use blrec::text::{chars_of, find_first, find_last, join3, push_decimal, push_signed, same};

#[test]
fn numbers_as_text() {
    for n in [0u64, 7, 10, 99, 12345, u64::MAX] {
        let mut text = String::from("n=");
        push_decimal(&mut text, n);
        assert_eq!(text, format!("n={n}"));
    }
    for n in [0i64, -1, 42, i64::MIN, i64::MAX] {
        let mut text = String::new();
        push_signed(&mut text, n);
        assert_eq!(text, format!("{n}"));
    }
}

#[test]
fn characters() {
    assert_eq!(chars_of("aé漢"), vec!['a', 'é', '漢']);
    assert!(same("", ""));
    assert!(same("é", "é"));
    assert!(!same("a", "ab"));
    assert!(!same("b", "a"));
    assert_eq!(join3("a", "", "é"), "aé");
    let chars = chars_of("a:b:c");
    assert_eq!(find_first(&chars, ':'), Some(1));
    assert_eq!(find_last(&chars, ':'), Some(3));
    assert_eq!(find_first(&chars, '!'), None);
    assert_eq!(find_last(&chars, '!'), None);
}

#[test]
fn extensions_are_those_of_std() {
    for path in [
        "", "a", "a.flv", "a.b.mp3", ".flv", "..", ".", "...", "a.", "dir/a.wav", "dir.x/a",
        "dir.x/", "a.flv/", "a.flv//", "a.flv/.", "a.flv/..", "/", "//", "/a.mp3", "./a.mp3",
        "../.mp3", "..mp3", "a/b.c/./", "é.漢", " .flv", "a.flv ", "-", "a/.flv", "a/..flv",
    ] {
        let expected = std::path::Path::new(path).extension().and_then(|e| e.to_str());
        assert_eq!(extension(path), expected, "{path}");
    }
}
