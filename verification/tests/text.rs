use ttk::paths::{extension_chars, file_name_chars, file_stem_chars, join_path_chars, parent_chars};
use ttk::sort::sort_names;
use ttk::text::{chars_of, decimal_string, padded_decimal, split_lines, split_n, str_le, to_hex_lower};

fn s(v: &[char]) -> String {
    v.iter().collect()
}

fn opt(v: Option<Vec<char>>) -> Option<String> {
    v.map(|x| s(&x))
}

#[test]
fn decimal_and_padding() {
    assert_eq!(decimal_string(0), "0");
    assert_eq!(decimal_string(1234567890), "1234567890");
    assert_eq!(s(&padded_decimal(7, 3)), "007");
    assert_eq!(s(&padded_decimal(1234, 2)), "1234");
}

#[test]
fn hexadecimal() {
    assert_eq!(s(&to_hex_lower(&[0x0a, 0x14, 0x1e, 0xff, 0x00])), "0a141eff00");
}

#[test]
fn lexicographic_order() {
    assert!(str_le("a", "b"));
    assert!(str_le("ab", "ab"));
    assert!(str_le("ab", "abc"));
    assert!(!str_le("b", "abc"));
    assert!(str_le("Z", "a"));
    let sorted = sort_names(&vec!["b".to_string(), "a10".to_string(), "a2".to_string(), "a10".to_string()]);
    assert_eq!(sorted, vec!["a10", "a10", "a2", "b"]);
}

#[test]
fn lines_and_fields() {
    let ls: Vec<String> = split_lines(&chars_of("a\r\n\nb\rc\nlast\r")).iter().map(|l| s(l)).collect();
    assert_eq!(ls, vec!["a", "", "b\rc", "last\r"]);
    assert_eq!(split_lines(&chars_of("")).len(), 0);
    assert_eq!(split_lines(&chars_of("x\n")).len(), 1);
    let f: Vec<String> = split_n(&chars_of("a:b:c:d"), 3, ':').iter().map(|l| s(l)).collect();
    assert_eq!(f, vec!["a", "b", "c:d"]);
    let g: Vec<String> = split_n(&chars_of(""), 5, ':').iter().map(|l| s(l)).collect();
    assert_eq!(g, vec![""]);
}

#[test]
fn path_parts() {
    let p = |x: &str| chars_of(x);
    assert_eq!(opt(file_name_chars(&p("a/b.txt"))), Some("b.txt".to_string()));
    assert_eq!(opt(file_name_chars(&p("a/b/"))), Some("b".to_string()));
    assert_eq!(opt(file_name_chars(&p("a/b/."))), Some("b".to_string()));
    assert_eq!(opt(file_name_chars(&p("a/.."))), None);
    assert_eq!(opt(file_name_chars(&p("/"))), None);
    assert_eq!(opt(extension_chars(&p("x/.bashrc"))), None);
    assert_eq!(opt(extension_chars(&p("x/a.tar.gz"))), Some("gz".to_string()));
    assert_eq!(opt(extension_chars(&p("x/a."))), Some("".to_string()));
    assert_eq!(opt(file_stem_chars(&p("x/a.tar.gz"))), Some("a.tar".to_string()));
    assert_eq!(opt(file_stem_chars(&p(".bashrc"))), Some(".bashrc".to_string()));
    assert_eq!(opt(parent_chars(&p("a/b"))), Some("a".to_string()));
    assert_eq!(opt(parent_chars(&p("/a"))), Some("/".to_string()));
    assert_eq!(opt(parent_chars(&p("b"))), Some("".to_string()));
    assert_eq!(opt(parent_chars(&p("/"))), None);
    assert_eq!(opt(parent_chars(&p(""))), None);
    assert_eq!(s(&join_path_chars(&p("a"), &p("b"))), "a/b");
    assert_eq!(s(&join_path_chars(&p("a/"), &p("b"))), "a/b");
    assert_eq!(s(&join_path_chars(&p(""), &p("b"))), "b");
}
