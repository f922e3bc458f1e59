use dcompass::matcher::Matcher;

#[test]
fn inserted_domain_matches_its_tag() {
    let mut m = Matcher::new();
    m.insert("example.com", 1);
    m.insert("apple.cn", 2);
    assert_eq!(m.matches("example.com"), Some(1));
    assert_eq!(m.matches("apple.cn"), Some(2));
}

#[test]
fn suffix_on_label_boundary_only() {
    let mut m = Matcher::new();
    m.insert("example.com", 1);
    assert_eq!(m.matches("sub.example.com"), Some(1));
    assert_eq!(m.matches("a.b.example.com"), Some(1));
    assert_eq!(m.matches("notexample.com"), None);
    assert_eq!(m.matches("com"), None);
    assert_eq!(m.matches(""), None);
}

#[test]
fn collision_takes_alternate_rule() {
    let mut m = Matcher::new();
    m.insert("example.com", 1);
    m.insert("com", 2);
    assert_eq!(m.matches("notexample.com"), Some(2));
}

#[test]
fn longest_suffix_wins() {
    let mut m = Matcher::new();
    m.insert("example.com", 1);
    m.insert("a.b.example.com", 2);
    assert_eq!(m.matches("x.a.b.example.com"), Some(2));
    assert_eq!(m.matches("c.example.com"), Some(1));
    assert_eq!(m.matches("b.example.com"), Some(1));
}

#[test]
fn later_insert_replaces_tag() {
    let mut m = Matcher::new();
    m.insert("example.com", 1);
    m.insert("example.com.", 3);
    assert_eq!(m.matches("www.example.com."), Some(3));
}

#[test]
fn bulk_inserts_each_non_empty_line() {
    let mut m = Matcher::new();
    m.insert_bulk("example.com\n\nrust-lang.org\nlast.net", 4);
    assert_eq!(m.matches("doc.rust-lang.org"), Some(4));
    assert_eq!(m.matches("example.com"), Some(4));
    assert_eq!(m.matches("last.net"), Some(4));
    assert_eq!(m.matches("other.org"), None);
}

#[test]
fn bulk_of_empty_text_adds_nothing() {
    let mut m = Matcher::new();
    m.insert_bulk("", 1);
    m.insert_bulk("\n\n", 1);
    assert_eq!(m.matches("a"), None);
}
