use vapor_daemon::paths::{FsPath, PathStyle};
use vapor_daemon::text::{decimal_text, split, split_once, trim, Order};

#[test]
fn a_path_reads_as_its_components() {
    let path = FsPath::new("/root//docs/./notes.tar.gz");
    assert_eq!(path.to_text(), "/root/docs/notes.tar.gz");
    assert_eq!(path.file_name(), Some("notes.tar.gz".to_string()));
    assert_eq!(path.extension(), Some("gz".to_string()));
    assert_eq!(path.parent().unwrap().to_text(), "/root/docs");
    assert!(path.is_absolute());
    assert!(FsPath::new("/").parent().is_none());
    assert_eq!(FsPath::new("/root/.env").extension(), None);
    assert_eq!(FsPath::new("/root/..").file_name(), None);
}

#[test]
fn a_prefix_ends_at_a_component() {
    let path = FsPath::new("/root/docs/a");
    assert!(path.starts_with(&FsPath::new("/root/docs")));
    assert!(!path.starts_with(&FsPath::new("/root/doc")));
    let tail = path.strip_prefix(&FsPath::new("/root")).unwrap();
    assert_eq!(tail.to_text(), "docs/a");
    assert_eq!(FsPath::new("/root").join_path(&tail).to_text(), "/root/docs/a");
    assert!(path.strip_prefix(&FsPath::new("/elsewhere")).is_none());
    assert_eq!(path.join("/other").to_text(), "/other");
}

#[test]
fn paths_are_ordered_by_component() {
    let a = FsPath::new("/root/a/z");
    let b = FsPath::new("/root/a.txt");
    assert_eq!(a.order(&b), Order::Less);
    assert_eq!(b.order(&a), Order::Greater);
    assert_eq!(a.order(&FsPath::new("/root/a/z")), Order::Equal);
}

#[test]
fn a_drive_letter_starts_a_windows_path() {
    let path = FsPath::parse(PathStyle::Windows, "C:\\sync\\a.txt");
    assert!(path.is_absolute());
    assert_eq!(path.file_name(), Some("a.txt".to_string()));
}

#[test]
fn texts_are_cut_where_they_should_be() {
    assert_eq!(trim("  \u{2003}a b\n"), "a b");
    assert_eq!(split("a,,b", ','), vec!["a", "", "b"]);
    assert_eq!(split_once("k=v=w", '='), Some(("k".to_string(), "v=w".to_string())));
    assert_eq!(split_once("k", '='), None);
    assert_eq!(decimal_text(0), "0");
    assert_eq!(decimal_text(u128::MAX), u128::MAX.to_string());
}
