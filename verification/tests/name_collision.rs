use vapor_daemon::name_collision::{colliding_local_path, fold, fold_composed};
use vapor_daemon::paths::FsPath;

fn names(list: &[&str]) -> Vec<String> {
    list.iter().map(|name| name.to_string()).collect()
}

#[test]
fn exact_spelling_present_is_not_a_collision() {
    assert_eq!(
        colliding_local_path(&FsPath::new("/d/Readme.md"), &names(&["Readme.md"]), true),
        None
    );
}

#[test]
fn absent_name_with_no_sibling_is_not_a_collision() {
    assert_eq!(
        colliding_local_path(&FsPath::new("/d/readme.md"), &names(&["other.md"]), false),
        None
    );
}

#[test]
fn a_differently_normalized_sibling_collides_only_where_the_volume_aliases_it() {
    let composed = FsPath::new("/d/caf\u{e9}.txt");
    let decomposed = FsPath::new("/d/cafe\u{301}.txt");
    let listing = names(&["caf\u{e9}.txt"]);
    assert_eq!(
        colliding_local_path(&decomposed, &listing, true),
        Some(composed)
    );
    assert_eq!(colliding_local_path(&decomposed, &listing, false), None);
    assert_eq!(fold("Caf\u{e9}.TXT"), fold("cafe\u{301}.txt"));
}

#[test]
fn differently_cased_sibling_collides_only_where_the_volume_aliases_it() {
    let existing = FsPath::new("/d/Readme.md");
    let target = FsPath::new("/d/readme.md");
    let listing = names(&["a.txt", "Readme.md", "README.md"]);
    assert_eq!(colliding_local_path(&target, &listing, true), Some(existing));
    assert_eq!(colliding_local_path(&target, &listing, false), None);
}

#[test]
fn names_fold_to_one_composed_lower_case_form() {
    assert_eq!(fold("Cafe\u{301}.TXT"), "caf\u{e9}.txt");
    assert_eq!(fold_composed("\u{130}X"), "i\u{307}x");
    assert_eq!(fold(""), "");
}

#[test]
fn a_path_without_a_name_collides_with_nothing() {
    assert_eq!(colliding_local_path(&FsPath::new("/"), &names(&["a"]), true), None);
}
