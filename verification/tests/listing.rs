use skills::data::{categories, entries, sort_names, DirItem};

fn dir(name: &str) -> DirItem {
    DirItem { name: name.to_string(), is_dir: true, is_file: false }
}

fn file(name: &str) -> DirItem {
    DirItem { name: name.to_string(), is_dir: false, is_file: true }
}

#[test]
fn categories_are_visible_directories_sorted() {
    let listing = vec![dir("prompts"), file("notes.md"), dir(".git"), dir("agents"), dir("Zeta")];
    assert_eq!(categories(&listing), vec!["Zeta", "agents", "prompts"]);
}

#[test]
fn entries_are_plain_files_by_name_sorted() {
    let listing = vec![
        file("debug-pro"),
        file("api-endpoints"),
        file("notes.md"),
        dir("sub"),
        file("agent-roles"),
    ];
    assert_eq!(entries(&listing), vec!["agent-roles", "api-endpoints", "debug-pro", "notes.md"]);
}

#[test]
fn empty_listing_gives_nothing() {
    assert!(categories(&Vec::new()).is_empty());
    assert!(entries(&Vec::new()).is_empty());
}

#[test]
fn sort_matches_std_sort() {
    let names = vec!["é", "e", "z", "Z", "ab", "a", "", "中", "a b", "a\u{0}", "b", "a"];
    let mut expected: Vec<String> = names.iter().map(|s| s.to_string()).collect();
    expected.sort();
    let got = sort_names(names.iter().map(|s| s.to_string()).collect());
    assert_eq!(got, expected);
}

#[test]
fn stored_entry_is_listed_again() {
    let listing = vec![file("sisyphus"), file("agent-roles"), dir("agent-roles")];
    let names = entries(&listing);
    assert!(names.contains(&"agent-roles".to_string()));
    assert_eq!(names, vec!["agent-roles", "sisyphus"]);
}
