use editor_shell::listing::{entry_comes_before, insert_entry, list_children, DirEntry};

fn dir(name: &str) -> DirEntry {
    DirEntry { path: format!("/root/{}", name), name: name.to_string(), is_dir: true }
}

fn file(name: &str) -> DirEntry {
    DirEntry { path: format!("/root/{}", name), name: name.to_string(), is_dir: false }
}

fn names(listing: &[DirEntry]) -> Vec<String> {
    listing.iter().map(|e| e.name.clone()).collect()
}

#[test]
fn unreadable_directory_has_no_children() {
    assert!(list_children(None).is_empty());
}

#[test]
fn empty_directory_has_no_children() {
    assert!(list_children(Some(vec![])).is_empty());
}

#[test]
fn unreadable_entries_are_left_out() {
    let listing = list_children(Some(vec![None, Some(file("b")), None, Some(file("a")), None]));
    assert_eq!(listing, vec![file("a"), file("b")]);
    assert!(list_children(Some(vec![None, None])).is_empty());
}

#[test]
fn directories_come_before_files() {
    let listing = list_children(Some(vec![
        Some(file("a.txt")),
        Some(dir("zeta")),
        Some(file("b.txt")),
        Some(dir("alpha")),
    ]));
    assert_eq!(listing, vec![dir("alpha"), dir("zeta"), file("a.txt"), file("b.txt")]);
}

#[test]
fn names_ascend_within_each_kind() {
    let listing = list_children(Some(vec![
        Some(file("b")),
        Some(file("B")),
        Some(file("a10")),
        Some(file("a9")),
        Some(file("")),
        Some(dir("src")),
        Some(dir("Src")),
        Some(dir(".git")),
    ]));
    assert_eq!(names(&listing), vec![".git", "Src", "src", "", "B", "a10", "a9", "b"]);
    let kinds: Vec<bool> = listing.iter().map(|e| e.is_dir).collect();
    assert_eq!(kinds, vec![true, true, true, false, false, false, false, false]);
}

#[test]
fn one_directory_and_one_file() {
    let listing = list_children(Some(vec![Some(file("f.txt")), Some(dir("dirB"))]));
    assert_eq!(listing, vec![dir("dirB"), file("f.txt")]);
}

#[test]
fn entries_of_one_rank_keep_the_order_of_the_read() {
    let first = DirEntry { path: "/one/x".to_string(), name: "x".to_string(), is_dir: false };
    let second = DirEntry { path: "/two/x".to_string(), name: "x".to_string(), is_dir: false };
    let third = DirEntry { path: "/three/x".to_string(), name: "x".to_string(), is_dir: false };
    let listing = list_children(Some(vec![
        Some(first.clone()),
        Some(file("y")),
        Some(second.clone()),
        Some(dir("x")),
        Some(third.clone()),
        Some(file("a")),
    ]));
    assert_eq!(listing, vec![dir("x"), file("a"), first, second, third, file("y")]);
}

#[test]
fn listing_is_the_same_for_the_same_read() {
    let read = vec![Some(file("q")), None, Some(dir("d")), Some(file("c")), Some(dir("a"))];
    assert_eq!(list_children(Some(read.clone())), list_children(Some(read)));
}

#[test]
fn listing_agrees_with_a_stable_standard_sort() {
    let mut seed: u32 = 99;
    for round in 0..50 {
        let mut read = Vec::new();
        for i in 0..(round % 17) {
            seed = seed.wrapping_mul(1664525).wrapping_add(1013904223);
            let name = format!("n{}", (seed >> 20) % 7);
            let entry = DirEntry {
                path: format!("/p/{}/{}", i, name),
                name,
                is_dir: (seed >> 8) % 3 == 0,
            };
            read.push(if (seed >> 4) % 5 == 0 { None } else { Some(entry) });
        }
        let mut want: Vec<DirEntry> = read.iter().flatten().cloned().collect();
        want.sort_by(|a, b| b.is_dir.cmp(&a.is_dir).then_with(|| a.name.cmp(&b.name)));
        assert_eq!(list_children(Some(read)), want);
    }
}

#[test]
fn comes_before_puts_directories_first() {
    assert!(entry_comes_before(&dir("z"), &file("a")));
    assert!(!entry_comes_before(&file("a"), &dir("z")));
    assert!(entry_comes_before(&dir("a"), &dir("b")));
    assert!(!entry_comes_before(&dir("b"), &dir("a")));
    assert!(!entry_comes_before(&dir("a"), &dir("a")));
    assert!(entry_comes_before(&file("a"), &file("ab")));
    assert!(!entry_comes_before(&file("a"), &file("a")));
}

#[test]
fn insert_entry_goes_behind_its_equals() {
    let mut listing = vec![dir("a"), file("b"), file("d")];
    insert_entry(&mut listing, file("c"));
    assert_eq!(listing, vec![dir("a"), file("b"), file("c"), file("d")]);
    insert_entry(&mut listing, dir("b"));
    assert_eq!(listing, vec![dir("a"), dir("b"), file("b"), file("c"), file("d")]);
    let twin = DirEntry { path: "/else/b".to_string(), name: "b".to_string(), is_dir: false };
    insert_entry(&mut listing, twin.clone());
    assert_eq!(listing, vec![dir("a"), dir("b"), file("b"), twin, file("c"), file("d")]);
    insert_entry(&mut listing, file("z"));
    assert_eq!(listing.last(), Some(&file("z")));
    let mut empty = Vec::new();
    insert_entry(&mut empty, file("x"));
    assert_eq!(empty, vec![file("x")]);
}
