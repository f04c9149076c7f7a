use nomino::collector::may_precede;
use nomino::collector::precedes;
use nomino::collector::sort_names;
use nomino::source::SortOrder;

fn names(list: &[&str]) -> Vec<String> {
    list.iter().map(|s| s.to_string()).collect()
}

#[test]
fn ascending_listing_runs_from_the_least() {
    let sorted = sort_names(names(&["b.txt", "a.txt", "c.txt"]), SortOrder::Asc);
    assert_eq!(sorted, names(&["a.txt", "b.txt", "c.txt"]));
}

#[test]
fn descending_listing_runs_from_the_greatest() {
    let sorted = sort_names(names(&["b.txt", "a.txt", "c.txt"]), SortOrder::Desc);
    assert_eq!(sorted, names(&["c.txt", "b.txt", "a.txt"]));
}

#[test]
fn sorting_keeps_every_name() {
    let given = names(&["b", "a", "b", "", "ab", "B", "a"]);
    let mut wanted = given.clone();
    wanted.sort();
    assert_eq!(sort_names(given.clone(), SortOrder::Asc), wanted);
    wanted.reverse();
    assert_eq!(sort_names(given, SortOrder::Desc), wanted);
    assert_eq!(sort_names(Vec::new(), SortOrder::Asc), Vec::<String>::new());
}

#[test]
fn names_compare_character_by_character() {
    assert!(precedes("", ""));
    assert!(precedes("", "a"));
    assert!(!precedes("a", ""));
    assert!(precedes("a", "a"));
    assert!(precedes("a", "ab"));
    assert!(!precedes("ab", "a"));
    assert!(precedes("ab", "b"));
    assert!(precedes("Z", "a"));
    assert!(precedes("z", "\u{e9}"));
    assert!(!precedes("\u{e9}", "z"));
    assert!(may_precede("b", "a", SortOrder::Desc));
    assert!(!may_precede("b", "a", SortOrder::Asc));
}
