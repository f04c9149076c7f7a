use nomino::collector::sort_names;
use nomino::context::select;
use nomino::context::Candidate;
use nomino::context::Context;
use nomino::context::ContextError;
use nomino::context::file_names;
use nomino::formatter::TemplateError;
use nomino::formatter::Formatter;
use nomino::source::SortOrder;
use nomino::source::Source;

fn drain(mut context: Context) -> Vec<(String, String)> {
    let mut pairs = Vec::new();
    while let Some(pair) = context.next() {
        pairs.push(pair);
    }
    assert_eq!(context.remaining(), 0);
    assert_eq!(context.next(), None);
    pairs
}

fn pair(a: &str, b: &str) -> (String, String) {
    (a.to_string(), b.to_string())
}

#[test]
fn mapping_pairs_name_the_input_first() {
    let table = vec![pair("new.txt", "old.txt"), pair("b", "a")];
    let context = Context::from_mapping(&table);
    assert_eq!(context.remaining(), 2);
    assert_eq!(drain(context), vec![pair("old.txt", "new.txt"), pair("a", "b")]);
}

#[test]
fn context_is_consumed_once() {
    let mut context = Context::from_mapping(&vec![pair("k", "v")]);
    assert_eq!(context.next(), Some(pair("v", "k")));
    assert_eq!(context.remaining(), 0);
    assert_eq!(context.next(), None);
    assert_eq!(context.next(), None);
}

#[test]
fn sorted_names_are_numbered_from_zero() {
    let sorted = sort_names(
        vec!["b.txt".to_string(), "a.txt".to_string(), "c.txt".to_string()],
        SortOrder::Desc,
    );
    let formatter = Formatter::new("{}").unwrap();
    assert_eq!(
        drain(Context::from_names(&sorted, &formatter, true)),
        vec![pair("c.txt", "0.txt"), pair("b.txt", "1.txt"), pair("a.txt", "2.txt")]
    );
    assert_eq!(
        drain(Context::from_names(&sorted, &formatter, false)),
        vec![pair("c.txt", "0"), pair("b.txt", "1"), pair("a.txt", "2")]
    );
}

#[test]
fn source_selects_the_files_that_match_within_its_depth() {
    let source = Source::new_regex_for("(\\w+)/(\\d+)\\.txt", '/', None, Some(2)).unwrap();
    let files = vec![
        ("a/1.txt".to_string(), 2),
        ("a/x.txt".to_string(), 2),
        ("top.txt".to_string(), 1),
        ("a/b/2.txt".to_string(), 3),
        ("b/22.txt".to_string(), 2),
        ("a/1.txt".to_string(), 2),
    ];
    let found = select(&source, &files);
    let first = Candidate {
        path: "a/1.txt".to_string(),
        groups: vec![Some("a/1.txt".to_string()), Some("a".to_string()), Some("1".to_string())],
    };
    let second = Candidate {
        path: "b/22.txt".to_string(),
        groups: vec![Some("b/22.txt".to_string()), Some("b".to_string()), Some("22".to_string())],
    };
    let third = Candidate {
        path: "a/1.txt".to_string(),
        groups: vec![Some("a/1.txt".to_string()), Some("a".to_string()), Some("1".to_string())],
    };
    assert_eq!(found, vec![first, second, third]);
    let formatter = Formatter::new("{2}_{1}_{}").unwrap();
    assert_eq!(
        drain(Context::from_candidates(&found, &Vec::new(), &formatter, true)),
        vec![pair("a/1.txt", "1_a_0.txt"), pair("b/22.txt", "22_b_1.txt"), pair("a/1.txt", "1_a_2.txt")]
    );
}

#[test]
fn source_without_a_pattern_selects_nothing() {
    let source = Source::new_sort("asc").unwrap();
    assert_eq!(select(&source, &vec![("a.txt".to_string(), 1)]), Vec::new());
}

#[test]
fn candidates_are_renamed_by_their_named_groups() {
    let source = Source::new_regex_for("(?P<stem>\\w+)\\.(?P<ext>\\w+)", '/', None, None).unwrap();
    let names = match &source {
        Source::Regex(matcher, _, _) => matcher.names(),
        other => panic!("{:?}", other),
    };
    assert_eq!(names, vec![None, Some("stem".to_string()), Some("ext".to_string())]);
    let files = vec![("a.txt".to_string(), 1), ("b.md".to_string(), 1)];
    let found = select(&source, &files);
    let formatter = Formatter::new("{ext}/{stem}").unwrap();
    assert_eq!(
        drain(Context::from_candidates(&found, &names, &formatter, false)),
        vec![pair("a.txt", "txt/a"), pair("b.md", "md/b")]
    );
}

fn listing(names: &[&str]) -> Vec<(String, usize)> {
    names.iter().map(|name| (name.to_string(), 1)).collect()
}

#[test]
fn run_over_a_table_needs_no_template() {
    let source = Source::new_map("{\"new\": \"old\", \"b\": \"a\"}").unwrap();
    let context = Context::new(&source, None, true, &listing(&["x"])).unwrap();
    assert_eq!(drain(context), vec![pair("old", "new"), pair("a", "b")]);
    let formatter = Formatter::new("{7}").unwrap();
    let context = Context::new(&source, Some(&formatter), true, &Vec::new()).unwrap();
    assert_eq!(drain(context), vec![pair("old", "new"), pair("a", "b")]);
}

#[test]
fn run_over_a_listing_needs_a_template_that_fits() {
    let source = Source::new_sort("asc").unwrap();
    let files = listing(&["b.txt", "a.txt"]);
    assert_eq!(Context::new(&source, None, false, &files).err(), Some(ContextError::NoTemplate));
    let formatter = Formatter::new("{1}").unwrap();
    assert_eq!(
        Context::new(&source, Some(&formatter), false, &files).err(),
        Some(ContextError::Template(TemplateError::NoSuchGroup(1)))
    );
    let pattern = Source::new_regex("(a)", None, None).unwrap();
    assert_eq!(Context::new(&pattern, None, false, &files).err(), Some(ContextError::NoTemplate));
    let named = Formatter::new("{stem}").unwrap();
    assert_eq!(
        Context::new(&pattern, Some(&named), false, &files).err(),
        Some(ContextError::Template(TemplateError::NoSuchName("stem".to_string())))
    );
}

#[test]
fn run_over_a_listing_numbers_the_sorted_files() {
    let files = listing(&["b.txt", "a.txt", "c.txt"]);
    let formatter = Formatter::new("file_{}").unwrap();
    let up = Context::new(&Source::new_sort("asc").unwrap(), Some(&formatter), true, &files);
    assert_eq!(
        drain(up.unwrap()),
        vec![pair("a.txt", "file_0.txt"), pair("b.txt", "file_1.txt"), pair("c.txt", "file_2.txt")]
    );
    let down = Context::new(&Source::new_sort("DESC").unwrap(), Some(&formatter), false, &files);
    assert_eq!(
        drain(down.unwrap()),
        vec![pair("c.txt", "file_0"), pair("b.txt", "file_1"), pair("a.txt", "file_2")]
    );
}

#[test]
fn run_over_a_pattern_pairs_each_match_once() {
    let source = Source::new_regex_for("(?P<dir>\\w+)/(\\d+)\\.txt", '/', None, None).unwrap();
    let files = vec![
        ("top.txt".to_string(), 1),
        ("a/1.txt".to_string(), 2),
        ("a/x.txt".to_string(), 2),
        ("b/2.txt".to_string(), 2),
    ];
    let formatter = Formatter::new("{dir}_{2}_{}").unwrap();
    let context = Context::new(&source, Some(&formatter), true, &files).unwrap();
    assert_eq!(context.remaining(), 2);
    assert_eq!(drain(context), vec![pair("a/1.txt", "a_1_0.txt"), pair("b/2.txt", "b_2_1.txt")]);
}

#[test]
fn file_names_drop_the_depths() {
    assert_eq!(
        file_names(&vec![("b".to_string(), 2), ("a".to_string(), 1)]),
        vec!["b".to_string(), "a".to_string()]
    );
}
