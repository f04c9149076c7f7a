use nomino::context::Context;
use nomino::executor::give_way;
use nomino::executor::record;
use nomino::executor::underscored_name;
use nomino::executor::Action;
use nomino::executor::Event;
use nomino::executor::Executor;
use nomino::executor::Options;
use nomino::executor::Outcome;
use nomino::executor::Phase;
use nomino::source::Source;

fn options(dry_run: bool, need_map: bool, overwrite: bool, mkdir: bool) -> Options {
    Options { dry_run, need_map, overwrite, mkdir }
}

fn s(text: &str) -> String {
    text.to_string()
}

fn pair_event(input: &str, output: &str) -> Event {
    Event::Pair(s(input), s(output))
}

#[test]
fn run_without_pairs_has_no_error() {
    let executor = Executor::new(options(false, true, false, false));
    assert!(!executor.had_error());
    assert_eq!(executor.phase(), Phase::Idle);
    assert_eq!(executor.outcomes(), &Vec::new());
    assert_eq!(executor.result_map(), Some(&Vec::new()));
    assert_eq!(Executor::new(options(false, false, false, false)).result_map(), None);
}

#[test]
fn destination_gives_way_until_one_is_free() {
    let mut executor = Executor::new(options(false, true, false, false));
    assert_eq!(executor.step(pair_event("in.txt", "out.txt")), Action::Probe(s("out.txt")));
    assert_eq!(executor.phase(), Phase::Probing);
    assert_eq!(executor.step(Event::Exists(true)), Action::Probe(s("_out.txt")));
    assert_eq!(executor.step(Event::Exists(true)), Action::Probe(s("__out.txt")));
    assert_eq!(executor.step(Event::Exists(false)), Action::Rename(s("in.txt"), s("__out.txt")));
    assert_eq!(executor.phase(), Phase::Renaming);
    assert_eq!(executor.step(Event::RenameDone(None)), Action::Next);
    assert_eq!(executor.phase(), Phase::Idle);
    assert_eq!(executor.outcomes(), &vec![Outcome::Renamed]);
    assert_eq!(executor.result_map(), Some(&vec![(s("__out.txt"), s("in.txt"))]));
    assert!(!executor.had_error());
}

#[test]
fn underscore_goes_before_the_file_name() {
    let sep = std::path::MAIN_SEPARATOR;
    assert_eq!(give_way("out.txt"), "_out.txt");
    assert_eq!(give_way(&format!("dir{}out.txt", sep)), format!("dir{}_out.txt", sep));
    assert_eq!(give_way("_a"), "__a");
    assert_eq!(underscored_name(Some(s("name"))), "_name");
    assert_eq!(underscored_name(Some(s(""))), "_");
    assert_eq!(underscored_name(None), "_");
}

#[test]
fn overwrite_asks_nothing() {
    let mut executor = Executor::new(options(false, false, true, false));
    assert_eq!(executor.step(pair_event("a", "b")), Action::Rename(s("a"), s("b")));
    assert_eq!(executor.step(Event::RenameDone(None)), Action::Next);
    assert_eq!(executor.result_map(), None);
    assert_eq!(executor.outcomes(), &vec![Outcome::Renamed]);
}

#[test]
fn parents_are_made_before_the_rename() {
    let mut executor = Executor::new(options(false, false, false, true));
    assert_eq!(executor.step(pair_event("a", "x/y/b")), Action::Probe(s("x/y/b")));
    assert_eq!(executor.step(Event::Exists(false)), Action::MakeParents(s("x/y/b")));
    assert_eq!(executor.phase(), Phase::Parenting);
    assert_eq!(executor.step(Event::ParentsDone), Action::Rename(s("a"), s("x/y/b")));
    assert_eq!(executor.step(Event::RenameDone(None)), Action::Next);
    let mut over = Executor::new(options(false, false, true, true));
    assert_eq!(over.step(pair_event("a", "b")), Action::MakeParents(s("b")));
}

#[test]
fn dry_run_renames_nothing_and_records_the_same() {
    let mut dry = Executor::new(options(true, true, false, true));
    let mut wet = Executor::new(options(false, true, false, true));
    for (input, output, taken) in [("a", "x", 0), ("b", "x", 1), ("c", "d/y", 0)] {
        assert_eq!(dry.step(pair_event(input, output)), Action::Probe(s(output)));
        assert_eq!(wet.step(pair_event(input, output)), Action::Probe(s(output)));
        for _ in 0..taken {
            let asked = dry.step(Event::Exists(true));
            assert!(matches!(asked, Action::Probe(_)));
            assert_eq!(wet.step(Event::Exists(true)), asked);
        }
        assert_eq!(dry.step(Event::Exists(false)), Action::Next);
        assert_eq!(dry.phase(), Phase::Idle);
        assert!(matches!(wet.step(Event::Exists(false)), Action::MakeParents(_)));
        assert!(matches!(wet.step(Event::ParentsDone), Action::Rename(_, _)));
        assert_eq!(wet.step(Event::RenameDone(None)), Action::Next);
    }
    assert_eq!(dry.outcomes(), &vec![Outcome::Skipped, Outcome::Skipped, Outcome::Skipped]);
    assert_eq!(wet.outcomes(), &vec![Outcome::Renamed, Outcome::Renamed, Outcome::Renamed]);
    assert_eq!(dry.result_map(), wet.result_map());
    assert_eq!(
        dry.result_map(),
        Some(&vec![(s("x"), s("a")), (s("_x"), s("b")), (s("d/y"), s("c"))])
    );
    assert!(!dry.had_error());
}

#[test]
fn dry_run_asks_for_no_directory() {
    for overwrite in [false, true] {
        let mut dry = Executor::new(options(true, false, overwrite, true));
        let mut action = dry.step(pair_event("a", "deep/down/b"));
        if !overwrite {
            assert_eq!(action, Action::Probe(s("deep/down/b")));
            action = dry.step(Event::Exists(false));
        }
        assert_eq!(action, Action::Next);
        assert_eq!(dry.step(Event::ParentsDone), Action::Ignored);
        assert_eq!(dry.step(Event::RenameDone(Some(s("late")))), Action::Ignored);
        assert_eq!(dry.outcomes(), &vec![Outcome::Skipped]);
        assert!(!dry.had_error());
    }
}

#[test]
fn second_pair_gives_way_to_the_first() {
    let mut executor = Executor::new(options(false, true, false, false));
    assert_eq!(executor.step(pair_event("a.txt", "out.txt")), Action::Probe(s("out.txt")));
    assert_eq!(executor.step(Event::Exists(false)), Action::Rename(s("a.txt"), s("out.txt")));
    assert_eq!(executor.step(Event::RenameDone(None)), Action::Next);
    assert_eq!(executor.step(pair_event("b.txt", "out.txt")), Action::Probe(s("out.txt")));
    assert_eq!(executor.step(Event::Exists(true)), Action::Probe(s("_out.txt")));
    assert_eq!(executor.step(Event::Exists(false)), Action::Rename(s("b.txt"), s("_out.txt")));
    assert_eq!(executor.step(Event::RenameDone(None)), Action::Next);
    assert_eq!(
        executor.result_map(),
        Some(&vec![(s("out.txt"), s("a.txt")), (s("_out.txt"), s("b.txt"))])
    );
    assert!(!executor.had_error());
}

#[test]
fn plain_name_gives_way_to_itself_with_an_underscore() {
    for name in ["out.txt", "a", "_", ".hidden", "..a", "with space", "x.tar.gz"] {
        assert_eq!(give_way(name), format!("_{}", name));
    }
    assert!(give_way("").ends_with('_'));
    assert!(give_way("..").ends_with('_'));
}

#[test]
fn failure_sets_the_flag_and_the_run_goes_on() {
    let mut executor = Executor::new(options(false, true, true, false));
    assert_eq!(executor.step(pair_event("a", "b")), Action::Rename(s("a"), s("b")));
    assert_eq!(executor.step(Event::RenameDone(None)), Action::Next);
    assert!(!executor.had_error());
    assert_eq!(executor.step(pair_event("gone", "c")), Action::Rename(s("gone"), s("c")));
    assert_eq!(executor.step(Event::RenameDone(Some(s("no such file")))), Action::Next);
    assert!(executor.had_error());
    assert_eq!(executor.step(pair_event("d", "e")), Action::Rename(s("d"), s("e")));
    assert_eq!(executor.step(Event::RenameDone(None)), Action::Next);
    assert!(executor.had_error());
    assert_eq!(
        executor.outcomes(),
        &vec![Outcome::Renamed, Outcome::Failed(s("no such file")), Outcome::Renamed]
    );
    assert_eq!(executor.result_map(), Some(&vec![(s("b"), s("a")), (s("e"), s("d"))]));
}

#[test]
fn event_out_of_turn_changes_nothing() {
    let mut executor = Executor::new(options(false, true, false, false));
    assert_eq!(executor.step(Event::Exists(true)), Action::Ignored);
    assert_eq!(executor.step(Event::ParentsDone), Action::Ignored);
    assert_eq!(executor.step(Event::RenameDone(Some(s("x")))), Action::Ignored);
    assert_eq!(executor.phase(), Phase::Idle);
    assert!(!executor.had_error());
    assert_eq!(executor.outcomes(), &Vec::new());
    assert_eq!(executor.step(pair_event("a", "b")), Action::Probe(s("b")));
    assert_eq!(executor.step(pair_event("c", "d")), Action::Ignored);
    assert_eq!(executor.step(Event::Exists(false)), Action::Rename(s("a"), s("b")));
    assert_eq!(executor.step(Event::Exists(false)), Action::Ignored);
    assert_eq!(executor.phase(), Phase::Renaming);
}

#[test]
fn later_input_takes_the_place_of_a_destination_written_over() {
    let mut executor = Executor::new(options(false, true, true, false));
    for input in ["a", "b", "c"] {
        let output = if input == "b" { "other" } else { "same" };
        assert_eq!(executor.step(pair_event(input, output)), Action::Rename(s(input), s(output)));
        assert_eq!(executor.step(Event::RenameDone(None)), Action::Next);
    }
    assert_eq!(executor.result_map(), Some(&vec![(s("same"), s("c")), (s("other"), s("b"))]));
}

#[test]
fn record_replaces_or_appends() {
    let mut table = vec![(s("k"), s("1")), (s("l"), s("2"))];
    record(&mut table, s("l"), s("3"));
    assert_eq!(table, vec![(s("k"), s("1")), (s("l"), s("3"))]);
    record(&mut table, s("m"), s("4"));
    assert_eq!(table, vec![(s("k"), s("1")), (s("l"), s("3")), (s("m"), s("4"))]);
}

#[test]
fn result_map_fed_back_gives_the_same_renames() {
    let renames = [("a.txt", "1.txt"), ("b.txt", "2.txt"), ("c.txt", "sub/3.txt")];
    let mut executor = Executor::new(options(false, true, true, false));
    for (input, output) in renames {
        assert_eq!(executor.step(pair_event(input, output)), Action::Rename(s(input), s(output)));
        assert_eq!(executor.step(Event::RenameDone(None)), Action::Next);
    }
    let mut object = serde_json::Map::new();
    for (output, input) in executor.result_map().unwrap() {
        object.insert(output.clone(), serde_json::Value::String(input.clone()));
    }
    let text = serde_json::to_string_pretty(&object).unwrap();
    let table = match Source::new_map(&text) {
        Ok(Source::Mapping(table)) => table,
        other => panic!("{:?}", other),
    };
    let mut context = Context::from_mapping(&table);
    for (input, output) in renames {
        assert_eq!(context.next(), Some((s(input), s(output))));
    }
    assert_eq!(context.next(), None);
}
