//! The decisions of a run, one pair at a time: which path to ask about,
//! when to make directories, when to rename, and what to report.
//!
//! The executor touches no file. It answers each event with the action that
//! its caller is to perform, and takes that action's result as the next
//! event.

use crate::source::pairs_view;
use vstd::prelude::*;
use vstd::string::StringExecFns;

verus! {

/// What a run may and may not do.
#[derive(Clone, Copy, Debug, PartialEq, Eq, Structural)]
pub struct Options {
    /// Nothing is renamed; the report says what would have been.
    pub dry_run: bool,
    /// The report holds the table of destinations and inputs.
    pub need_map: bool,
    /// A destination that exists is written over.
    pub overwrite: bool,
    /// The missing ancestors of a destination are made.
    pub mkdir: bool,
}

/// What became of one pair.
#[derive(Debug, PartialEq, Eq)]
pub enum Outcome {
    Renamed,
    /// Left alone, as a dry run does.
    Skipped,
    /// The rename failed, for this reason.
    Failed(String),
}

/// What the executor waits for.
#[derive(Clone, Copy, Debug, PartialEq, Eq, Structural)]
pub enum Phase {
    /// The next pair.
    Idle,
    /// Whether the destination exists.
    Probing,
    /// The making of the destination's ancestors.
    Parenting,
    /// The result of the rename.
    Renaming,
}

/// What the caller tells the executor.
#[derive(Debug, PartialEq, Eq)]
pub enum Event {
    /// The next pair: the input and the destination computed for it.
    Pair(String, String),
    /// Whether the path last asked about exists.
    Exists(bool),
    /// The ancestors were seen to, with or without success.
    ParentsDone,
    /// The rename was tried: `None` where it succeeded, else the reason.
    RenameDone(Option<String>),
}

/// What the executor asks of its caller.
#[derive(Debug, PartialEq, Eq)]
pub enum Action {
    /// Say whether this path exists.
    Probe(String),
    /// Make the missing ancestors of this path, and do not mind a failure.
    MakeParents(String),
    /// Rename the first path to the second.
    Rename(String, String),
    /// The pair is done: hand over the next one.
    Next,
    /// The event came out of turn and changed nothing.
    Ignored,
}

/// The state of a run.
#[derive(Debug)]
pub struct Executor {
    options: Options,
    phase: Phase,
    input: String,
    output: String,
    free: bool,
    map: Vec<(String, String)>,
    outcomes: Vec<Outcome>,
    had_error: bool,
}

/// An executor by what it holds.
pub struct ExecutorView {
    pub options: Options,
    pub phase: Phase,
    /// The input of the pair at hand.
    pub input: Seq<char>,
    /// Its destination, as far as it is settled.
    pub output: Seq<char>,
    /// Whether that destination was last seen not to exist.
    pub free: bool,
    /// Destinations and their inputs, in the order of first entry.
    pub map: Seq<(Seq<char>, Seq<char>)>,
    /// One outcome for each pair that is done, in order.
    pub outcomes: Seq<Outcome>,
    pub had_error: bool,
}

impl View for Executor {
    type V = ExecutorView;

    closed spec fn view(&self) -> ExecutorView {
        ExecutorView {
            options: self.options,
            phase: self.phase,
            input: self.input@,
            output: self.output@,
            free: self.free,
            map: pairs_view(self.map@),
            outcomes: self.outcomes@,
            had_error: self.had_error,
        }
    }
}

/// The first place of `key` in a table, or the table's length.
pub open spec fn first_place(table: Seq<(Seq<char>, Seq<char>)>, key: Seq<char>) -> int
    decreases table.len(),
{
    if table.len() == 0 {
        0
    } else if table[0].0 == key {
        0
    } else {
        1 + first_place(table.drop_first(), key)
    }
}

/// A table after `key` is given `value`: in the key's place where it has
/// one, else at the end.
pub open spec fn recorded(table: Seq<(Seq<char>, Seq<char>)>, key: Seq<char>, value: Seq<char>) -> Seq<
    (Seq<char>, Seq<char>),
> {
    if first_place(table, key) < table.len() {
        table.update(first_place(table, key), (key, value))
    } else {
        table.push((key, value))
    }
}

/// No destination stands twice in a table.
pub open spec fn destinations_distinct(table: Seq<(Seq<char>, Seq<char>)>) -> bool {
    forall|i: int, j: int|
        0 <= i < j < table.len() ==> (#[trigger] table[i]).0 != (#[trigger] table[j]).0
}

/// Whether any of the outcomes is a failure.
pub open spec fn any_failed(outcomes: Seq<Outcome>) -> bool {
    exists|i: int| 0 <= i < outcomes.len() && (#[trigger] outcomes[i]) is Failed
}

impl ExecutorView {
    /// Where destinations may not be written over, none is made ready or
    /// renamed to that was not seen to be free.
    pub open spec fn guarded(self) -> bool {
        (self.phase == Phase::Parenting || self.phase == Phase::Renaming)
            && !self.options.overwrite ==> self.free
    }

    /// A dry run waits for no directory and no rename, and has no error.
    pub open spec fn harmless(self) -> bool {
        self.options.dry_run ==> self.phase != Phase::Parenting && self.phase != Phase::Renaming
            && !self.had_error
    }

    /// The error flag is set exactly where a pair has failed, no
    /// destination stands twice in the table, the state is guarded, and a
    /// dry run is harmless.
    pub open spec fn wf(self) -> bool {
        &&& self.had_error == any_failed(self.outcomes)
        &&& destinations_distinct(self.map)
        &&& self.guarded()
        &&& self.harmless()
    }

    /// The state once the pair at hand is done with `outcome`: the flag is
    /// set by a failure, and the table takes the pair unless it failed or no
    /// table is kept.
    pub open spec fn settled(self, outcome: Outcome) -> ExecutorView {
        ExecutorView {
            phase: Phase::Idle,
            map: if self.options.need_map && !(outcome is Failed) {
                recorded(self.map, self.output, self.input)
            } else {
                self.map
            },
            outcomes: self.outcomes.push(outcome),
            had_error: self.had_error || outcome is Failed,
            ..self
        }
    }

    /// Once the ancestors are seen to: a dry run is done with the pair, any
    /// other run asks for the rename.
    pub open spec fn launches(self, post: ExecutorView, action: Action) -> bool {
        if self.options.dry_run {
            post == self.settled(Outcome::Skipped) && action is Next
        } else {
            post == (ExecutorView { phase: Phase::Renaming, ..self }) && (action matches Action::Rename(
                from,
                to,
            ) && from@ == self.input && to@ == self.output)
        }
    }

    /// Once the destination is settled: the ancestors are asked for where
    /// they are to be made and the run is no dry run, else the rename is
    /// next.
    pub open spec fn prepares(self, post: ExecutorView, action: Action) -> bool {
        if self.options.mkdir && !self.options.dry_run {
            post == (ExecutorView { phase: Phase::Parenting, ..self }) && (
            action matches Action::MakeParents(p) && p@ == self.output)
        } else {
            self.launches(post, action)
        }
    }

    /// Whether `event` may take this state to `post` with `action`.
    ///
    /// A pair is probed unless destinations may be written over. A
    /// destination that exists gives way to the one with an underscore
    /// before its file name, which is probed in turn; one that does not is
    /// kept. An event out of turn changes
    /// nothing.
    pub open spec fn steps(self, event: Event, post: ExecutorView, action: Action) -> bool {
        match (self.phase, event) {
            (Phase::Idle, Event::Pair(input, output)) => {
                let taken = ExecutorView { input: input@, output: output@, free: false, ..self };
                if self.options.overwrite {
                    taken.prepares(post, action)
                } else {
                    post == (ExecutorView { phase: Phase::Probing, ..taken }) && (
                    action matches Action::Probe(p) && p@ == output@)
                }
            },
            (Phase::Probing, Event::Exists(true)) => {
                post == (ExecutorView { output: post.output, ..self }) && gives_way(
                    self.output,
                    post.output,
                ) && (action matches Action::Probe(p) && p@ == post.output)
            },
            (Phase::Probing, Event::Exists(false)) => (ExecutorView {
                free: true,
                ..self
            }).prepares(post, action),
            (Phase::Parenting, Event::ParentsDone) => self.launches(post, action),
            (Phase::Renaming, Event::RenameDone(None)) => post == self.settled(Outcome::Renamed)
                && action is Next,
            (Phase::Renaming, Event::RenameDone(Some(reason))) => post == self.settled(
                Outcome::Failed(reason),
            ) && action is Next,
            _ => post == self && action is Ignored,
        }
    }
}

/// The error flag follows the outcomes: where it is set exactly if a pair
/// has failed, it is so after any step, and a step sets it only by the
/// failure of a rename.
pub proof fn lemma_flag_follows_failures(
    pre: ExecutorView,
    event: Event,
    post: ExecutorView,
    action: Action,
)
    requires
        pre.had_error == any_failed(pre.outcomes),
        pre.steps(event, post, action),
    ensures
        post.had_error == any_failed(post.outcomes),
        post.had_error == (pre.had_error || (pre.phase == Phase::Renaming
            && event matches Event::RenameDone(Some(_)))),
{
    if post.outcomes != pre.outcomes {
        let outcome = post.outcomes.last();
        assert(post.outcomes == pre.outcomes.push(outcome));
        lemma_failed_push(pre.outcomes, outcome);
    }
}

/// A failure is among the outcomes after one more exactly if it was among
/// them before or the new one is a failure.
pub proof fn lemma_failed_push(outcomes: Seq<Outcome>, outcome: Outcome)
    ensures
        any_failed(outcomes.push(outcome)) == (any_failed(outcomes) || outcome is Failed),
{
    let after = outcomes.push(outcome);
    if any_failed(outcomes) {
        let i = choose|i: int| 0 <= i < outcomes.len() && (#[trigger] outcomes[i]) is Failed;
        assert(after[i] is Failed);
    }
    if outcome is Failed {
        assert(after[outcomes.len() as int] is Failed);
    }
    if any_failed(after) {
        let i = choose|i: int| 0 <= i < after.len() && (#[trigger] after[i]) is Failed;
        if i < outcomes.len() {
            assert(outcomes[i] is Failed);
        }
    }
}

/// Nothing is written over unasked: where destinations may not be written
/// over, a rename is asked for only to a destination that was last seen not
/// to exist, and the rename names the pair at hand.
pub proof fn lemma_rename_only_to_free(
    pre: ExecutorView,
    event: Event,
    post: ExecutorView,
    action: Action,
)
    requires
        pre.guarded(),
        pre.steps(event, post, action),
    ensures
        post.guarded(),
        action matches Action::Rename(from, to) ==> from@ == post.input && to@ == post.output && (
        post.free || post.options.overwrite),
{
}

/// A dry run never asks for a rename or for a directory, and stays a dry
/// run.
pub proof fn lemma_dry_run_renames_nothing(
    pre: ExecutorView,
    event: Event,
    post: ExecutorView,
    action: Action,
)
    requires
        pre.options.dry_run,
        pre.steps(event, post, action),
    ensures
        !(action is Rename),
        !(action is MakeParents),
        post.options == pre.options,
{
}

/// A dry run never fails: where it is harmless before a step it is so
/// after, and its error flag stays unset.
pub proof fn lemma_dry_run_sets_no_flag(
    pre: ExecutorView,
    event: Event,
    post: ExecutorView,
    action: Action,
)
    requires
        pre.options.dry_run,
        pre.harmless(),
        pre.steps(event, post, action),
    ensures
        post.harmless(),
        !post.had_error,
{
}

/// A dry run enters in the table what the rename would have entered: a
/// pair that a dry run skips and the same pair renamed leave the same
/// table.
pub proof fn lemma_dry_run_records_alike(dry: ExecutorView, wet: ExecutorView)
    requires
        dry.input == wet.input,
        dry.output == wet.output,
        dry.map == wet.map,
        dry.options.need_map == wet.options.need_map,
    ensures
        dry.settled(Outcome::Skipped).map == wet.settled(Outcome::Renamed).map,
{
}

/// Whether `run` stands somewhere in `text`, character by character.
#[verifier::opaque]
pub open spec fn is_run_of(run: Seq<char>, text: Seq<char>) -> bool {
    exists|at: int|
        0 <= at && at + run.len() <= text.len() && #[trigger] text.subrange(at, at + run.len())
            == run
}

/// Whether `text` ends with `tail`.
pub open spec fn ends_with(text: Seq<char>, tail: Seq<char>) -> bool {
    tail.len() <= text.len() && text.subrange(text.len() - tail.len(), text.len() as int) == tail
}

/// Whether `text` is one plain name on every machine: not empty, neither
/// `.` nor `..`, and without `/`, `\` and `:`.
pub open spec fn is_plain(text: Seq<char>) -> bool {
    &&& text.len() > 0
    &&& text != seq!['.']
    &&& text != seq!['.', '.']
    &&& forall|i: int|
        0 <= i < text.len() ==> #[trigger] text[i] != '/' && text[i] != '\\' && text[i] != ':'
}

/// A name that may be missing, by its characters; nothing where it is.
pub open spec fn name_or_nothing(name: Option<String>) -> Seq<char> {
    match name {
        Some(n) => n@,
        None => Seq::<char>::empty(),
    }
}

/// Whether `to` may be the path that gives way to `path`: it ends with an
/// underscore and a name that stands in `path`, as far as that is one plain
/// name; and for a path that is one plain name, it is the underscore and
/// the path.
pub open spec fn gives_way(path: Seq<char>, to: Seq<char>) -> bool {
    &&& is_plain(path) ==> to == seq!['_'] + path
    &&& exists|name: Seq<char>| #[trigger]
        is_run_of(name, path) && (is_plain(seq!['_'] + name) ==> ends_with(
            to,
            seq!['_'] + name,
        ))
}

/// Calls `std::path::Path::file_name` and hands out the name where it is
/// valid text. The name is the final component of the path, so it stands in
/// the path; and a path that is one plain name is its own file name.
#[verifier::external_body]
fn file_name_of(path: &str) -> (found: Option<String>)
    ensures
        is_run_of(name_or_nothing(found), path@),
        is_plain(path@) ==> found.is_some() && name_or_nothing(found) == path@,
{
    std::path::Path::new(path).file_name().and_then(|n| n.to_str()).map(String::from)
}

/// Calls `std::path::Path::with_file_name`. The path that comes back has
/// the given file name: it ends with the name, where that is one plain
/// name; and it is the name, where the path was one plain name too.
#[verifier::external_body]
fn with_file_name(path: &str, name: &str) -> (changed: String)
    ensures
        is_plain(name@) ==> ends_with(changed@, name@),
        is_plain(name@) && is_plain(path@) ==> changed@ == name@,
{
    std::path::Path::new(path).with_file_name(name).to_string_lossy().to_string()
}

/// A file name with an underscore before it; the bare underscore where
/// there is no name.
pub fn underscored_name(name: Option<String>) -> (r: String)
    ensures
        r@ == seq!['_'] + match name {
            Some(n) => n@,
            None => Seq::<char>::empty(),
        },
{
    proof {
        reveal_strlit("_");
        assert("_"@ =~= seq!['_']);
    }
    let mark: String = String::from_str("_");
    match name {
        Some(n) => mark.concat(n.as_str()),
        None => {
            assert(mark@ =~= seq!['_'] + Seq::<char>::empty());
            mark
        },
    }
}

/// The path that gives way to `path`: the same, with an underscore before
/// its file name.
pub fn give_way(path: &str) -> (r: String)
    ensures
        gives_way(path@, r@),
{
    let found: Option<String> = file_name_of(path);
    let ghost base = name_or_nothing(found);
    let name: String = underscored_name(found);
    let r: String = with_file_name(path, name.as_str());
    proof {
        assert(name@ == seq!['_'] + base);
        if is_plain(path@) {
            lemma_underscored_plain(path@);
        }
    }
    r
}

/// A plain name with an underscore before it is a plain name.
pub proof fn lemma_underscored_plain(name: Seq<char>)
    requires
        is_plain(name),
    ensures
        is_plain(seq!['_'] + name),
{
    let marked = seq!['_'] + name;
    assert(marked[0] == '_');
    assert(seq!['.'][0] == '.');
    assert(seq!['.', '.'][0] == '.');
    assert forall|i: int| 0 <= i < marked.len() implies #[trigger] marked[i] != '/' && marked[i]
        != '\\' && marked[i] != ':' by {
        if i > 0 {
            assert(marked[i] == name[i - 1]);
        }
    }
}

/// Gives `key` the value `value` in a table: in the key's place where it
/// has one, else at the end.
pub fn record(table: &mut Vec<(String, String)>, key: String, value: String)
    ensures
        pairs_view(final(table)@) == recorded(pairs_view(old(table)@), key@, value@),
        destinations_distinct(pairs_view(old(table)@)) ==> destinations_distinct(
            pairs_view(final(table)@),
        ),
{
    let ghost before = pairs_view(table@);
    let n: usize = table.len();
    let mut i: usize = 0;
    assert(before.skip(0) =~= before);
    while i < n
        invariant
            n == table@.len(),
            before == pairs_view(table@),
            before == pairs_view(old(table)@),
            i <= n,
            first_place(before, key@) == i + first_place(before.skip(i as int), key@),
            forall|j: int| 0 <= j < i ==> (#[trigger] before[j]).0 != key@,
        decreases n - i,
    {
        proof {
            let rest = before.skip(i as int);
            assert(rest[0] == before[i as int]);
            assert(rest.drop_first() =~= before.skip(i + 1));
        }
        if table[i].0 == key {
            assert(before[i as int].0 == key@);
            assert(first_place(before.skip(i as int), key@) == 0);
            table.set(i, (key, value));
            let ghost after = pairs_view(table@);
            assert(after =~= before.update(i as int, (key@, value@)));
            assert(destinations_distinct(before) ==> destinations_distinct(after)) by {
                if destinations_distinct(before) {
                    assert forall|a: int, b: int| 0 <= a < b < after.len() implies (
                    #[trigger] after[a]).0 != (#[trigger] after[b]).0 by {
                        assert(after[a].0 == before[a].0);
                        assert(after[b].0 == before[b].0);
                    }
                }
            }
            return ;
        }
        i += 1;
    }
    assert(before.skip(n as int).len() == 0);
    table.push((key, value));
    assert(pairs_view(table@) =~= before.push((key@, value@)));
}

impl Executor {
    /// An executor that has seen no pair.
    pub fn new(options: Options) -> (r: Executor)
        ensures
            r@.wf(),
            r@ == (ExecutorView {
                options,
                phase: Phase::Idle,
                input: Seq::<char>::empty(),
                output: Seq::<char>::empty(),
                free: false,
                map: Seq::<(Seq<char>, Seq<char>)>::empty(),
                outcomes: Seq::<Outcome>::empty(),
                had_error: false,
            }),
    {
        let r = Executor {
            options,
            phase: Phase::Idle,
            input: String::new(),
            output: String::new(),
            free: false,
            map: Vec::new(),
            outcomes: Vec::new(),
            had_error: false,
        };
        assert(pairs_view(r.map@) =~= Seq::<(Seq<char>, Seq<char>)>::empty());
        r
    }

    fn settle(&mut self, outcome: Outcome) -> (action: Action)
        requires
            old(self)@.wf(),
            outcome is Failed ==> !old(self)@.options.dry_run,
        ensures
            final(self)@.wf(),
            final(self)@ == old(self)@.settled(outcome),
            action is Next,
    {
        let failed: bool = match &outcome {
            Outcome::Failed(_) => true,
            _ => false,
        };
        if failed {
            self.had_error = true;
        } else if self.options.need_map {
            record(&mut self.map, self.output.clone(), self.input.clone());
        }
        proof {
            lemma_failed_push(self.outcomes@, outcome);
        }
        self.outcomes.push(outcome);
        self.phase = Phase::Idle;
        Action::Next
    }

    fn launch(&mut self) -> (action: Action)
        requires
            old(self)@.wf(),
            old(self)@.free || old(self)@.options.overwrite,
        ensures
            final(self)@.wf(),
            old(self)@.launches(final(self)@, action),
    {
        if self.options.dry_run {
            self.settle(Outcome::Skipped)
        } else {
            self.phase = Phase::Renaming;
            Action::Rename(self.input.clone(), self.output.clone())
        }
    }

    fn prepare(&mut self) -> (action: Action)
        requires
            old(self)@.wf(),
            old(self)@.free || old(self)@.options.overwrite,
        ensures
            final(self)@.wf(),
            old(self)@.prepares(final(self)@, action),
    {
        if self.options.mkdir && !self.options.dry_run {
            self.phase = Phase::Parenting;
            Action::MakeParents(self.output.clone())
        } else {
            self.launch()
        }
    }

    /// Takes one event and says what the caller is to do next.
    pub fn step(&mut self, event: Event) -> (action: Action)
        requires
            old(self)@.wf(),
        ensures
            final(self)@.wf(),
            old(self)@.steps(event, final(self)@, action),
            old(self)@.options.dry_run ==> !(action is Rename) && !(action is MakeParents),
            action is Rename ==> final(self)@.free || final(self)@.options.overwrite,
    {
        match (self.phase, event) {
            (Phase::Idle, Event::Pair(input, output)) => {
                self.input = input;
                self.output = output;
                self.free = false;
                if self.options.overwrite {
                    self.prepare()
                } else {
                    self.phase = Phase::Probing;
                    Action::Probe(self.output.clone())
                }
            },
            (Phase::Probing, Event::Exists(true)) => {
                self.output = give_way(self.output.as_str());
                Action::Probe(self.output.clone())
            },
            (Phase::Probing, Event::Exists(false)) => {
                self.free = true;
                self.prepare()
            },
            (Phase::Parenting, Event::ParentsDone) => self.launch(),
            (Phase::Renaming, Event::RenameDone(None)) => self.settle(Outcome::Renamed),
            (Phase::Renaming, Event::RenameDone(Some(reason))) => self.settle(
                Outcome::Failed(reason),
            ),
            _ => Action::Ignored,
        }
    }

    /// Whether any pair has failed so far.
    pub fn had_error(&self) -> (r: bool)
        ensures
            r == self@.had_error,
    {
        self.had_error
    }

    /// What the executor waits for.
    pub fn phase(&self) -> (r: Phase)
        ensures
            r == self@.phase,
    {
        self.phase
    }

    /// The table of destinations and their inputs, where one is kept.
    pub fn result_map(&self) -> (r: Option<&Vec<(String, String)>>)
        ensures
            r.is_some() == self@.options.need_map,
            r matches Some(table) ==> pairs_view(table@) == self@.map,
    {
        if self.options.need_map {
            Some(&self.map)
        } else {
            None
        }
    }

    /// The outcomes so far, one for each pair that is done.
    pub fn outcomes(&self) -> (r: &Vec<Outcome>)
        ensures
            r@ == self@.outcomes,
    {
        &self.outcomes
    }
}

} // verus!
