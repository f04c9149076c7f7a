//! The pairs of a run: each input with the destination computed for it, in
//! the order in which they are renamed.

use crate::collector::names_view;
use crate::collector::ordered;
use crate::collector::sort_names;
use crate::formatter::checked;
use crate::formatter::destined;
use crate::formatter::group_limit;
use crate::formatter::group_names;
use crate::formatter::Formatter;
use crate::formatter::PieceView;
use crate::formatter::TemplateError;
use crate::source::groups_view;
use crate::source::pairs_view;
use crate::source::pattern_captures;
use crate::source::Source;
use vstd::prelude::*;

verus! {

/// A file that a source has chosen, with the groups of its match.
#[derive(Debug, PartialEq, Eq)]
pub struct Candidate {
    pub path: String,
    pub groups: Vec<Option<String>>,
}

/// The pairs that are still to come, input first.
#[derive(Debug)]
pub struct Context {
    pairs: Vec<(String, String)>,
    next: usize,
}

impl View for Context {
    type V = Seq<(Seq<char>, Seq<char>)>;

    closed spec fn view(&self) -> Seq<(Seq<char>, Seq<char>)> {
        if self.next <= self.pairs@.len() {
            pairs_view(self.pairs@).skip(self.next as int)
        } else {
            Seq::empty()
        }
    }
}

/// Why the pairs of a run could not be made.
#[derive(Debug, PartialEq, Eq)]
pub enum ContextError {
    /// The source needs an output template, and none was given.
    NoTemplate,
    /// The template does not fit the source.
    Template(TemplateError),
}

/// The paths of the files, without their depths.
pub open spec fn paths(files: Seq<(Seq<char>, usize)>) -> Seq<Seq<char>> {
    Seq::new(files.len(), |i: int| files[i].0)
}

/// The inputs of the pairs, without their destinations.
pub open spec fn inputs(pairs: Seq<(Seq<char>, Seq<char>)>) -> Seq<Seq<char>> {
    Seq::new(pairs.len(), |i: int| pairs[i].0)
}

/// Whether `pairs` are the pairs of a source over the files found, with a
/// template that fits it.
///
/// A pattern gives one pair for each file that it chooses, in the order
/// found. A sort gives one pair for each file, in the sorted order. Each
/// destination is what the template gives for the pair's groups and place.
pub open spec fn paired(
    source: Source,
    template: Seq<PieceView>,
    keep: bool,
    files: Seq<(Seq<char>, usize)>,
    pairs: Seq<(Seq<char>, Seq<char>)>,
) -> bool {
    match source {
        Source::Mapping(table) => pairs == turned(pairs_view(table@)),
        Source::Sort(order) => {
            &&& ordered(inputs(pairs), order)
            &&& inputs(pairs).to_multiset() == paths(files).to_multiset()
            &&& forall|k: int|
                0 <= k < pairs.len() ==> destined(
                    template,
                    pairs[k].0,
                    Seq::<Option<Seq<char>>>::empty(),
                    Seq::<Option<Seq<char>>>::empty(),
                    k as nat,
                    keep,
                    (#[trigger] pairs[k]).1,
                )
        },
        Source::Regex(_, _, _) => {
            &&& pairs.len() == chosen(source, files).len()
            &&& forall|k: int|
                0 <= k < pairs.len() ==> (#[trigger] pairs[k]).0 == chosen(source, files)[k].0
                    && destined(
                    template,
                    pairs[k].0,
                    group_names(source),
                    chosen(source, files)[k].1,
                    k as nat,
                    keep,
                    pairs[k].1,
                )
        },
    }
}

/// What making the pairs of a run gives. A table needs no template and
/// gives its pairs turned round. Any other source fails without a template,
/// and with one that asks for what the source lacks.
pub open spec fn composed(
    source: Source,
    template: Option<Seq<PieceView>>,
    keep: bool,
    files: Seq<(Seq<char>, usize)>,
    r: Result<Context, ContextError>,
) -> bool {
    match (source, template) {
        (Source::Mapping(table), _) => r matches Ok(context) && context@ == turned(
            pairs_view(table@),
        ),
        (_, None) => r matches Err(e) && e == ContextError::NoTemplate,
        (_, Some(pieces)) => match r {
            Ok(context) => checked(pieces, group_limit(source), group_names(source), Ok(()))
                && paired(source, pieces, keep, files, context@),
            Err(ContextError::Template(e)) => checked(
                pieces,
                group_limit(source),
                group_names(source),
                Err(e),
            ),
            Err(ContextError::NoTemplate) => false,
        },
    }
}

/// The candidates by their characters.
pub open spec fn candidates_view(candidates: Seq<Candidate>) -> Seq<
    (Seq<char>, Seq<Option<Seq<char>>>),
> {
    Seq::new(candidates.len(), |i: int| (candidates[i].path@, groups_view(candidates[i].groups@)))
}

/// The files by their characters, each with its depth.
pub open spec fn files_view(files: Seq<(String, usize)>) -> Seq<(Seq<char>, usize)> {
    Seq::new(files.len(), |i: int| (files[i].0@, files[i].1))
}

/// What a source chooses among files, each given with its depth: those
/// within its depth bounds that its pattern matches, in the order given,
/// each once. A source without a pattern chooses none.
pub open spec fn chosen(source: Source, files: Seq<(Seq<char>, usize)>) -> Seq<
    (Seq<char>, Seq<Option<Seq<char>>>),
>
    decreases files.len(),
{
    if files.len() == 0 {
        Seq::empty()
    } else {
        let earlier = chosen(source, files.drop_last());
        let (path, depth) = files.last();
        match source {
            Source::Regex(m, _, _) if source.admits_depth(depth) => match pattern_captures(
                m@,
                path,
            ) {
                Some(groups) => earlier.push((path, groups)),
                None => earlier,
            },
            _ => earlier,
        }
    }
}

/// A table with each pair turned round.
pub open spec fn turned(table: Seq<(Seq<char>, Seq<char>)>) -> Seq<(Seq<char>, Seq<char>)> {
    Seq::new(table.len(), |i: int| (table[i].1, table[i].0))
}

/// The paths of the files, without their depths.
pub fn file_names(files: &Vec<(String, usize)>) -> (r: Vec<String>)
    ensures
        names_view(r@) == paths(files_view(files@)),
{
    let n: usize = files.len();
    let mut names: Vec<String> = Vec::new();
    let mut i: usize = 0;
    while i < n
        invariant
            n == files@.len(),
            i <= n,
            names@.len() == i,
            forall|k: int| 0 <= k < i ==> (#[trigger] names@[k])@ == files@[k].0@,
        decreases n - i,
    {
        names.push(files[i].0.clone());
        i += 1;
    }
    assert(names_view(names@) =~= paths(files_view(files@)));
    names
}

/// A table turned round twice is the table: the pairs that a table of
/// destinations and inputs gives are the renames that the table records,
/// and turning those round gives the table back.
pub proof fn lemma_turned_twice(table: Seq<(Seq<char>, Seq<char>)>)
    ensures
        turned(turned(table)) == table,
        turned(table).len() == table.len(),
        forall|k: int|
            0 <= k < table.len() ==> (#[trigger] turned(table)[k]) == (table[k].1, table[k].0),
{
    assert(turned(turned(table)) =~= table);
}

/// The candidates that a source chooses among files, each given with its
/// depth below the working directory.
pub fn select(source: &Source, files: &Vec<(String, usize)>) -> (r: Vec<Candidate>)
    ensures
        candidates_view(r@) == chosen(*source, files_view(files@)),
{
    let n: usize = files.len();
    let mut found: Vec<Candidate> = Vec::new();
    let mut i: usize = 0;
    let ghost all = files_view(files@);
    assert(all.subrange(0, 0).len() == 0);
    assert(candidates_view(found@) =~= chosen(*source, all.subrange(0, 0)));
    while i < n
        invariant
            n == files@.len(),
            all == files_view(files@),
            i <= n,
            candidates_view(found@) == chosen(*source, all.subrange(0, i as int)),
        decreases n - i,
    {
        proof {
            let next = all.subrange(0, i + 1);
            assert(next.drop_last() =~= all.subrange(0, i as int));
            assert(next.last() == all[i as int]);
        }
        let ghost before = candidates_view(found@);
        match source.candidate(files[i].0.as_str(), files[i].1) {
            Some(groups) => {
                let path: String = files[i].0.clone();
                found.push(Candidate { path, groups });
                assert(candidates_view(found@) =~= before.push((path@, groups_view(groups@))));
            },
            None => {},
        }
        i += 1;
    }
    assert(all.subrange(0, n as int) =~= all);
    found
}

impl Context {
    /// The pairs of a run: those of a source over the files found, each
    /// given with its depth below the working directory, with the
    /// destinations that the template gives.
    pub fn new(
        source: &Source,
        formatter: Option<&Formatter>,
        keep: bool,
        files: &Vec<(String, usize)>,
    ) -> (r: Result<Context, ContextError>)
        ensures
            composed(
                *source,
                match formatter {
                    Some(f) => Some(f@),
                    None => None,
                },
                keep,
                files_view(files@),
                r,
            ),
    {
        if let Source::Mapping(table) = source {
            return Ok(Context::from_mapping(table));
        }
        let formatter: &Formatter = match formatter {
            Some(f) => f,
            None => {
                return Err(ContextError::NoTemplate);
            },
        };
        match formatter.check_source(source) {
            Ok(_) => {},
            Err(e) => {
                return Err(ContextError::Template(e));
            },
        }
        match source {
            Source::Regex(m, _, _) => {
                let candidates: Vec<Candidate> = select(source, files);
                let names: Vec<Option<String>> = m.names();
                let context = Context::from_candidates(&candidates, &names, formatter, keep);
                proof {
                    let found = chosen(*source, files_view(files@));
                    assert forall|k: int| 0 <= k < context@.len() implies (
                    #[trigger] context@[k]).0 == found[k].0 && destined(
                        formatter@,
                        context@[k].0,
                        group_names(*source),
                        found[k].1,
                        k as nat,
                        keep,
                        context@[k].1,
                    ) by {
                        assert(found[k] == candidates_view(candidates@)[k]);
                    }
                }
                Ok(context)
            },
            Source::Sort(order) => {
                let names: Vec<String> = file_names(files);
                let sorted: Vec<String> = sort_names(names, *order);
                let context = Context::from_names(&sorted, formatter, keep);
                proof {
                    assert(inputs(context@) =~= names_view(sorted@)) by {
                        assert forall|k: int| 0 <= k < sorted@.len() implies inputs(context@)[k]
                            == names_view(sorted@)[k] by {
                            assert(context@[k].0 == sorted@[k]@);
                        }
                    }
                    assert(names_view(names@) =~= paths(files_view(files@)));
                }
                Ok(context)
            },
            Source::Mapping(table) => Ok(Context::from_mapping(table)),
        }
    }

    /// The pairs of a table. The table names the destination first; a pair
    /// names the input first.
    pub fn from_mapping(table: &Vec<(String, String)>) -> (r: Context)
        ensures
            r@ == turned(pairs_view(table@)),
    {
        let n: usize = table.len();
        let mut pairs: Vec<(String, String)> = Vec::new();
        let mut i: usize = 0;
        while i < n
            invariant
                n == table@.len(),
                i <= n,
                pairs@.len() == i,
                forall|k: int|
                    0 <= k < i ==> (#[trigger] pairs@[k]).0@ == table@[k].1@ && pairs@[k].1@
                        == table@[k].0@,
            decreases n - i,
        {
            pairs.push((table[i].1.clone(), table[i].0.clone()));
            i += 1;
        }
        let r = Context { pairs, next: 0 };
        assert(pairs_view(r.pairs@).skip(0) =~= turned(pairs_view(table@)));
        r
    }

    /// One pair for each candidate, in order: its path, and the destination
    /// that the template gives for its groups, whose names are `names`, and
    /// its place.
    pub fn from_candidates(
        candidates: &Vec<Candidate>,
        names: &Vec<Option<String>>,
        formatter: &Formatter,
        keep: bool,
    ) -> (r: Context)
        ensures
            r@.len() == candidates@.len(),
            forall|k: int|
                0 <= k < candidates@.len() ==> (#[trigger] r@[k]).0 == candidates@[k].path@
                    && destined(
                    formatter@,
                    candidates@[k].path@,
                    groups_view(names@),
                    groups_view(candidates@[k].groups@),
                    k as nat,
                    keep,
                    r@[k].1,
                ),
    {
        let n: usize = candidates.len();
        let mut pairs: Vec<(String, String)> = Vec::new();
        let mut i: usize = 0;
        while i < n
            invariant
                n == candidates@.len(),
                i <= n,
                pairs@.len() == i,
                forall|k: int|
                    0 <= k < i ==> (#[trigger] pairs@[k]).0@ == candidates@[k].path@ && destined(
                        formatter@,
                        candidates@[k].path@,
                        groups_view(names@),
                        groups_view(candidates@[k].groups@),
                        k as nat,
                        keep,
                        pairs@[k].1@,
                    ),
            decreases n - i,
        {
            let to: String = formatter.format(
                candidates[i].path.as_str(),
                names,
                &candidates[i].groups,
                i,
                keep,
            );
            pairs.push((candidates[i].path.clone(), to));
            i += 1;
        }
        let r = Context { pairs, next: 0 };
        assert(pairs_view(r.pairs@).skip(0) =~= pairs_view(pairs@));
        assert forall|k: int| 0 <= k < candidates@.len() implies (#[trigger] r@[k]).0
            == candidates@[k].path@ && destined(
            formatter@,
            candidates@[k].path@,
            groups_view(names@),
            groups_view(candidates@[k].groups@),
            k as nat,
            keep,
            r@[k].1,
        ) by {
            assert(r@[k] == (pairs@[k].0@, pairs@[k].1@));
        }
        r
    }

    /// One pair for each name of a sorted listing, in order: the name, and
    /// the destination that the template gives for its place. There are no
    /// groups.
    pub fn from_names(names: &Vec<String>, formatter: &Formatter, keep: bool) -> (r: Context)
        ensures
            r@.len() == names@.len(),
            forall|k: int|
                0 <= k < names@.len() ==> (#[trigger] r@[k]).0 == names@[k]@ && destined(
                    formatter@,
                    names@[k]@,
                    Seq::<Option<Seq<char>>>::empty(),
                    Seq::<Option<Seq<char>>>::empty(),
                    k as nat,
                    keep,
                    r@[k].1,
                ),
    {
        let n: usize = names.len();
        let mut pairs: Vec<(String, String)> = Vec::new();
        let none: Vec<Option<String>> = Vec::new();
        assert(groups_view(none@) =~= Seq::<Option<Seq<char>>>::empty());
        let mut i: usize = 0;
        while i < n
            invariant
                n == names@.len(),
                i <= n,
                pairs@.len() == i,
                groups_view(none@) == Seq::<Option<Seq<char>>>::empty(),
                forall|k: int|
                    0 <= k < i ==> (#[trigger] pairs@[k]).0@ == names@[k]@ && destined(
                        formatter@,
                        names@[k]@,
                        Seq::<Option<Seq<char>>>::empty(),
                        Seq::<Option<Seq<char>>>::empty(),
                        k as nat,
                        keep,
                        pairs@[k].1@,
                    ),
            decreases n - i,
        {
            let to: String = formatter.format(names[i].as_str(), &none, &none, i, keep);
            pairs.push((names[i].clone(), to));
            i += 1;
        }
        let r = Context { pairs, next: 0 };
        assert(pairs_view(r.pairs@).skip(0) =~= pairs_view(pairs@));
        assert forall|k: int| 0 <= k < names@.len() implies (#[trigger] r@[k]).0 == names@[k]@
            && destined(
            formatter@,
            names@[k]@,
            Seq::<Option<Seq<char>>>::empty(),
            Seq::<Option<Seq<char>>>::empty(),
            k as nat,
            keep,
            r@[k].1,
        ) by {
            assert(r@[k] == (pairs@[k].0@, pairs@[k].1@));
        }
        r
    }

    /// How many pairs are still to come.
    pub fn remaining(&self) -> (r: usize)
        ensures
            r == self@.len(),
    {
        if self.next <= self.pairs.len() {
            self.pairs.len() - self.next
        } else {
            0
        }
    }

    /// The next pair, once. After the last there is none.
    pub fn next(&mut self) -> (r: Option<(String, String)>)
        ensures
            match r {
                Some(pair) => old(self)@.len() > 0 && (pair.0@, pair.1@) == old(self)@[0]
                    && final(self)@ == old(self)@.drop_first(),
                None => old(self)@.len() == 0 && final(self)@ == old(self)@,
            },
    {
        if self.next < self.pairs.len() {
            let pair = (self.pairs[self.next].0.clone(), self.pairs[self.next].1.clone());
            assert(self@[0] == pairs_view(self.pairs@)[self.next as int]);
            self.next = self.next + 1;
            assert(self@ =~= old(self)@.drop_first());
            Some(pair)
        } else {
            None
        }
    }
}

} // verus!
