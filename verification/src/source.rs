//! The three ways of choosing what is renamed: by pattern, by an explicit
//! table, or by sorted position.

use vstd::prelude::*;
use vstd::string::StrSliceExecFns;
use vstd::string::StringExecFns;

verus! {

#[verifier::external_type_specification]
#[verifier::external_body]
pub struct ExRegex(regex::Regex);

#[verifier::external_type_specification]
#[verifier::external_body]
pub struct ExRegexError(regex::Error);

#[verifier::external_type_specification]
#[verifier::external_body]
pub struct ExJsonError(serde_json::Error);

/// Whether `regex::Regex::new` accepts this pattern text: it is a valid
/// pattern and compiles within the size limit.
pub uninterp spec fn pattern_compiles(text: Seq<char>) -> bool;

/// What `regex::Regex::captures` finds when the regex compiled from `text`
/// searches `haystack`: nothing, or one entry per group, group 0 being the
/// whole match and a group that took no part being `None`.
pub uninterp spec fn pattern_captures(text: Seq<char>, haystack: Seq<char>) -> Option<
    Seq<Option<Seq<char>>>,
>;

/// How many groups `regex::Regex::captures_len` counts in the regex
/// compiled from `text`, the whole match included.
pub uninterp spec fn pattern_groups(text: Seq<char>) -> nat;

/// The names that `regex::Regex::capture_names` gives for the regex
/// compiled from `text`: one entry per group, `None` for a group without
/// a name.
pub uninterp spec fn pattern_names(text: Seq<char>) -> Seq<Option<Seq<char>>>;

/// The entries of the JSON object that `serde_json::from_str` reads from
/// `text`, in the order in which the object holds them, a value that is no
/// string being `None`; or `None` where the text is no JSON object.
pub uninterp spec fn json_object(text: Seq<char>) -> Option<Seq<(Seq<char>, Option<Seq<char>>)>>;

/// The direction in which a sorted listing is walked.
#[derive(Clone, Copy, Debug, PartialEq, Eq, Structural)]
pub enum SortOrder {
    Asc,
    Desc,
}

/// A compiled pattern together with the text it was compiled from. Only
/// compiling makes one, so the two always belong together.
#[derive(Debug)]
pub struct Matcher {
    text: String,
    compiled: regex::Regex,
}

impl View for Matcher {
    type V = Seq<char>;

    closed spec fn view(&self) -> Seq<char> {
        self.text@
    }
}

/// Why a source could not be built.
#[derive(Debug)]
pub enum SourceError {
    /// The pattern text does not compile.
    Pattern(regex::Error),
    /// The token names no sort order; it is kept as it was given.
    SortOrder(String),
    /// The mapping text is no JSON object.
    MappingSyntax(serde_json::Error),
    /// The mapping gives this key a value that is no string.
    MappingValue(String),
    /// Neither a pattern nor a sort order nor a mapping was given.
    NotSelected,
}

/// How the inputs of a run are chosen.
#[derive(Debug)]
pub enum Source {
    /// A pattern, the least depth searched and the greatest, if any.
    Regex(Matcher, usize, Option<usize>),
    /// Pairs of destination and input, taken as they are.
    Mapping(Vec<(String, String)>),
    /// Every file of the directory, in this order.
    Sort(SortOrder),
}

/// How often `c` occurs in `s`.
pub open spec fn occurrences(s: Seq<char>, c: char) -> nat
    decreases s.len(),
{
    if s.len() == 0 {
        0
    } else {
        occurrences(s.drop_last(), c) + if s.last() == c {
            1nat
        } else {
            0nat
        }
    }
}

/// The depth that a pattern implies by its own text: one more than the
/// separators in it, held to what a `usize` can hold.
pub open spec fn implied_depth(text: Seq<char>, separator: char) -> int {
    if occurrences(text, separator) < usize::MAX {
        (occurrences(text, separator) + 1) as int
    } else {
        usize::MAX as int
    }
}

/// A text with `n` separators implies the depth `n + 1`, as long as that
/// fits a `usize`; and the implied depth is never zero.
pub proof fn lemma_implied_depth(text: Seq<char>, separator: char)
    ensures
        occurrences(text, separator) < usize::MAX ==> implied_depth(text, separator)
            == occurrences(text, separator) + 1,
        1 <= implied_depth(text, separator) <= usize::MAX,
{
}

/// An upper-case ASCII letter becomes its lower-case form; any other
/// character stays.
pub open spec fn ascii_lower(c: char) -> char {
    if 'A' <= c && c <= 'Z' {
        ((c as u8 + 32) as u8) as char
    } else {
        c
    }
}

/// `s` with every ASCII letter in lower case.
pub open spec fn lowered(s: Seq<char>) -> Seq<char> {
    Seq::new(s.len(), |i: int| ascii_lower(s[i]))
}

/// The pairs of a table, each string by its characters.
pub open spec fn pairs_view(pairs: Seq<(String, String)>) -> Seq<(Seq<char>, Seq<char>)> {
    Seq::new(pairs.len(), |i: int| (pairs[i].0@, pairs[i].1@))
}

/// The entries of a parsed object, each string by its characters.
pub open spec fn entries_view(entries: Seq<(String, Option<String>)>) -> Seq<
    (Seq<char>, Option<Seq<char>>),
> {
    Seq::new(
        entries.len(),
        |i: int|
            (
                entries[i].0@,
                match entries[i].1 {
                    Some(s) => Some(s@),
                    None => None,
                },
            ),
    )
}

/// The groups of a match, each by its characters.
pub open spec fn groups_view(groups: Seq<Option<String>>) -> Seq<Option<Seq<char>>> {
    Seq::new(
        groups.len(),
        |i: int|
            match groups[i] {
                Some(s) => Some(s@),
                None => None,
            },
    )
}

/// No key stands at two places.
pub open spec fn keys_distinct(entries: Seq<(Seq<char>, Option<Seq<char>>)>) -> bool {
    forall|i: int, j: int|
        0 <= i < j < entries.len() ==> (#[trigger] entries[i]).0 != (#[trigger] entries[j]).0
}

/// The first place whose value is no string, or the length if there is none.
pub open spec fn first_unnamed(entries: Seq<(Seq<char>, Option<Seq<char>>)>) -> int
    decreases entries.len(),
{
    if entries.len() == 0 {
        0
    } else if entries[0].1.is_none() {
        0
    } else {
        1 + first_unnamed(entries.drop_first())
    }
}

/// What building a pattern source gives: the source for the text, with the
/// depth given or the one that the text implies for the separator counted,
/// which is `/` or `\`, exactly where the pattern compiles.
pub open spec fn pattern_outcome(
    pattern: Seq<char>,
    depth: Option<usize>,
    max_depth: Option<usize>,
    r: Result<Source, SourceError>,
) -> bool {
    match r {
        Ok(source) => pattern_compiles(pattern) && exists|separator: char|
            (separator == '/' || separator == '\\') && #[trigger] source.is_pattern(
                pattern,
                separator,
                depth,
                max_depth,
            ),
        Err(e) => !pattern_compiles(pattern) && e is Pattern,
    }
}

/// What building a sort source gives: ascending for `asc`, descending for
/// `desc`, in any mix of upper and lower case; for any other token an error
/// that holds the token as it was given.
pub open spec fn sort_outcome(order: Seq<char>, r: Result<Source, SourceError>) -> bool {
    if lowered(order) == "asc"@ {
        r matches Ok(Source::Sort(SortOrder::Asc))
    } else if lowered(order) == "desc"@ {
        r matches Ok(Source::Sort(SortOrder::Desc))
    } else {
        r matches Err(SourceError::SortOrder(token)) && token@ == order
    }
}

/// What building a table gives: an error where the text is no JSON object;
/// an error with the first key whose value is no string; else the table of
/// the object's entries, in their order, no key twice.
pub open spec fn mapping_outcome(contents: Seq<char>, r: Result<Source, SourceError>) -> bool {
    match json_object(contents) {
        None => r matches Err(e) && e is MappingSyntax,
        Some(all) => keys_distinct(all) && match r {
            Ok(source) => first_unnamed(all) == all.len() && source.is_table(
                Seq::new(all.len(), |i: int| (all[i].0, all[i].1.unwrap())),
            ),
            Err(e) => first_unnamed(all) < all.len() && (e matches SourceError::MappingValue(key)
                && key@ == all[first_unnamed(all)].0),
        },
    }
}

/// Calls `regex::Regex::new`. It succeeds exactly on the texts that
/// `pattern_compiles` names, and the matcher then stands for that text.
#[verifier::external_body]
fn compile(text: &str) -> (r: Result<Matcher, regex::Error>)
    ensures
        r.is_ok() == pattern_compiles(text@),
        r matches Ok(m) ==> m@ == text@,
{
    match regex::Regex::new(text) {
        Ok(compiled) => Ok(Matcher { text: text.to_string(), compiled }),
        Err(e) => Err(e),
    }
}

/// Calls `regex::Regex::captures` and hands out each group's text. The
/// result is what `pattern_captures` names for the matcher's text and the
/// haystack.
#[verifier::external_body]
fn captures(matcher: &Matcher, haystack: &str) -> (r: Option<Vec<Option<String>>>)
    ensures
        match r {
            Some(groups) => pattern_captures(matcher@, haystack@) == Some(groups_view(groups@)),
            None => pattern_captures(matcher@, haystack@).is_none(),
        },
{
    match matcher.compiled.captures(haystack) {
        Some(found) => Some(found.iter().map(|g| g.map(|m| m.as_str().to_string())).collect()),
        None => None,
    }
}

/// Calls `regex::Regex::captures_len`: the number of groups that
/// `pattern_groups` names for the matcher's text.
#[verifier::external_body]
fn group_count(matcher: &Matcher) -> (r: usize)
    ensures
        r == pattern_groups(matcher@),
{
    matcher.compiled.captures_len()
}

/// Calls `regex::Regex::capture_names` and hands out each name's text:
/// what `pattern_names` names for the matcher's text.
#[verifier::external_body]
fn capture_names(matcher: &Matcher) -> (r: Vec<Option<String>>)
    ensures
        groups_view(r@) == pattern_names(matcher@),
{
    matcher.compiled.capture_names().map(|name| name.map(String::from)).collect()
}

/// Calls `serde_json::from_str` for a `serde_json::Map` and hands out its
/// entries in the map's order. The result is what `json_object` names for the
/// text, and no key of it stands twice, as in any map.
#[verifier::external_body]
fn parse_object(text: &str) -> (r: Result<Vec<(String, Option<String>)>, serde_json::Error>)
    ensures
        match r {
            Ok(entries) => json_object(text@) == Some(entries_view(entries@)) && keys_distinct(
                entries_view(entries@),
            ),
            Err(_) => json_object(text@).is_none(),
        },
{
    match serde_json::from_str::<serde_json::Map<String, serde_json::Value>>(text) {
        Ok(object) => {
            let mut entries = Vec::new();
            for (key, value) in object {
                match value {
                    serde_json::Value::String(s) => entries.push((key, Some(s))),
                    _ => entries.push((key, None)),
                }
            }
            Ok(entries)
        },
        Err(e) => Err(e),
    }
}

/// Reads `std::path::MAIN_SEPARATOR`, the character that parts the
/// components of a path on the machine at hand: `/` on some machines,
/// `\` on the others.
#[verifier::external_body]
fn main_separator() -> (c: char)
    ensures
        c == '/' || c == '\\',
{
    std::path::MAIN_SEPARATOR
}

/// An upper-case ASCII letter in lower case, any other character as it is.
pub fn to_ascii_lower(c: char) -> (r: char)
    ensures
        r == ascii_lower(c),
{
    if 'A' <= c && c <= 'Z' {
        let code: u8 = c as u8;
        let low: u8 = code + 32;
        low as char
    } else {
        c
    }
}

/// Whether `token`, with its ASCII letters in lower case, is `word`.
pub fn equals_lowered(token: &str, word: &str) -> (r: bool)
    ensures
        r == (lowered(token@) == word@),
{
    let n: usize = token.unicode_len();
    if n != word.unicode_len() {
        return false;
    }
    let mut i: usize = 0;
    while i < n
        invariant
            n == token@.len(),
            n == word@.len(),
            i <= n,
            forall|j: int| 0 <= j < i ==> ascii_lower(token@[j]) == word@[j],
        decreases n - i,
    {
        if to_ascii_lower(token.get_char(i)) != word.get_char(i) {
            assert(lowered(token@)[i as int] != word@[i as int]);
            return false;
        }
        i += 1;
    }
    assert(lowered(token@) =~= word@);
    true
}

/// How often `separator` occurs in `text`, plus one; `usize::MAX` where that
/// would not fit.
pub fn default_depth(text: &str, separator: char) -> (r: usize)
    ensures
        r == implied_depth(text@, separator),
{
    let n: usize = text.unicode_len();
    let mut count: usize = 0;
    let mut i: usize = 0;
    while i < n
        invariant
            n == text@.len(),
            i <= n,
            count == occurrences(text@.subrange(0, i as int), separator),
            count <= i,
        decreases n - i,
    {
        let c: char = text.get_char(i);
        proof {
            let next = text@.subrange(0, i + 1);
            assert(next.drop_last() =~= text@.subrange(0, i as int));
            assert(next.last() == c);
        }
        if c == separator {
            count += 1;
        }
        i += 1;
    }
    assert(text@.subrange(0, n as int) =~= text@);
    if count < usize::MAX {
        count + 1
    } else {
        count
    }
}

impl Matcher {
    /// The matcher of a pattern text, where the pattern compiles.
    pub fn new(text: &str) -> (r: Result<Matcher, SourceError>)
        ensures
            r.is_ok() == pattern_compiles(text@),
            r matches Ok(m) ==> m@ == text@,
            r matches Err(e) ==> e is Pattern,
    {
        match compile(text) {
            Ok(m) => Ok(m),
            Err(e) => Err(SourceError::Pattern(e)),
        }
    }

    /// The text that the pattern was compiled from.
    pub fn as_str(&self) -> (r: &str)
        ensures
            r@ == self@,
    {
        self.text.as_str()
    }

    /// The names of the pattern's groups, one entry per group.
    pub fn names(&self) -> (r: Vec<Option<String>>)
        ensures
            groups_view(r@) == pattern_names(self@),
    {
        capture_names(self)
    }

    /// How many groups the pattern has, the whole match included.
    pub fn groups(&self) -> (r: usize)
        ensures
            r == pattern_groups(self@),
    {
        group_count(self)
    }

    /// The groups that the pattern finds in `haystack`, if it matches.
    pub fn find(&self, haystack: &str) -> (r: Option<Vec<Option<String>>>)
        ensures
            match r {
                Some(groups) => pattern_captures(self@, haystack@) == Some(groups_view(groups@)),
                None => pattern_captures(self@, haystack@).is_none(),
            },
    {
        captures(self, haystack)
    }
}

impl Source {
    /// Whether this is the pattern source for `text` with the depth that
    /// `depth` gives or, without one, the text implies for `separator`.
    pub open spec fn is_pattern(
        self,
        text: Seq<char>,
        separator: char,
        depth: Option<usize>,
        max_depth: Option<usize>,
    ) -> bool {
        self matches Source::Regex(m, d, top) && m@ == text && top == max_depth && d as int
            == match depth {
            Some(given) => given as int,
            None => implied_depth(text, separator),
        }
    }

    /// Whether this is the table with exactly these pairs, in this order.
    pub open spec fn is_table(self, pairs: Seq<(Seq<char>, Seq<char>)>) -> bool {
        self matches Source::Mapping(held) && pairs_view(held@) == pairs
    }

    /// A pattern source, with `separator` parting the components of a path.
    /// It is built exactly where the pattern compiles.
    pub fn new_regex_for(
        pattern: &str,
        separator: char,
        depth: Option<usize>,
        max_depth: Option<usize>,
    ) -> (r: Result<Source, SourceError>)
        ensures
            r.is_ok() == pattern_compiles(pattern@),
            r matches Ok(source) ==> source.is_pattern(pattern@, separator, depth, max_depth),
            r matches Err(e) ==> e is Pattern,
    {
        match Matcher::new(pattern) {
            Ok(m) => {
                let d: usize = match depth {
                    Some(given) => given,
                    None => default_depth(pattern, separator),
                };
                Ok(Source::Regex(m, d, max_depth))
            },
            Err(e) => Err(e),
        }
    }

    /// A pattern source for the machine at hand, whose separator decides the
    /// depth where none is given.
    pub fn new_regex(pattern: &str, depth: Option<usize>, max_depth: Option<usize>) -> (r: Result<
        Source,
        SourceError,
    >)
        ensures
            pattern_outcome(pattern@, depth, max_depth, r),
    {
        let separator: char = main_separator();
        Source::new_regex_for(pattern, separator, depth, max_depth)
    }

    /// The table that parsed entries make: each entry a pair, in order. It
    /// fails at the first entry whose value is no string, with that key.
    pub fn from_entries(entries: Vec<(String, Option<String>)>) -> (r: Result<Source, SourceError>)
        ensures
            match r {
                Ok(source) => first_unnamed(entries_view(entries@)) == entries@.len()
                    && source.is_table(
                    Seq::new(
                        entries@.len(),
                        |i: int| (entries@[i].0@, entries@[i].1.unwrap()@),
                    ),
                ),
                Err(e) => first_unnamed(entries_view(entries@)) < entries@.len() && (e matches SourceError::MappingValue(
                    key,
                ) && key@ == entries@[first_unnamed(entries_view(entries@))].0@),
            },
    {
        let n: usize = entries.len();
        let mut pairs: Vec<(String, String)> = Vec::new();
        let mut i: usize = 0;
        let ghost all = entries_view(entries@);
        assert(all.skip(0) =~= all);
        while i < n
            invariant
                n == entries@.len(),
                all == entries_view(entries@),
                i <= n,
                pairs@.len() == i,
                first_unnamed(all) == i + first_unnamed(all.skip(i as int)),
                forall|j: int|
                    0 <= j < i ==> (#[trigger] entries@[j]).1.is_some() && pairs@[j].0@
                        == entries@[j].0@ && pairs@[j].1@ == entries@[j].1.unwrap()@,
            decreases n - i,
        {
            proof {
                let rest = all.skip(i as int);
                assert(rest[0] == all[i as int]);
                assert(rest.drop_first() =~= all.skip(i + 1));
            }
            let key: String = entries[i].0.clone();
            match &entries[i].1 {
                Some(value) => {
                    let held: String = value.clone();
                    pairs.push((key, held));
                },
                None => {
                    return Err(SourceError::MappingValue(key));
                },
            }
            i += 1;
        }
        proof {
            assert(all.skip(n as int).len() == 0);
            assert(pairs_view(pairs@) =~= Seq::new(
                entries@.len(),
                |i: int| (entries@[i].0@, entries@[i].1.unwrap()@),
            ));
        }
        Ok(Source::Mapping(pairs))
    }

    /// The table that a JSON object of strings gives, its pairs in the order
    /// of the text. It fails where the text is no JSON object, and where an
    /// entry's value is no string.
    pub fn new_map(contents: &str) -> (r: Result<Source, SourceError>)
        ensures
            mapping_outcome(contents@, r),
    {
        match parse_object(contents) {
            Ok(entries) => {
                let ghost all = entries_view(entries@);
                let r = Source::from_entries(entries);
                proof {
                    if r is Ok {
                        assert(Seq::new(
                            entries@.len(),
                            |i: int| (entries@[i].0@, entries@[i].1.unwrap()@),
                        ) =~= Seq::new(all.len(), |i: int| (all[i].0, all[i].1.unwrap()))) by {
                            lemma_all_named(all);
                        }
                    } else {
                        lemma_first_unnamed(all);
                    }
                }
                r
            },
            Err(e) => Err(SourceError::MappingSyntax(e)),
        }
    }

    /// The sort source that a token names: `asc` or `desc`, in any mix of
    /// upper and lower case. Any other token is handed back in the error.
    pub fn new_sort(order: &str) -> (r: Result<Source, SourceError>)
        ensures
            sort_outcome(order@, r),
    {
        proof {
            reveal_strlit("asc");
            reveal_strlit("desc");
            assert("asc"@.len() == 3);
            assert("desc"@.len() == 4);
        }
        if equals_lowered(order, "asc") {
            Ok(Source::Sort(SortOrder::Asc))
        } else if equals_lowered(order, "desc") {
            Ok(Source::Sort(SortOrder::Desc))
        } else {
            Err(SourceError::SortOrder(String::from_str(order)))
        }
    }

    /// The source that a configuration selects: the pattern where one is
    /// given, else the sort order, else the mapping, whose text is handed
    /// over. With none of the three there is no source.
    pub fn select(
        pattern: Option<&str>,
        order: Option<&str>,
        mapping: Option<&str>,
        depth: Option<usize>,
        max_depth: Option<usize>,
    ) -> (r: Result<Source, SourceError>)
        ensures
            match (pattern, order, mapping) {
                (Some(text), _, _) => pattern_outcome(text@, depth, max_depth, r),
                (None, Some(token), _) => sort_outcome(token@, r),
                (None, None, Some(contents)) => mapping_outcome(contents@, r),
                (None, None, None) => r matches Err(e) && e is NotSelected,
            },
    {
        match (pattern, order, mapping) {
            (Some(text), _, _) => Source::new_regex(text, depth, max_depth),
            (None, Some(token), _) => Source::new_sort(token),
            (None, None, Some(contents)) => Source::new_map(contents),
            (None, None, None) => Err(SourceError::NotSelected),
        }
    }

    /// Whether a file at this depth below the working directory is looked
    /// at: always for a table or a sort, and for a pattern where the depth is
    /// within its bounds.
    pub open spec fn admits_depth(self, observed: usize) -> bool {
        match self {
            Source::Regex(_, least, most) => least <= observed && match most {
                Some(top) => observed <= top,
                None => true,
            },
            _ => true,
        }
    }

    /// Whether directories at this depth are entered: those below the
    /// greatest depth, or all where there is none.
    pub fn descends(&self, depth: usize) -> (r: bool)
        ensures
            r == match *self {
                Source::Regex(_, _, Some(top)) => depth < top,
                _ => true,
            },
    {
        match self {
            Source::Regex(_, _, Some(top)) => depth < *top,
            _ => true,
        }
    }

    /// Whether a file at this depth is looked at.
    pub fn within_depth(&self, observed: usize) -> (r: bool)
        ensures
            r == self.admits_depth(observed),
    {
        match self {
            Source::Regex(_, least, most) => *least <= observed && match most {
                Some(top) => observed <= *top,
                None => true,
            },
            _ => true,
        }
    }

    /// The groups that a pattern source finds in a path at a given depth:
    /// none where the depth is outside its bounds, where the pattern does
    /// not match, or where the source is no pattern.
    pub fn candidate(&self, path: &str, observed: usize) -> (r: Option<Vec<Option<String>>>)
        ensures
            match self {
                Source::Regex(m, _, _) if self.admits_depth(observed) => match r {
                    Some(groups) => pattern_captures(m@, path@) == Some(groups_view(groups@)),
                    None => pattern_captures(m@, path@).is_none(),
                },
                _ => r.is_none(),
            },
    {
        if !self.within_depth(observed) {
            return None;
        }
        match self {
            Source::Regex(m, _, _) => m.find(path),
            _ => None,
        }
    }
}

/// Where every entry has a string, the first place without one is the end.
proof fn lemma_all_named(entries: Seq<(Seq<char>, Option<Seq<char>>)>)
    requires
        first_unnamed(entries) == entries.len(),
    ensures
        forall|i: int| 0 <= i < entries.len() ==> (#[trigger] entries[i]).1.is_some(),
    decreases entries.len(),
{
    if entries.len() > 0 {
        lemma_first_unnamed(entries.drop_first());
        lemma_all_named(entries.drop_first());
        assert forall|i: int| 0 <= i < entries.len() implies (#[trigger] entries[i]).1.is_some() by {
            if i > 0 {
                assert(entries[i] == entries.drop_first()[i - 1]);
            }
        }
    }
}

/// The first place without a string lies within the sequence or at its end.
proof fn lemma_first_unnamed(entries: Seq<(Seq<char>, Option<Seq<char>>)>)
    ensures
        0 <= first_unnamed(entries) <= entries.len(),
        first_unnamed(entries) < entries.len() ==> entries[first_unnamed(entries)].1.is_none(),
    decreases entries.len(),
{
    if entries.len() > 0 && entries[0].1.is_some() {
        lemma_first_unnamed(entries.drop_first());
    }
}

} // verus!
