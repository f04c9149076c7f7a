//! Output templates: literal text with placeholders in braces.
//!
//! `{}` stands for the running index of the candidate, `{3}` for the text
//! of the pattern's group 3, `{year}` for that of its group `year`. Any
//! other use of `{` is an error.

use crate::executor::is_plain;
use crate::source::groups_view;
use crate::source::pattern_groups;
use crate::source::pattern_names;
use crate::source::Source;
use vstd::prelude::*;
use vstd::string::StrSliceExecFns;
use vstd::string::StringExecFns;

verus! {

/// One part of a template.
#[derive(Debug, PartialEq, Eq)]
pub enum Piece {
    /// A character that stands for itself.
    Literal(char),
    /// The text of the group with this number.
    Group(usize),
    /// The text of the group with this name.
    Named(String),
    /// The running index, in decimal.
    Index,
}

/// A piece, its name by its characters.
pub enum PieceView {
    Literal(char),
    Group(usize),
    Named(Seq<char>),
    Index,
}

impl View for Piece {
    type V = PieceView;

    open spec fn view(&self) -> PieceView {
        match *self {
            Piece::Literal(c) => PieceView::Literal(c),
            Piece::Group(g) => PieceView::Group(g),
            Piece::Named(n) => PieceView::Named(n@),
            Piece::Index => PieceView::Index,
        }
    }
}

/// The pieces, each by its view.
pub open spec fn pieces_view(pieces: Seq<Piece>) -> Seq<PieceView> {
    Seq::new(pieces.len(), |i: int| pieces[i]@)
}

/// Why a template is refused.
#[derive(Debug, PartialEq, Eq)]
pub enum TemplateError {
    /// The brace at this place is never closed.
    Unclosed(usize),
    /// The placeholder at this place is neither empty, nor a group number,
    /// nor a name.
    Reference(usize),
    /// The template asks for this group, which the source does not have.
    NoSuchGroup(usize),
    /// The template asks for a group of this name, which the source does
    /// not have.
    NoSuchName(String),
}

/// A parsed template.
#[derive(Debug)]
pub struct Formatter {
    pieces: Vec<Piece>,
}

impl View for Formatter {
    type V = Seq<PieceView>;

    closed spec fn view(&self) -> Seq<PieceView> {
        pieces_view(self.pieces@)
    }
}

/// The first place at or after `from` that holds `}`, or the length.
pub open spec fn closing(s: Seq<char>, from: int) -> int
    decreases s.len() - from,
{
    if from < 0 || from >= s.len() {
        s.len() as int
    } else if s[from] == '}' {
        from
    } else {
        closing(s, from + 1)
    }
}

pub open spec fn is_digit(c: char) -> bool {
    '0' <= c && c <= '9'
}

/// The decimal value of `digits`, where every character is a digit.
pub open spec fn number(digits: Seq<char>) -> Option<nat>
    decreases digits.len(),
{
    if digits.len() == 0 {
        Some(0nat)
    } else {
        match number(digits.drop_last()) {
            Some(v) if is_digit(digits.last()) => Some(
                (v * 10 + (digits.last() as u8 - '0' as u8)) as nat,
            ),
            _ => None,
        }
    }
}

/// A letter of the ASCII alphabet, or the underscore.
pub open spec fn is_name_start(c: char) -> bool {
    ('a' <= c && c <= 'z') || ('A' <= c && c <= 'Z') || c == '_'
}

/// A name: letters, digits and underscores, the first of them no digit.
pub open spec fn is_name(content: Seq<char>) -> bool {
    &&& content.len() > 0
    &&& is_name_start(content[0])
    &&& forall|i: int| 0 <= i < content.len() ==> is_name_start(#[trigger] content[i]) || is_digit(content[i])
}

/// What stands between two braces: nothing for the index, a number that
/// fits a `usize` for a group, a name for a named group.
pub open spec fn placeholder(content: Seq<char>) -> Option<PieceView> {
    if content.len() == 0 {
        Some(PieceView::Index)
    } else if is_digit(content[0]) {
        match number(content) {
            Some(v) if v <= usize::MAX => Some(PieceView::Group(v as usize)),
            _ => None,
        }
    } else if is_name(content) {
        Some(PieceView::Named(content))
    } else {
        None
    }
}

/// `first` before the pieces of `rest`, or the error of `rest`.
pub open spec fn after(first: Seq<PieceView>, rest: Result<Seq<PieceView>, TemplateError>) -> Result<
    Seq<PieceView>,
    TemplateError,
> {
    match rest {
        Ok(pieces) => Ok(first + pieces),
        Err(e) => Err(e),
    }
}

/// The pieces of the template from place `i` on, or the first error.
pub open spec fn parsed_from(s: Seq<char>, i: int) -> Result<Seq<PieceView>, TemplateError>
    decreases s.len() - i,
    via parsed_from_ends
{
    if i < 0 || i >= s.len() {
        Ok(Seq::<PieceView>::empty())
    } else if s[i] != '{' {
        after(seq![PieceView::Literal(s[i])], parsed_from(s, i + 1))
    } else if closing(s, i + 1) >= s.len() {
        Err(TemplateError::Unclosed(i as usize))
    } else {
        match placeholder(s.subrange(i + 1, closing(s, i + 1))) {
            Some(piece) => after(seq![piece], parsed_from(s, closing(s, i + 1) + 1)),
            None => Err(TemplateError::Reference(i as usize)),
        }
    }
}

#[via_fn]
proof fn parsed_from_ends(s: Seq<char>, i: int) {
    if 0 <= i {
        lemma_closing_bounds(s, i + 1);
    }
}

/// The closing brace is not sought backwards, nor beyond the end.
pub proof fn lemma_closing_bounds(s: Seq<char>, from: int)
    requires
        0 <= from,
    ensures
        closing(s, from) <= s.len(),
        from <= s.len() ==> from <= closing(s, from),
        closing(s, from) < s.len() ==> s[closing(s, from)] == '}',
    decreases s.len() - from,
{
    if from < s.len() && s[from] != '}' {
        lemma_closing_bounds(s, from + 1);
    }
}

/// A number below ten as its digit.
pub open spec fn digit_char(d: nat) -> char {
    (('0' as u8) + d) as u8 as char
}

/// A number in decimal.
pub open spec fn decimal(n: nat) -> Seq<char>
    decreases n,
{
    if n < 10 {
        seq![digit_char(n)]
    } else {
        decimal(n / 10).push(digit_char(n % 10))
    }
}

/// The first place that holds `name`, or the length.
pub open spec fn place_of(names: Seq<Option<Seq<char>>>, name: Seq<char>) -> int
    decreases names.len(),
{
    if names.len() == 0 {
        0
    } else if names[0] == Some(name) {
        0
    } else {
        1 + place_of(names.drop_first(), name)
    }
}

/// The text of the group at a place: nothing where there is no such group
/// or it took no part in the match.
pub open spec fn group_text(groups: Seq<Option<Seq<char>>>, place: int) -> Seq<char> {
    if 0 <= place < groups.len() {
        match groups[place] {
            Some(text) => text,
            None => Seq::<char>::empty(),
        }
    } else {
        Seq::<char>::empty()
    }
}

/// What one piece stands for. A named group is the first group of that
/// name; a name that no group has gives nothing.
pub open spec fn piece_text(
    piece: PieceView,
    names: Seq<Option<Seq<char>>>,
    groups: Seq<Option<Seq<char>>>,
    index: nat,
) -> Seq<char> {
    match piece {
        PieceView::Literal(c) => seq![c],
        PieceView::Group(g) => group_text(groups, g as int),
        PieceView::Named(n) => if place_of(names, n) < names.len() {
            group_text(groups, place_of(names, n))
        } else {
            Seq::<char>::empty()
        },
        PieceView::Index => decimal(index),
    }
}

/// What the pieces stand for, one after the other.
pub open spec fn rendered(
    pieces: Seq<PieceView>,
    names: Seq<Option<Seq<char>>>,
    groups: Seq<Option<Seq<char>>>,
    index: nat,
) -> Seq<char>
    decreases pieces.len(),
{
    if pieces.len() == 0 {
        Seq::<char>::empty()
    } else {
        rendered(pieces.drop_last(), names, groups, index) + piece_text(
            pieces.last(),
            names,
            groups,
            index,
        )
    }
}

/// Whether a source with `limit` groups of these names has what the piece
/// asks for.
pub open spec fn fits(piece: PieceView, limit: nat, names: Seq<Option<Seq<char>>>) -> bool {
    match piece {
        PieceView::Group(g) => g < limit,
        PieceView::Named(n) => place_of(names, n) < names.len(),
        _ => true,
    }
}

/// The first place whose piece asks for what the source lacks, or the
/// length.
pub open spec fn first_unfit(pieces: Seq<PieceView>, limit: nat, names: Seq<Option<Seq<char>>>) -> int
    decreases pieces.len(),
{
    if pieces.len() == 0 {
        0
    } else if !fits(pieces[0], limit, names) {
        0
    } else {
        1 + first_unfit(pieces.drop_first(), limit, names)
    }
}

/// Whether `e` says what the source lacks of a piece.
pub open spec fn names_lack(piece: PieceView, e: TemplateError) -> bool {
    match piece {
        PieceView::Group(g) => e == TemplateError::NoSuchGroup(g),
        PieceView::Named(n) => e matches TemplateError::NoSuchName(m) && m@ == n,
        _ => false,
    }
}

/// What a check of the pieces against a source gives: success where every
/// piece fits, else what the first unfit piece lacks.
pub open spec fn checked(
    pieces: Seq<PieceView>,
    limit: nat,
    names: Seq<Option<Seq<char>>>,
    r: Result<(), TemplateError>,
) -> bool {
    match r {
        Ok(_) => first_unfit(pieces, limit, names) == pieces.len(),
        Err(e) => first_unfit(pieces, limit, names) < pieces.len() && names_lack(
            pieces[first_unfit(pieces, limit, names)],
            e,
        ),
    }
}

/// A rendered path with the input's extension, where it has none of its
/// own and the input has one.
pub open spec fn extended(
    path: Seq<char>,
    own: Option<Seq<char>>,
    inherited: Option<Seq<char>>,
) -> Seq<char> {
    match (own, inherited) {
        (None, Some(ext)) => path + seq!['.'] + ext,
        _ => path,
    }
}

/// The place of the last `.` in a text, or -1 where it has none.
pub open spec fn last_dot(text: Seq<char>) -> int
    decreases text.len(),
{
    if text.len() == 0 {
        -1
    } else if text.last() == '.' {
        text.len() - 1
    } else {
        last_dot(text.drop_last())
    }
}

/// The extension of a plain name: what follows its last `.`, unless it has
/// none or only the one it begins with.
pub open spec fn plain_extension(name: Seq<char>) -> Option<Seq<char>> {
    if last_dot(name) <= 0 {
        None
    } else {
        Some(name.skip(last_dot(name) + 1))
    }
}

/// Whether `found` may be the extension of `path` on some machine: none
/// where the path holds no `.`, and for a path that is one plain name, the
/// extension of that name.
pub open spec fn extension_fits(path: Seq<char>, found: Option<Seq<char>>) -> bool {
    &&& last_dot(path) < 0 ==> found.is_none()
    &&& is_plain(path) ==> found == plain_extension(path)
}

/// Whether `out` may be the destination that a template gives for
/// `input`: the rendered text, to which `keep` adds the extension of the
/// input where the rendered text has none and the input has one.
pub open spec fn destined(
    pieces: Seq<PieceView>,
    input: Seq<char>,
    names: Seq<Option<Seq<char>>>,
    groups: Seq<Option<Seq<char>>>,
    index: nat,
    keep: bool,
    out: Seq<char>,
) -> bool {
    if keep {
        exists|own: Option<Seq<char>>, inherited: Option<Seq<char>>|
            extension_fits(rendered(pieces, names, groups, index), own) && extension_fits(
                input,
                inherited,
            ) && out == extended(rendered(pieces, names, groups, index), own, inherited)
    } else {
        out == rendered(pieces, names, groups, index)
    }
}

/// A string that may be missing, by its characters.
pub open spec fn text_view(text: Option<String>) -> Option<Seq<char>> {
    match text {
        Some(t) => Some(t@),
        None => None,
    }
}

/// Calls `String::push`: the character is added at the end.
#[verifier::external_body]
fn push_char(text: &mut String, c: char)
    ensures
        final(text)@ == old(text)@.push(c),
{
    text.push(c)
}

/// Calls `std::path::Path::extension` and hands out the extension where it
/// is valid text. The extension is taken from the file name: there is none
/// where the path holds no `.`; and a path that is one plain name is its own
/// file name, whose extension is what follows its last `.`, unless that is
/// the `.` it begins with.
#[verifier::external_body]
fn extension_of(path: &str) -> (r: Option<String>)
    ensures
        extension_fits(path@, text_view(r)),
{
    std::path::Path::new(path).extension().and_then(|e| e.to_str()).map(String::from)
}

/// Adds `n` in decimal at the end of `text`.
pub fn push_decimal(text: &mut String, n: usize)
    ensures
        final(text)@ == old(text)@ + decimal(n as nat),
    decreases n,
{
    if n >= 10 {
        push_decimal(text, n / 10);
    }
    let d: u8 = (n % 10) as u8;
    let c: char = (48u8 + d) as char;
    assert(c == digit_char((n % 10) as nat));
    push_char(text, c);
    assert(text@ =~= old(text)@ + decimal(n as nat));
}

/// Gives a rendered path the input's extension, where it has none of its
/// own and the input has one.
pub fn keep_extension(path: String, own: Option<String>, inherited: Option<String>) -> (r: String)
    ensures
        r@ == extended(path@, text_view(own), text_view(inherited)),
{
    match (own, inherited) {
        (None, Some(ext)) => {
            let mut r: String = path;
            push_char(&mut r, '.');
            r.append(ext.as_str());
            assert(r@ =~= path@ + seq!['.'] + ext@);
            r
        },
        _ => path,
    }
}

/// The place of the first `}` at or after `from`, or the length.
fn find_closing(template: &str, from: usize, n: usize) -> (r: usize)
    requires
        n == template@.len(),
        from <= n,
    ensures
        r == closing(template@, from as int),
        from <= r <= n,
{
    let mut k: usize = from;
    while k < n
        invariant
            n == template@.len(),
            from <= k <= n,
            closing(template@, from as int) == closing(template@, k as int),
        decreases n - k,
    {
        if template.get_char(k) == '}' {
            return k;
        }
        k += 1;
    }
    k
}

/// The piece that stands between the places `from` and `to`.
fn read_placeholder(template: &str, from: usize, to: usize) -> (r: Option<Piece>)
    requires
        from <= to <= template@.len(),
    ensures
        match r {
            Some(piece) => placeholder(template@.subrange(from as int, to as int)) == Some(piece@),
            None => placeholder(template@.subrange(from as int, to as int)).is_none(),
        },
{
    if from == to {
        return Some(Piece::Index);
    }
    let first: char = template.get_char(from);
    assert(template@.subrange(from as int, to as int)[0] == first);
    if '0' <= first && first <= '9' {
        match read_number(template, from, to) {
            Some(value) => Some(Piece::Group(value)),
            None => None,
        }
    } else if read_name(template, from, to) {
        Some(Piece::Named(String::from_str(template.substring_char(from, to))))
    } else {
        None
    }
}

/// Whether a name stands between the places `from` and `to`.
fn read_name(template: &str, from: usize, to: usize) -> (r: bool)
    requires
        from < to <= template@.len(),
    ensures
        r == is_name(template@.subrange(from as int, to as int)),
{
    let ghost content = template@.subrange(from as int, to as int);
    let first: char = template.get_char(from);
    assert(content[0] == first);
    if !(('a' <= first && first <= 'z') || ('A' <= first && first <= 'Z') || first == '_') {
        return false;
    }
    let mut k: usize = from;
    while k < to
        invariant
            from <= k <= to <= template@.len(),
            content == template@.subrange(from as int, to as int),
            forall|j: int|
                0 <= j < k - from ==> is_name_start(#[trigger] content[j]) || is_digit(content[j]),
        decreases to - k,
    {
        let c: char = template.get_char(k);
        assert(content[k - from] == c);
        if !(('a' <= c && c <= 'z') || ('A' <= c && c <= 'Z') || c == '_' || ('0' <= c && c
            <= '9')) {
            return false;
        }
        k += 1;
    }
    true
}

/// The number that stands between the places `from` and `to`, where all
/// is digits and the number fits.
fn read_number(template: &str, from: usize, to: usize) -> (r: Option<usize>)
    requires
        from <= to <= template@.len(),
    ensures
        match number(template@.subrange(from as int, to as int)) {
            Some(v) if v <= usize::MAX => r == Some(v as usize),
            _ => r.is_none(),
        },
{
    let mut value: usize = 0;
    let mut fits: bool = true;
    let mut k: usize = from;
    assert(template@.subrange(from as int, from as int).len() == 0);
    while k < to
        invariant
            from <= k <= to <= template@.len(),
            fits ==> number(template@.subrange(from as int, k as int)) == Some(value as nat),
            !fits ==> (number(template@.subrange(from as int, k as int)) matches Some(v) && v
                > usize::MAX),
        decreases to - k,
    {
        let c: char = template.get_char(k);
        proof {
            let next = template@.subrange(from as int, k + 1);
            assert(next.drop_last() =~= template@.subrange(from as int, k as int));
            assert(next.last() == c);
        }
        if !('0' <= c && c <= '9') {
            proof {
                lemma_number_prefix(template@.subrange(from as int, to as int), k + 1 - from);
                assert(template@.subrange(from as int, to as int).subrange(0, k + 1 - from)
                    =~= template@.subrange(from as int, k + 1));
            }
            return None;
        }
        let d: usize = (c as u8 - 48u8) as usize;
        if fits {
            if value <= (usize::MAX - d) / 10 {
                value = value * 10 + d;
            } else {
                fits = false;
            }
        }
        k += 1;
    }
    if fits {
        Some(value)
    } else {
        None
    }
}

/// The first place that holds `name`, or the length.
pub fn find_name(names: &Vec<Option<String>>, name: &str) -> (r: usize)
    ensures
        r == place_of(groups_view(names@), name@),
        r <= names@.len(),
{
    let n: usize = names.len();
    let mut i: usize = 0;
    let ghost all = groups_view(names@);
    assert(all.skip(0) =~= all);
    while i < n
        invariant
            n == names@.len(),
            all == groups_view(names@),
            i <= n,
            place_of(all, name@) == i + place_of(all.skip(i as int), name@),
        decreases n - i,
    {
        proof {
            let rest = all.skip(i as int);
            assert(rest[0] == all[i as int]);
            assert(rest.drop_first() =~= all.skip(i + 1));
        }
        match &names[i] {
            Some(held) => {
                if same_text(held.as_str(), name) {
                    return i;
                }
            },
            None => {},
        }
        i += 1;
    }
    assert(all.skip(n as int).len() == 0);
    n
}

/// Whether two texts are the same, character by character.
pub fn same_text(a: &str, b: &str) -> (r: bool)
    ensures
        r == (a@ == b@),
{
    let n: usize = a.unicode_len();
    if n != b.unicode_len() {
        return false;
    }
    let mut i: usize = 0;
    while i < n
        invariant
            n == a@.len(),
            n == b@.len(),
            i <= n,
            forall|j: int| 0 <= j < i ==> a@[j] == b@[j],
        decreases n - i,
    {
        if a.get_char(i) != b.get_char(i) {
            return false;
        }
        i += 1;
    }
    assert(a@ =~= b@);
    true
}

/// Adds the text of the group at a place, if there is one.
fn push_group(text: &mut String, groups: &Vec<Option<String>>, place: usize)
    ensures
        final(text)@ == old(text)@ + group_text(groups_view(groups@), place as int),
{
    if place < groups.len() {
        match &groups[place] {
            Some(found) => {
                text.append(found.as_str());
            },
            None => {
                assert(text@ + Seq::<char>::empty() =~= text@);
            },
        }
    } else {
        assert(text@ + Seq::<char>::empty() =~= text@);
    }
}

/// Where a beginning of `digits` is no number, the whole is none.
proof fn lemma_number_prefix(digits: Seq<char>, k: int)
    requires
        0 <= k <= digits.len(),
        number(digits.subrange(0, k)).is_none(),
    ensures
        number(digits).is_none(),
    decreases digits.len() - k,
{
    if k < digits.len() {
        assert(digits.subrange(0, k + 1).drop_last() =~= digits.subrange(0, k));
        lemma_number_prefix(digits, k + 1);
    } else {
        assert(digits.subrange(0, k) =~= digits);
    }
}

impl Formatter {
    /// Reads a template. It fails at the first brace that is never closed
    /// or that holds anything but nothing, a group number or a name.
    pub fn new(template: &str) -> (r: Result<Formatter, TemplateError>)
        ensures
            match r {
                Ok(f) => parsed_from(template@, 0) == Ok::<Seq<PieceView>, TemplateError>(f@),
                Err(e) => parsed_from(template@, 0) == Err::<Seq<PieceView>, TemplateError>(e),
            },
    {
        let n: usize = template.unicode_len();
        let mut pieces: Vec<Piece> = Vec::new();
        let mut i: usize = 0;
        assert(pieces_view(pieces@) + parsed_from(template@, 0).unwrap() =~= parsed_from(
            template@,
            0,
        ).unwrap());
        while i < n
            invariant
                n == template@.len(),
                i <= n,
                parsed_from(template@, 0) == after(
                    pieces_view(pieces@),
                    parsed_from(template@, i as int),
                ),
            decreases n - i,
        {
            let c: char = template.get_char(i);
            let ghost done = pieces_view(pieces@);
            if c != '{' {
                pieces.push(Piece::Literal(c));
                i += 1;
                proof {
                    let rest = parsed_from(template@, i as int);
                    assert(pieces_view(pieces@) =~= done.push(PieceView::Literal(c)));
                    if rest is Ok {
                        assert(done + (seq![PieceView::Literal(c)] + rest.unwrap())
                            =~= pieces_view(pieces@) + rest.unwrap());
                    }
                }
            } else {
                let j: usize = find_closing(template, i + 1, n);
                if j >= n {
                    return Err(TemplateError::Unclosed(i));
                }
                match read_placeholder(template, i + 1, j) {
                    Some(piece) => {
                        let ghost read = piece@;
                        pieces.push(piece);
                        i = j + 1;
                        proof {
                            let rest = parsed_from(template@, i as int);
                            assert(pieces_view(pieces@) =~= done.push(read));
                            if rest is Ok {
                                assert(done + (seq![read] + rest.unwrap()) =~= pieces_view(pieces@)
                                    + rest.unwrap());
                            }
                        }
                    },
                    None => {
                        return Err(TemplateError::Reference(i));
                    },
                }
            }
        }
        assert(pieces_view(pieces@) + Seq::<PieceView>::empty() =~= pieces_view(pieces@));
        Ok(Formatter { pieces })
    }

    /// The formatter of an output template, where one is given.
    pub fn read_output(output: Option<&str>) -> (r: Result<Option<Formatter>, TemplateError>)
        ensures
            match output {
                None => r matches Ok(None),
                Some(template) => match r {
                    Ok(Some(f)) => parsed_from(template@, 0) == Ok::<
                        Seq<PieceView>,
                        TemplateError,
                    >(f@),
                    Ok(None) => false,
                    Err(e) => parsed_from(template@, 0) == Err::<Seq<PieceView>, TemplateError>(
                        e,
                    ),
                },
            },
    {
        match output {
            None => Ok(None),
            Some(template) => match Formatter::new(template) {
                Ok(f) => Ok(Some(f)),
                Err(e) => Err(e),
            },
        }
    }

    /// Whether a source with `groups` groups of these names has all that
    /// the template asks for. It fails with what the first unfit piece
    /// lacks.
    pub fn check(&self, groups: usize, names: &Vec<Option<String>>) -> (r: Result<
        (),
        TemplateError,
    >)
        ensures
            checked(self@, groups as nat, groups_view(names@), r),
    {
        let n: usize = self.pieces.len();
        let mut i: usize = 0;
        let ghost all = pieces_view(self.pieces@);
        let ghost known = groups_view(names@);
        assert(all.skip(0) =~= all);
        while i < n
            invariant
                n == self.pieces@.len(),
                all == pieces_view(self.pieces@),
                known == groups_view(names@),
                i <= n,
                first_unfit(all, groups as nat, known) == i + first_unfit(
                    all.skip(i as int),
                    groups as nat,
                    known,
                ),
            decreases n - i,
        {
            proof {
                let rest = all.skip(i as int);
                assert(rest[0] == all[i as int]);
                assert(rest.drop_first() =~= all.skip(i + 1));
                assert(all[i as int] == self.pieces@[i as int]@);
            }
            match &self.pieces[i] {
                Piece::Group(g) => {
                    if *g >= groups {
                        return Err(TemplateError::NoSuchGroup(*g));
                    }
                },
                Piece::Named(name) => {
                    if find_name(names, name.as_str()) >= names.len() {
                        return Err(TemplateError::NoSuchName(name.clone()));
                    }
                },
                _ => {},
            }
            i += 1;
        }
        assert(all.skip(n as int).len() == 0);
        Ok(())
    }

    /// Whether the template fits a source: a pattern has the groups and
    /// the names of its regex, any other source has none.
    pub fn check_source(&self, source: &Source) -> (r: Result<(), TemplateError>)
        ensures
            checked(self@, group_limit(*source), group_names(*source), r),
    {
        match source {
            Source::Regex(m, _, _) => {
                let names: Vec<Option<String>> = m.names();
                self.check(m.groups(), &names)
            },
            _ => {
                let names: Vec<Option<String>> = Vec::new();
                assert(groups_view(names@) =~= Seq::<Option<Seq<char>>>::empty());
                self.check(0, &names)
            },
        }
    }

    /// The text that the template gives for these groups, whose names are
    /// `names`, and this index.
    pub fn render(&self, names: &Vec<Option<String>>, groups: &Vec<Option<String>>, index: usize) -> (r:
        String)
        ensures
            r@ == rendered(self@, groups_view(names@), groups_view(groups@), index as nat),
    {
        let mut out: String = String::new();
        let n: usize = self.pieces.len();
        let mut i: usize = 0;
        let ghost all = pieces_view(self.pieces@);
        let ghost known = groups_view(names@);
        let ghost found = groups_view(groups@);
        assert(all.subrange(0, 0).len() == 0);
        while i < n
            invariant
                n == self.pieces@.len(),
                i <= n,
                all == pieces_view(self.pieces@),
                known == groups_view(names@),
                found == groups_view(groups@),
                out@ == rendered(all.subrange(0, i as int), known, found, index as nat),
            decreases n - i,
        {
            proof {
                let next = all.subrange(0, i + 1);
                assert(next.drop_last() =~= all.subrange(0, i as int));
                assert(next.last() == self.pieces@[i as int]@);
            }
            match &self.pieces[i] {
                Piece::Literal(c) => {
                    let ghost before = out@;
                    push_char(&mut out, *c);
                    assert(out@ =~= before + seq![*c]);
                },
                Piece::Group(g) => {
                    push_group(&mut out, groups, *g);
                },
                Piece::Named(name) => {
                    let place: usize = find_name(names, name.as_str());
                    if place < names.len() {
                        push_group(&mut out, groups, place);
                    } else {
                        assert(out@ + Seq::<char>::empty() =~= out@);
                    }
                },
                Piece::Index => {
                    push_decimal(&mut out, index);
                },
            }
            i += 1;
        }
        assert(all.subrange(0, n as int) =~= all);
        out
    }

    /// The destination for one candidate: the rendered template, and with
    /// `keep` the input's extension where the rendered text has none.
    pub fn format(
        &self,
        input: &str,
        names: &Vec<Option<String>>,
        groups: &Vec<Option<String>>,
        index: usize,
        keep: bool,
    ) -> (r: String)
        ensures
            destined(
                self@,
                input@,
                groups_view(names@),
                groups_view(groups@),
                index as nat,
                keep,
                r@,
            ),
    {
        let path: String = self.render(names, groups, index);
        if keep {
            let own: Option<String> = extension_of(path.as_str());
            let inherited: Option<String> = extension_of(input);
            keep_extension(path, own, inherited)
        } else {
            path
        }
    }
}

/// How many groups a source offers to a template.
pub open spec fn group_limit(source: Source) -> nat {
    match source {
        Source::Regex(m, _, _) => pattern_groups(m@),
        _ => 0,
    }
}

/// The names of the groups that a source offers to a template.
pub open spec fn group_names(source: Source) -> Seq<Option<Seq<char>>> {
    match source {
        Source::Regex(m, _, _) => pattern_names(m@),
        _ => Seq::empty(),
    }
}

} // verus!
