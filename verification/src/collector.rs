//! The order in which the files of a directory are taken.

use crate::source::SortOrder;
use vstd::prelude::*;
use vstd::seq_lib::to_multiset_insert;
use vstd::string::StrSliceExecFns;

verus! {

/// Whether `a` comes before `b`, or is `b`, character by character.
pub open spec fn lex_le(a: Seq<char>, b: Seq<char>) -> bool
    decreases a.len(),
{
    if a.len() == 0 {
        true
    } else if b.len() == 0 {
        false
    } else {
        a[0] < b[0] || (a[0] == b[0] && lex_le(a.drop_first(), b.drop_first()))
    }
}

/// Whether `a` may stand before `b` in a listing of this order.
pub open spec fn in_order(a: Seq<char>, b: Seq<char>, order: SortOrder) -> bool {
    match order {
        SortOrder::Asc => lex_le(a, b),
        SortOrder::Desc => lex_le(b, a),
    }
}

/// Whether each name may stand before all that follow it.
pub open spec fn ordered(names: Seq<Seq<char>>, order: SortOrder) -> bool {
    forall|i: int, j: int| 0 <= i < j < names.len() ==> in_order(names[i], names[j], order)
}

/// The names by their characters.
pub open spec fn names_view(names: Seq<String>) -> Seq<Seq<char>> {
    Seq::new(names.len(), |i: int| names[i]@)
}

/// Of two names, one comes before the other or is the other.
pub proof fn lemma_lex_total(a: Seq<char>, b: Seq<char>)
    ensures
        lex_le(a, b) || lex_le(b, a),
    decreases a.len(),
{
    if a.len() > 0 && b.len() > 0 {
        lemma_lex_total(a.drop_first(), b.drop_first());
    }
}

/// What comes before a name comes before all that the name comes before.
pub proof fn lemma_lex_transitive(a: Seq<char>, b: Seq<char>, c: Seq<char>)
    requires
        lex_le(a, b),
        lex_le(b, c),
    ensures
        lex_le(a, c),
    decreases a.len(),
{
    if a.len() > 0 && b.len() > 0 && c.len() > 0 {
        if a[0] == b[0] && b[0] == c[0] {
            lemma_lex_transitive(a.drop_first(), b.drop_first(), c.drop_first());
        }
    }
}

/// Whether `a` comes before `b`, or is `b`.
pub fn precedes(a: &str, b: &str) -> (r: bool)
    ensures
        r == lex_le(a@, b@),
{
    let n: usize = a.unicode_len();
    let m: usize = b.unicode_len();
    let mut i: usize = 0;
    assert(a@.skip(0) =~= a@);
    assert(b@.skip(0) =~= b@);
    while i < n && i < m
        invariant
            n == a@.len(),
            m == b@.len(),
            i <= n,
            i <= m,
            lex_le(a@, b@) == lex_le(a@.skip(i as int), b@.skip(i as int)),
        decreases n - i,
    {
        let x: char = a.get_char(i);
        let y: char = b.get_char(i);
        proof {
            assert(a@.skip(i as int)[0] == x);
            assert(b@.skip(i as int)[0] == y);
            assert(a@.skip(i as int).drop_first() =~= a@.skip(i + 1));
            assert(b@.skip(i as int).drop_first() =~= b@.skip(i + 1));
        }
        if x < y {
            return true;
        }
        if x != y {
            return false;
        }
        i += 1;
    }
    assert(a@.skip(i as int).len() == n - i);
    assert(b@.skip(i as int).len() == m - i);
    i == n
}

/// Whether `a` may stand before `b` in a listing of this order.
pub fn may_precede(a: &str, b: &str, order: SortOrder) -> (r: bool)
    ensures
        r == in_order(a@, b@, order),
{
    match order {
        SortOrder::Asc => precedes(a, b),
        SortOrder::Desc => precedes(b, a),
    }
}

/// The names in the given order: ascending from the least, descending from
/// the greatest. Every name stays, as often as it came.
pub fn sort_names(names: Vec<String>, order: SortOrder) -> (r: Vec<String>)
    ensures
        ordered(names_view(r@), order),
        names_view(r@).to_multiset() == names_view(names@).to_multiset(),
        r@.len() == names@.len(),
{
    let n: usize = names.len();
    let mut sorted: Vec<String> = Vec::new();
    let mut i: usize = 0;
    assert(names_view(names@).subrange(0, 0) =~= names_view(sorted@));
    while i < n
        invariant
            n == names@.len(),
            i <= n,
            sorted@.len() == i,
            ordered(names_view(sorted@), order),
            names_view(sorted@).to_multiset() == names_view(names@).subrange(
                0,
                i as int,
            ).to_multiset(),
        decreases n - i,
    {
        let name: String = names[i].clone();
        let ghost before = names_view(sorted@);
        let mut p: usize = 0;
        while p < i && may_precede(sorted[p].as_str(), name.as_str(), order)
            invariant
                p <= i,
                sorted@.len() == i,
                before == names_view(sorted@),
                forall|k: int| 0 <= k < p ==> in_order(#[trigger] before[k], name@, order),
            decreases i - p,
        {
            assert(before[p as int] == sorted@[p as int]@);
            p += 1;
        }
        proof {
            if p < i {
                assert(before[p as int] == sorted@[p as int]@);
                lemma_lex_total(before[p as int], name@);
            }
        }
        sorted.insert(p, name);
        proof {
            let after = names_view(sorted@);
            assert(after =~= before.insert(p as int, name@));
            assert forall|a: int, b: int| 0 <= a < b < after.len() implies in_order(
                after[a],
                after[b],
                order,
            ) by {
                if b < p {
                    assert(after[a] == before[a] && after[b] == before[b]);
                } else if b == p {
                    assert(after[a] == before[a]);
                } else if a < p {
                    assert(after[a] == before[a] && after[b] == before[b - 1]);
                } else if a == p {
                    assert(after[b] == before[b - 1]);
                    if b - 1 > p {
                        assert(in_order(before[p as int], before[b - 1], order));
                        match order {
                            SortOrder::Asc => lemma_lex_transitive(
                                name@,
                                before[p as int],
                                before[b - 1],
                            ),
                            SortOrder::Desc => lemma_lex_transitive(
                                before[b - 1],
                                before[p as int],
                                name@,
                            ),
                        }
                    }
                } else {
                    assert(after[a] == before[a - 1] && after[b] == before[b - 1]);
                }
            }
            to_multiset_insert(before, p as int, name@);
            let upto = names_view(names@).subrange(0, i as int);
            assert(names_view(names@).subrange(0, i + 1) =~= upto.push(name@));
            vstd::seq_lib::to_multiset_build(upto, name@);
        }
        i += 1;
    }
    assert(names_view(names@).subrange(0, n as int) =~= names_view(names@));
    sorted
}

} // verus!
