//! How far texts are from each other, and what is suggested for a misspelled name.

use crate::error;
use crate::text;
use vstd::prelude::*;

verus! {

/// Is a text another one with a single edit: a character put in, taken out, or
/// replaced?
pub open spec fn one_edit(a: Seq<char>, b: Seq<char>) -> bool {
    exists|p: Seq<char>, x: Seq<char>, y: Seq<char>, s: Seq<char>| #[trigger]
        edit_at(a, b, p, x, y, s)
}

/// The texts agree but for a part of at most one character each.
pub open spec fn edit_at(
    a: Seq<char>,
    b: Seq<char>,
    p: Seq<char>,
    x: Seq<char>,
    y: Seq<char>,
    s: Seq<char>,
) -> bool {
    x.len() <= 1 && y.len() <= 1 && a == p + x + s && b == p + y + s
}

proof fn one_less(a: Seq<char>, c: Seq<char>, x: char)
    ensures
        error::distance(a, c) <= error::distance(a, c.push(x)) + 1,
        error::distance(a, c.push(x)) <= error::distance(a, c) + 1,
    decreases a.len(),
{
    let d = c.push(x);
    assert(d.drop_last() =~= c);
    if a.len() > 0 {
        one_less(a.drop_last(), c, x);
    }
}

proof fn same_end(a: Seq<char>, c: Seq<char>, x: char)
    ensures
        error::distance(a.push(x), c.push(x)) == error::distance(a, c),
{
    assert(a.push(x).drop_last() =~= a);
    assert(c.push(x).drop_last() =~= c);
    one_less(a, c, x);
    one_less(c, a, x);
    error::distance_symmetric(a, c);
    error::distance_symmetric(a, c.push(x));
    error::distance_symmetric(a.push(x), c);
    error::distance_symmetric(c, a.push(x));
}

proof fn edits_move_by_one(p: Seq<char>, q: Seq<char>, s: Seq<char>, b: Seq<char>)
    requires
        forall|e: Seq<char>| #![trigger error::distance(p, e)]
            error::distance(p, e) <= error::distance(q, e) + 1,
        p.len() <= q.len() + 1,
    ensures
        error::distance(p + s, b) <= error::distance(q + s, b) + 1,
    decreases s.len(), b.len(),
{
    if s.len() == 0 {
        assert(p + s =~= p);
        assert(q + s =~= q);
    } else if b.len() > 0 {
        let t = s.drop_last();
        let x = s.last();
        edits_move_by_one(p, q, t, b);
        edits_move_by_one(p, q, t, b.drop_last());
        edits_move_by_one(p, q, s, b.drop_last());
        assert((p + s).drop_last() =~= p + t);
        assert((q + s).drop_last() =~= q + t);
        assert((p + s).last() == x);
        assert((q + s).last() == x);
    }
}

/// A single edit changes a distance by at most one.
pub proof fn an_edit_counts_at_most_one(a: Seq<char>, b: Seq<char>, c: Seq<char>)
    requires
        one_edit(a, b),
    ensures
        error::distance(a, c) <= error::distance(b, c) + 1,
{
    let (p, x, y, s) = choose|p: Seq<char>, x: Seq<char>, y: Seq<char>, s: Seq<char>| #[trigger]
        edit_at(a, b, p, x, y, s);
    assert forall|e: Seq<char>| #![trigger error::distance(p + x, e)]
        error::distance(p + x, e) <= error::distance(p + y, e) + 1 by {
        error::distance_symmetric(p + x, e);
        error::distance_symmetric(p + y, e);
        error::distance_symmetric(p, e);
        if x.len() == 0 {
            assert(p + x =~= p);
            if y.len() == 0 {
                assert(p + y =~= p);
            } else {
                assert(p + y =~= p.push(y[0]));
                one_less(e, p, y[0]);
            }
        } else {
            assert(p + x =~= p.push(x[0]));
            if y.len() == 0 {
                assert(p + y =~= p);
                one_less(e, p, x[0]);
            } else {
                assert(p + y =~= p.push(y[0]));
                replaced(p, x[0], y[0], e);
            }
        }
    }
    edits_move_by_one(p + x, p + y, s, c);
}

proof fn replaced(p: Seq<char>, x: char, y: char, e: Seq<char>)
    ensures
        error::distance(p.push(x), e) <= error::distance(p.push(y), e) + 1,
    decreases e.len(),
{
    assert(p.push(x).drop_last() =~= p);
    assert(p.push(y).drop_last() =~= p);
    if e.len() > 0 {
        replaced(p, x, y, e.drop_last());
    }
}

/// From every text that is not the other, some single edit leads one nearer to it:
/// the distance is the fewest edits that lead from one text to the other.
pub proof fn some_edit_leads_nearer(a: Seq<char>, b: Seq<char>) -> (n: Seq<char>)
    requires
        a != b,
    ensures
        one_edit(a, n),
        error::distance(n, b) + 1 == error::distance(a, b),
    decreases a.len() + b.len(),
{
    let none = Seq::<char>::empty();
    if a.len() == 0 {
        assert(b.len() > 0) by {
            if b.len() == 0 {
                assert(a =~= b);
            }
        }
        let n = a.push(b.last());
        assert(b =~= b.drop_last().push(b.last()));
        same_end(a, b.drop_last(), b.last());
        assert(edit_at(a, n, none, none, seq![b.last()], none)) by {
            assert(a =~= none + none + none);
            assert(n =~= none + seq![b.last()] + none);
        }
        n
    } else if b.len() == 0 {
        let n = a.drop_last();
        assert(edit_at(a, n, n, seq![a.last()], none, none)) by {
            assert(a =~= n + seq![a.last()] + none);
            assert(n =~= n + none + none);
        }
        n
    } else {
        let c = a.drop_last();
        let e = b.drop_last();
        assert(a =~= c.push(a.last()));
        assert(b =~= e.push(b.last()));
        if a.last() == b.last() {
            same_end(c, e, a.last());
            assert(c != e) by {
                if c == e {
                    assert(a =~= b);
                }
            }
            let m = some_edit_leads_nearer(c, e);
            let n = m.push(a.last());
            same_end(m, e, a.last());
            let (p, x, y, s) = choose|p: Seq<char>, x: Seq<char>, y: Seq<char>, s: Seq<char>|
                #[trigger]
                edit_at(c, m, p, x, y, s);
            assert(edit_at(a, n, p, x, y, s.push(a.last()))) by {
                assert(a =~= p + x + s.push(a.last()));
                assert(n =~= p + y + s.push(a.last()));
            }
            n
        } else if error::distance(a, b) == error::distance(c, b) + 1 {
            assert(edit_at(a, c, c, seq![a.last()], none, none)) by {
                assert(a =~= c + seq![a.last()] + none);
                assert(c =~= c + none + none);
            }
            c
        } else if error::distance(a, b) == error::distance(a, e) + 1 {
            let n = a.push(b.last());
            same_end(a, e, b.last());
            assert(edit_at(a, n, a, none, seq![b.last()], none)) by {
                assert(a =~= a + none + none);
                assert(n =~= a + seq![b.last()] + none);
            }
            n
        } else {
            let n = c.push(b.last());
            same_end(c, e, b.last());
            assert(edit_at(a, n, c, seq![a.last()], seq![b.last()], none)) by {
                assert(a =~= c + seq![a.last()] + none);
                assert(n =~= c + seq![b.last()] + none);
            }
            n
        }
    }
}

/// A name is suggested where it is within two edits, or within a third of its
/// length in bytes: the nearest such name, and the first of several equally near.
pub proof fn near_names_are_suggested(target: Seq<char>, names: Seq<Seq<char>>)
    ensures
        match error::suggestion(target, names) {
            Some(name) => exists|i: int|
                0 <= i < names.len() && #[trigger] names[i] == name && near(target, name)
                    && forall|j: int|
                    0 <= j < names.len() && near(target, #[trigger] names[j]) ==> error::distance(
                        target,
                        name,
                    ) <= error::distance(target, names[j]) && (j < i ==> error::distance(
                        target,
                        name,
                    ) < error::distance(target, names[j])),
            None => forall|j: int| 0 <= j < names.len() ==> !near(target, #[trigger] names[j]),
        },
{
    error::best_candidate_is_closest(target, names);
    assert forall|j: int| 0 <= j < names.len() implies near(target, #[trigger] names[j])
        == error::close_enough(target, names[j]) by {}
    if let Some(i) = error::best_candidate(target, names) {
        assert(names[i] == error::suggestion(target, names)->0);
    }
}

pub open spec fn near(target: Seq<char>, name: Seq<char>) -> bool {
    error::distance(target, name) <= 2 || 3 * error::distance(target, name) <= text::byte_len(name)
}

} // verus!
