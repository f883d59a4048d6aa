//! The order of names: that of their characters, the first difference
//! deciding, a prefix before what it is a prefix of. It is the order in which
//! lists of names are shown.

use vstd::prelude::*;
use vstd::string::*;
use vstd::seq_lib::{to_multiset_build, to_multiset_insert};
use crate::text::views;

verus! {

/// The first position at which two texts differ, or the length of the
/// shorter where one is a prefix of the other.
pub open spec fn first_difference(a: Seq<char>, b: Seq<char>) -> int
    decreases a.len(),
{
    if a.len() == 0 || b.len() == 0 || a[0] != b[0] {
        0
    } else {
        1 + first_difference(a.subrange(1, a.len() as int), b.subrange(1, b.len() as int))
    }
}

/// `a` stands before `b`, or is `b`.
pub open spec fn precedes(a: Seq<char>, b: Seq<char>) -> bool {
    let at = first_difference(a, b);
    if at < a.len() && at < b.len() {
        (a[at] as u32) < (b[at] as u32)
    } else {
        a.len() <= b.len()
    }
}

/// Each name of the list precedes those after it.
pub open spec fn ascending(names: Seq<Seq<char>>) -> bool {
    forall|i: int, j: int| 0 <= i < j < names.len() ==> precedes(names[i], names[j])
}

/// What `first_difference` finds: a position within both texts, before which
/// they agree and at which they differ unless one of them ends there.
pub proof fn lemma_first_difference(a: Seq<char>, b: Seq<char>)
    ensures
        0 <= first_difference(a, b) <= a.len(),
        first_difference(a, b) <= b.len(),
        forall|i: int| 0 <= i < first_difference(a, b) ==> a[i] == b[i],
        first_difference(a, b) < a.len() && first_difference(a, b) < b.len() ==> a[first_difference(
            a,
            b,
        )] != b[first_difference(a, b)],
    decreases a.len(),
{
    if !(a.len() == 0 || b.len() == 0 || a[0] != b[0]) {
        let ra = a.subrange(1, a.len() as int);
        let rb = b.subrange(1, b.len() as int);
        lemma_first_difference(ra, rb);
        assert forall|i: int| 0 <= i < first_difference(a, b) implies a[i] == b[i] by {
            if i > 0 {
                assert(a[i] == ra[i - 1]);
                assert(b[i] == rb[i - 1]);
            }
        }
    }
}

/// A position before which two texts agree, and at which they differ or one
/// of them ends, is their first difference.
pub proof fn lemma_first_difference_unique(a: Seq<char>, b: Seq<char>, at: int)
    requires
        0 <= at <= a.len(),
        at <= b.len(),
        forall|i: int| 0 <= i < at ==> a[i] == b[i],
        at < a.len() && at < b.len() ==> a[at] != b[at],
    ensures
        first_difference(a, b) == at,
{
    lemma_first_difference(a, b);
}

/// Of two names one precedes the other; where each precedes the other they
/// are the same name.
pub proof fn lemma_precedes_total(a: Seq<char>, b: Seq<char>)
    ensures
        precedes(a, b) || precedes(b, a),
        precedes(a, b) && precedes(b, a) ==> a == b,
{
    lemma_first_difference(a, b);
    lemma_first_difference_unique(b, a, first_difference(a, b));
    let at = first_difference(a, b);
    if at < a.len() && at < b.len() {
        vstd::utf8::char_u32_cast(a[at], a[at] as u32);
        vstd::utf8::char_u32_cast(b[at], b[at] as u32);
    }
    if precedes(a, b) && precedes(b, a) {
        assert(a =~= b);
    }
}

/// What precedes a name precedes all that the name precedes.
pub proof fn lemma_precedes_transitive(a: Seq<char>, b: Seq<char>, c: Seq<char>)
    requires
        precedes(a, b),
        precedes(b, c),
    ensures
        precedes(a, c),
{
    lemma_first_difference(a, b);
    lemma_first_difference(b, c);
    let first = first_difference(a, b);
    let second = first_difference(b, c);
    let at = if first < second {
        first
    } else {
        second
    };
    lemma_first_difference_unique(a, c, at);
}

/// Whether `a` stands before `b`, or is `b`.
pub fn str_precedes(a: &str, b: &str) -> (before: bool)
    ensures
        before == precedes(a@, b@),
{
    let n: usize = a.unicode_len();
    let m: usize = b.unicode_len();
    let mut i: usize = 0;
    while i < n && i < m
        invariant
            i <= n,
            i <= m,
            n == a@.len(),
            m == b@.len(),
            forall|j: int| 0 <= j < i ==> a@[j] == b@[j],
        decreases n - i,
    {
        let x = a.get_char(i);
        let y = b.get_char(i);
        if x != y {
            proof {
                lemma_first_difference_unique(a@, b@, i as int);
            }
            return (x as u32) < (y as u32);
        }
        i += 1;
    }
    proof {
        lemma_first_difference_unique(a@, b@, i as int);
    }
    n <= m
}

/// The names in ascending order: the same names, each as often as before.
pub fn sort_names(names: Vec<String>) -> (sorted: Vec<String>)
    ensures
        ascending(views(sorted@)),
        views(sorted@).to_multiset() == views(names@).to_multiset(),
{
    let count: usize = names.len();
    let mut sorted: Vec<String> = Vec::new();
    let mut index: usize = 0;
    assert(views(sorted@) =~= views(names@).take(0));
    while index < count
        invariant
            index <= count,
            count == names@.len(),
            ascending(views(sorted@)),
            views(sorted@).to_multiset() == views(names@).take(index as int).to_multiset(),
        decreases count - index,
    {
        let name = names[index].clone();
        let ghost before = views(sorted@);
        let mut place: usize = 0;
        while place < sorted.len() && str_precedes(sorted[place].as_str(), name.as_str())
            invariant
                place <= sorted@.len(),
                before == views(sorted@),
                forall|j: int| 0 <= j < place ==> precedes(before[j], name@),
            decreases sorted@.len() - place,
        {
            place += 1;
        }
        sorted.insert(place, name);
        proof {
            let after = views(sorted@);
            let item = names@[index as int]@;
            assert(after =~= before.insert(place as int, item));
            to_multiset_insert(before, place as int, item);
            assert(views(names@).take(index + 1) =~= views(names@).take(index as int).push(item));
            to_multiset_build(views(names@).take(index as int), item);
            assert forall|i: int, j: int| 0 <= i < j < after.len() implies precedes(
                after[i],
                after[j],
            ) by {
                if j == place {
                    assert(after[i] == before[i]);
                } else if i == place {
                    assert(after[j] == before[j - 1]);
                    lemma_precedes_total(before[place as int], item);
                    if j - 1 > place {
                        lemma_precedes_transitive(item, before[place as int], before[j - 1]);
                    }
                } else {
                    let bi = if i < place { i } else { i - 1 };
                    let bj = if j < place { j } else { j - 1 };
                    assert(after[i] == before[bi]);
                    assert(after[j] == before[bj]);
                }
            }
        }
        index += 1;
    }
    assert(views(names@).take(count as int) =~= views(names@));
    sorted
}

} // verus!
