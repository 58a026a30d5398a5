//! The order of a directory listing: directories first, then by name
//! without regard to case. Entries that compare equal keep their order.

use vstd::prelude::*;
use crate::text::chars_of;
use crate::text::lowercase_of;
use crate::text::to_lowercase;

verus! {

/// What an entry is ordered by: whether it is a directory, and its name
/// in lower case.
pub type SortKey = (bool, Seq<char>);

/// Whether `a` comes before `b`, or is equal to it, character by
/// character from position `from` on.
pub open spec fn text_le_from(a: Seq<char>, b: Seq<char>, from: int) -> bool
    decreases a.len() - from,
{
    if from < 0 || from >= a.len() {
        true
    } else if from >= b.len() {
        false
    } else if a[from] != b[from] {
        a[from] < b[from]
    } else {
        text_le_from(a, b, from + 1)
    }
}

/// Whether `a` comes before `b` in the order of a dictionary, or is equal
/// to it.
pub open spec fn text_le(a: Seq<char>, b: Seq<char>) -> bool {
    text_le_from(a, b, 0)
}

/// Whether an entry with key `a` may stand before one with key `b`: a
/// directory before a file, and among the same kind the smaller name
/// first.
pub open spec fn key_le(a: SortKey, b: SortKey) -> bool {
    (a.0 && !b.0) || (a.0 == b.0 && text_le(a.1, b.1))
}

/// Where entry `x` goes into an order already made: behind the last entry
/// that may stand before it.
pub open spec fn place(order: Seq<usize>, keys: Seq<SortKey>, x: int) -> int
    decreases order.len(),
{
    if order.len() == 0 || key_le(keys[order.last() as int], keys[x]) {
        order.len() as int
    } else {
        place(order.drop_last(), keys, x)
    }
}

/// The order of the first `upto` entries: each entry in turn is put behind
/// the last one that may stand before it.
pub open spec fn sorted_order(keys: Seq<SortKey>, upto: int) -> Seq<usize>
    decreases upto,
{
    if upto <= 0 {
        Seq::empty()
    } else {
        let before = sorted_order(keys, upto - 1);
        before.insert(place(before, keys, upto - 1), (upto - 1) as usize)
    }
}

/// The place of an entry lies within the order.
pub proof fn lemma_place(order: Seq<usize>, keys: Seq<SortKey>, x: int)
    ensures
        0 <= place(order, keys, x) <= order.len(),
    decreases order.len(),
{
    if !(order.len() == 0 || key_le(keys[order.last() as int], keys[x])) {
        lemma_place(order.drop_last(), keys, x);
    }
}

/// The order of the first `upto` entries names each of them once and no
/// other.
pub proof fn lemma_sorted_order(keys: Seq<SortKey>, upto: int)
    requires
        0 <= upto <= keys.len(),
        keys.len() <= usize::MAX,
    ensures
        sorted_order(keys, upto).len() == upto,
        forall|k: int|
            0 <= k < upto ==> (#[trigger] sorted_order(keys, upto)[k]) < upto,
        sorted_order(keys, upto).no_duplicates(),
        forall|i: usize| i < upto ==> #[trigger] sorted_order(keys, upto).contains(i),
    decreases upto,
{
    if upto > 0 {
        lemma_sorted_order(keys, upto - 1);
        let before = sorted_order(keys, upto - 1);
        lemma_place(before, keys, upto - 1);
        let at = place(before, keys, upto - 1);
        let now = before.insert(at, (upto - 1) as usize);
        assert forall|k: int| 0 <= k < upto implies (#[trigger] now[k]) < upto by {
            if k < at {
                assert(now[k] == before[k]);
            } else if k > at {
                assert(now[k] == before[k - 1]);
            }
        }
        assert forall|a: int, b: int| 0 <= a < now.len() && 0 <= b < now.len() && a != b implies now[a]
            != now[b] by {
            let a0 = if a < at {
                a
            } else {
                a - 1
            };
            let b0 = if b < at {
                b
            } else {
                b - 1
            };
            if a != at {
                assert(now[a] == before[a0]);
                assert(before[a0] < upto - 1);
            }
            if b != at {
                assert(now[b] == before[b0]);
                assert(before[b0] < upto - 1);
            }
        }
        assert forall|i: usize| i < upto implies #[trigger] now.contains(i) by {
            if i == upto - 1 {
                assert(now[at] == i);
            } else {
                assert(before.contains(i));
                let k = choose|k: int| 0 <= k < before.len() && before[k] == i;
                if k < at {
                    assert(now[k] == before[k]);
                } else {
                    assert(now[k + 1] == before[k]);
                }
            }
        }
    }
}

/// The keys as values.
pub open spec fn keys_view(keys: Seq<(bool, Vec<char>)>) -> Seq<SortKey> {
    Seq::new(keys.len(), |i: int| (keys[i].0, keys[i].1@))
}

/// Tells whether one name comes before another, or is equal to it.
pub fn text_le_chars(a: &Vec<char>, b: &Vec<char>) -> (le: bool)
    ensures
        le == text_le(a@, b@),
{
    let mut i: usize = 0;
    while i < a.len()
        invariant
            i <= a@.len(),
            text_le(a@, b@) == text_le_from(a@, b@, i as int),
        decreases a@.len() - i,
    {
        if i >= b.len() {
            return false;
        }
        if a[i] != b[i] {
            return a[i] < b[i];
        }
        i += 1;
    }
    true
}

/// Tells whether an entry may stand before another.
pub fn key_le_exec(a: &(bool, Vec<char>), b: &(bool, Vec<char>)) -> (le: bool)
    ensures
        le == key_le((a.0, a.1@), (b.0, b.1@)),
{
    (a.0 && !b.0) || (a.0 == b.0 && text_le_chars(&a.1, &b.1))
}

/// The key of an entry: whether it is a directory, and its name in lower
/// case.
pub open spec fn key_of(is_dir: bool, name: Seq<char>) -> SortKey {
    (is_dir, lowercase_of(name))
}

/// Makes the key of an entry.
pub fn make_key(is_dir: bool, name: &str) -> (key: (bool, Vec<char>))
    ensures
        (key.0, key.1@) == key_of(is_dir, name@),
{
    let lower = to_lowercase(name);
    (is_dir, chars_of(lower.as_str()))
}

/// Puts the entries with the given keys in order and returns their
/// indices in that order.
pub fn sort_order(keys: &Vec<(bool, Vec<char>)>) -> (order: Vec<usize>)
    ensures
        order@ == sorted_order(keys_view(keys@), keys@.len() as int),
        order@.len() == keys@.len(),
        forall|k: int| 0 <= k < order@.len() ==> (#[trigger] order@[k]) < keys@.len(),
{
    let ghost view = keys_view(keys@);
    let mut order: Vec<usize> = Vec::new();
    let mut i: usize = 0;
    while i < keys.len()
        invariant
            i <= keys@.len(),
            view == keys_view(keys@),
            order@ == sorted_order(view, i as int),
            order@.len() == i,
            forall|k: int| 0 <= k < order@.len() ==> (#[trigger] order@[k]) < i,
        decreases keys@.len() - i,
    {
        let mut at: usize = order.len();
        assert(order@.take(at as int) =~= order@);
        while at > 0 && !key_le_exec(&keys[order[at - 1]], &keys[i])
            invariant
                at <= order@.len(),
                i < keys@.len(),
                view == keys_view(keys@),
                forall|k: int| 0 <= k < order@.len() ==> (#[trigger] order@[k]) < i,
                place(order@, view, i as int) == place(order@.take(at as int), view, i as int),
            decreases at,
        {
            proof {
                let prefix = order@.take(at as int);
                assert(prefix.last() == order@[at - 1]);
                assert(prefix.drop_last() =~= order@.take(at - 1));
            }
            at -= 1;
        }
        proof {
            let prefix = order@.take(at as int);
            if at > 0 {
                assert(prefix.last() == order@[at - 1]);
            }
            assert(place(prefix, view, i as int) == at);
        }
        let ghost before = order@;
        order.insert(at, i);
        proof {
            assert forall|k: int| 0 <= k < order@.len() implies (#[trigger] order@[k]) < i + 1 by {
                if k < at {
                    assert(order@[k] == before[k]);
                } else if k > at {
                    assert(order@[k] == before[k - 1]);
                }
            }
        }
        i += 1;
    }
    order
}

/// Of two names one comes before the other, or they are equal.
pub proof fn lemma_text_le_total(a: Seq<char>, b: Seq<char>, from: int)
    requires
        0 <= from,
    ensures
        text_le_from(a, b, from) || text_le_from(b, a, from),
    decreases a.len() - from,
{
    if from < a.len() && from < b.len() {
        if a[from] == b[from] {
            lemma_text_le_total(a, b, from + 1);
        }
    }
}

/// The order of names is transitive.
pub proof fn lemma_text_le_transitive(a: Seq<char>, b: Seq<char>, c: Seq<char>, from: int)
    requires
        0 <= from,
        text_le_from(a, b, from),
        text_le_from(b, c, from),
    ensures
        text_le_from(a, c, from),
    decreases a.len() - from,
{
    if from < a.len() {
        if a[from] == b[from] && b[from] == c[from] {
            lemma_text_le_transitive(a, b, c, from + 1);
        }
    }
}

/// Of two entries one may stand before the other.
pub proof fn lemma_key_le_total(a: SortKey, b: SortKey)
    ensures
        key_le(a, b) || key_le(b, a),
{
    lemma_text_le_total(a.1, b.1, 0);
}

/// Where `a` may stand before `b` and `b` before `c`, `a` may stand
/// before `c`.
pub proof fn lemma_key_le_transitive(a: SortKey, b: SortKey, c: SortKey)
    requires
        key_le(a, b),
        key_le(b, c),
    ensures
        key_le(a, c),
{
    if a.0 == b.0 && b.0 == c.0 {
        lemma_text_le_transitive(a.1, b.1, c.1, 0);
    }
}

/// An order in which every entry may stand before all that follow it, and
/// in which entries that may stand either way keep the order in which they
/// were given.
pub open spec fn in_order(order: Seq<usize>, keys: Seq<SortKey>) -> bool {
    forall|a: int, b: int|
        0 <= a < b < order.len() ==> {
            &&& key_le(keys[(#[trigger] order[a]) as int], keys[(#[trigger] order[b]) as int])
            &&& (key_le(keys[order[b] as int], keys[order[a] as int]) ==> order[a] < order[b])
        }
}

proof fn lemma_place_splits(order: Seq<usize>, keys: Seq<SortKey>, x: int)
    ensures
        place(order, keys, x) > 0 ==> key_le(
            keys[order[place(order, keys, x) - 1] as int],
            keys[x],
        ),
        forall|k: int|
            place(order, keys, x) <= k < order.len() ==> !key_le(
                keys[(#[trigger] order[k]) as int],
                keys[x],
            ),
    decreases order.len(),
{
    lemma_place(order, keys, x);
    if !(order.len() == 0 || key_le(keys[order.last() as int], keys[x])) {
        lemma_place_splits(order.drop_last(), keys, x);
        lemma_place(order.drop_last(), keys, x);
        let at = place(order, keys, x);
        assert forall|k: int| at <= k < order.len() implies !key_le(
            keys[(#[trigger] order[k]) as int],
            keys[x],
        ) by {
            if k < order.len() - 1 {
                assert(order.drop_last()[k] == order[k]);
            }
        }
        if at > 0 {
            assert(order.drop_last()[at - 1] == order[at - 1]);
        }
    }
}

/// A listing is in order: directories stand before files, within each
/// kind the names ascend without regard to case, and entries with the
/// same kind and name keep the order in which they were given.
pub proof fn lemma_sorted_in_order(keys: Seq<SortKey>, upto: int)
    requires
        0 <= upto <= keys.len(),
        keys.len() <= usize::MAX,
    ensures
        in_order(sorted_order(keys, upto), keys),
    decreases upto,
{
    if upto > 0 {
        lemma_sorted_in_order(keys, upto - 1);
        lemma_sorted_order(keys, upto - 1);
        let before = sorted_order(keys, upto - 1);
        let x = upto - 1;
        lemma_place(before, keys, x);
        lemma_place_splits(before, keys, x);
        let at = place(before, keys, x);
        let now = before.insert(at, x as usize);
        assert forall|a: int, b: int| 0 <= a < b < now.len() implies {
            &&& key_le(keys[(#[trigger] now[a]) as int], keys[(#[trigger] now[b]) as int])
            &&& (key_le(keys[now[b] as int], keys[now[a] as int]) ==> now[a] < now[b])
        } by {
            if b < at {
                assert(now[a] == before[a] && now[b] == before[b]);
            } else if a > at {
                assert(now[a] == before[a - 1] && now[b] == before[b - 1]);
            } else if a < at && b > at {
                assert(now[a] == before[a] && now[b] == before[b - 1]);
            } else if b == at {
                assert(now[a] == before[a]);
                assert(now[b] == x);
                assert(before[a] < x);
                if a < at - 1 {
                    lemma_key_le_transitive(
                        keys[before[a] as int],
                        keys[before[at - 1] as int],
                        keys[x],
                    );
                }
            } else {
                assert(a == at);
                assert(now[a] == x);
                assert(now[b] == before[b - 1]);
                lemma_key_le_total(keys[x], keys[before[b - 1] as int]);
            }
        }
    }
}

} // verus!
