//! Rows of items: a vector of vectors seen as a sequence of sequences.

use vstd::prelude::*;

verus! {

/// What each row holds, row by row.
pub open spec fn rows_view<T>(rows: Seq<Vec<T>>) -> Seq<Seq<T>> {
    Seq::new(rows.len(), |r: int| rows[r]@)
}

/// `rows` with one more item at the end of row `row`.
pub open spec fn with_item<T>(rows: Seq<Seq<T>>, row: int, item: T) -> Seq<Seq<T>> {
    rows.update(row, rows[row].push(item))
}

/// Pushing an item onto one row changes the view of the rows by that item.
pub proof fn lemma_push_row<T>(before: Seq<Vec<T>>, after: Seq<Vec<T>>, row: int, item: T)
    requires
        0 <= row < before.len(),
        after.len() == before.len(),
        after[row]@ == before[row]@.push(item),
        forall|r: int| 0 <= r < before.len() && r != row ==> #[trigger] after[r] == before[r],
    ensures
        rows_view(after) == with_item(rows_view(before), row, item),
{
    let lhs = rows_view(after);
    let rhs = with_item(rows_view(before), row, item);
    assert(lhs.len() == rhs.len());
    assert forall|r: int| 0 <= r < lhs.len() implies lhs[r] == rhs[r] by {
        assert(lhs[r] == after[r]@);
        assert(rows_view(before)[r] == before[r]@);
        if r != row {
            assert(after[r] == before[r]);
            assert(rhs[r] == rows_view(before)[r]);
        } else {
            assert(rhs[r] == rows_view(before)[row].push(item));
        }
    }
    assert(lhs =~= rhs);
}

/// Appends an item to one row.
pub fn push_item<T>(rows: &mut Vec<Vec<T>>, row: usize, item: T)
    requires
        row < old(rows)@.len(),
    ensures
        final(rows)@.len() == old(rows)@.len(),
        rows_view(final(rows)@) == with_item(rows_view(old(rows)@), row as int, item),
{
    let ghost before = rows@;
    rows[row].push(item);
    proof {
        lemma_push_row(before, rows@, row as int, item);
    }
}

/// Makes `n` empty rows.
pub fn empty_rows<T>(n: usize) -> (rows: Vec<Vec<T>>)
    ensures
        rows@.len() == n,
        rows_view(rows@) == Seq::new(n as nat, |r: int| Seq::<T>::empty()),
{
    let mut rows: Vec<Vec<T>> = Vec::new();
    let mut r: usize = 0;
    while r < n
        invariant
            r <= n,
            rows@.len() == r,
            forall|i: int| 0 <= i < r ==> (#[trigger] rows@[i])@ == Seq::<T>::empty(),
        decreases n - r,
    {
        rows.push(Vec::new());
        r += 1;
    }
    assert(rows_view(rows@) =~= Seq::new(n as nat, |r: int| Seq::<T>::empty()));
    rows
}

} // verus!
