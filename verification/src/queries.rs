//! Running a query over rows: filter, sort, offset and limit.

use vstd::prelude::*;
use crate::helpers::Order;
use crate::sorting::{is_stable_order, key_views, sort_order, sorted_order};

verus! {

/// A row that can be copied.
pub trait Row: Sized {
    /// A copy of the row, field for field.
    fn copy_row(&self) -> (copy: Self)
        ensures
            copy == *self,
    ;
}

/// A filter on rows of one kind.
pub trait RowFilter<T> {
    /// The row passes the filter.
    spec fn admits(&self, row: T) -> bool;

    /// Whether the row passes the filter.
    fn passes_row(&self, row: &T) -> (ok: bool)
        ensures
            ok == self.admits(*row),
    ;
}

/// A row that can be sorted by the columns `C`.
pub trait Keyed<C>: Sized {
    /// The sort key of the row by a column.
    spec fn key_by(&self, column: C) -> Seq<u128>;

    /// The sort key of the row by a column.
    fn sort_key(&self, column: C) -> (key: Vec<u128>)
        ensures
            key@ == self.key_by(column),
    ;
}

/// The row passes the filter; no filter lets every row pass.
pub open spec fn admitted<T, F: RowFilter<T>>(filter: Option<F>, row: T) -> bool {
    match filter {
        Some(filter) => filter.admits(row),
        None => true,
    }
}

/// The places of the rows that pass the filter, in ascending order.
pub open spec fn passing_places<T, F: RowFilter<T>>(rows: Seq<T>, filter: Option<F>) -> Seq<usize>
    decreases rows.len(),
{
    if rows.len() == 0 {
        Seq::<usize>::empty()
    } else if admitted(filter, rows.last()) {
        passing_places(rows.drop_last(), filter).push((rows.len() - 1) as usize)
    } else {
        passing_places(rows.drop_last(), filter)
    }
}

/// The rows at the places given, in the order of the places.
pub open spec fn picked<T>(rows: Seq<T>, places: Seq<usize>) -> Seq<T> {
    Seq::new(places.len(), |k: int| rows[places[k] as int])
}

/// The sort keys of the rows by a column.
pub open spec fn keys_by<T: Keyed<C>, C>(rows: Seq<T>, column: C) -> Seq<Seq<u128>> {
    Seq::new(rows.len(), |i: int| rows[i].key_by(column))
}

/// The rows sorted by a column in a direction, rows with equal keys in
/// the order in which they came; without a sort, the rows as they came.
pub open spec fn ordered<T: Keyed<C>, C>(rows: Seq<T>, sort: Option<(C, Order)>) -> Seq<T> {
    match sort {
        Some((column, direction)) => picked(
            rows,
            sorted_order(keys_by(rows, column), direction, rows.len() as int),
        ),
        None => rows,
    }
}

/// How many rows an offset skips: the offset, or all rows where there are
/// fewer.
pub open spec fn page_start(len: int, offset: Option<u64>) -> int {
    match offset {
        Some(n) => if n < len {
            n as int
        } else {
            len
        },
        None => 0,
    }
}

/// How many rows a limit lets through of the rows that are left: the
/// limit, or all of them where there are fewer.
pub open spec fn page_count(left: int, limit: Option<u64>) -> int {
    match limit {
        Some(n) => if n < left {
            n as int
        } else {
            left
        },
        None => left,
    }
}

/// The rows behind the offset, up to the limit.
pub open spec fn page<T>(rows: Seq<T>, offset: Option<u64>, limit: Option<u64>) -> Seq<T> {
    let start = page_start(rows.len() as int, offset);
    rows.subrange(start, start + page_count(rows.len() - start, limit))
}

/// What a query yields: the rows that pass the filter, sorted, behind the
/// offset and up to the limit.
pub open spec fn selected<T: Keyed<C>, F: RowFilter<T>, C>(
    rows: Seq<T>,
    filter: Option<F>,
    sort: Option<(C, Order)>,
    offset: Option<u64>,
    limit: Option<u64>,
) -> Seq<T> {
    page(ordered(picked(rows, passing_places(rows, filter)), sort), offset, limit)
}

/// The places of the passing rows lie within the rows and ascend.
pub proof fn lemma_passing_places<T, F: RowFilter<T>>(rows: Seq<T>, filter: Option<F>)
    requires
        rows.len() <= usize::MAX,
    ensures
        passing_places(rows, filter).len() <= rows.len(),
        forall|k: int|
            0 <= k < passing_places(rows, filter).len() ==> 0 <= #[trigger] passing_places(
                rows,
                filter,
            )[k] < rows.len() && admitted(filter, rows[passing_places(rows, filter)[k] as int]),
    decreases rows.len(),
{
    if rows.len() > 0 {
        lemma_passing_places(rows.drop_last(), filter);
        let before = passing_places(rows.drop_last(), filter);
        let all = passing_places(rows, filter);
        assert forall|k: int| 0 <= k < all.len() implies 0 <= #[trigger] all[k] < rows.len()
            && admitted(filter, rows[all[k] as int]) by {
            if k < before.len() {
                assert(all[k] == before[k]);
                assert(rows.drop_last()[before[k] as int] == rows[before[k] as int]);
            }
        }
    }
}

/// Runs a query over rows: keeps the rows that pass the filter, sorts them
/// where a sort is asked for, skips `offset` rows and yields copies of up
/// to `limit` of the rest.
pub fn select<T: Row + Keyed<C>, F: RowFilter<T>, C: Copy>(
    rows: &Vec<T>,
    filter: &Option<F>,
    sort: Option<(C, Order)>,
    offset: Option<u64>,
    limit: Option<u64>,
) -> (result: Vec<T>)
    ensures
        result@ == selected(rows@, *filter, sort, offset, limit),
{
    let mut keep: Vec<usize> = Vec::new();
    let mut i: usize = 0;
    while i < rows.len()
        invariant
            i <= rows.len(),
            keep@ == passing_places(rows@.take(i as int), *filter),
        decreases rows.len() - i,
    {
        let passes: bool = match filter {
            Some(filter) => filter.passes_row(&rows[i]),
            None => true,
        };
        proof {
            let part = rows@.take(i + 1);
            assert(part.drop_last() =~= rows@.take(i as int));
            assert(part.last() == rows@[i as int]);
        }
        if passes {
            keep.push(i);
        }
        i = i + 1;
    }
    proof {
        assert(rows@.take(rows.len() as int) =~= rows@);
        lemma_passing_places(rows@, *filter);
    }
    let ghost kept = picked(rows@, keep@);
    let n: usize = keep.len();
    let order: Option<Vec<usize>> = match sort {
        Some((column, direction)) => {
            let mut keys: Vec<Vec<u128>> = Vec::new();
            let mut k: usize = 0;
            while k < n
                invariant
                    k <= n,
                    n == keep@.len(),
                    kept == picked(rows@, keep@),
                    forall|j: int| 0 <= j < keep@.len() ==> #[trigger] keep@[j] < rows.len(),
                    keys@.len() == k,
                    forall|j: int| 0 <= j < k ==> (#[trigger] keys@[j])@ == kept[j].key_by(column),
                decreases n - k,
            {
                keys.push(rows[keep[k]].sort_key(column));
                k = k + 1;
            }
            assert(key_views(keys@) =~= keys_by(kept, column));
            Some(sort_order(&keys, direction))
        },
        None => None,
    };
    let start: usize = match offset {
        Some(skip) => if skip < n as u64 {
            skip as usize
        } else {
            n
        },
        None => 0,
    };
    let count: usize = match limit {
        Some(most) => if most < (n - start) as u64 {
            most as usize
        } else {
            n - start
        },
        None => n - start,
    };
    let ghost sorted = ordered(kept, sort);
    let ghost target = page(sorted, offset, limit);
    assert(sorted.len() == n);
    let mut result: Vec<T> = Vec::new();
    let mut k: usize = 0;
    while k < count
        invariant
            k <= count,
            start + count <= n,
            n == keep@.len(),
            kept == picked(rows@, keep@),
            sorted == ordered(kept, sort),
            sorted.len() == n,
            forall|j: int| 0 <= j < keep@.len() ==> #[trigger] keep@[j] < rows.len(),
            match order {
                Some(order) => sort is Some && order@ == sorted_order(
                    keys_by(kept, sort.unwrap().0),
                    sort.unwrap().1,
                    n as int,
                ) && is_stable_order(
                    keys_by(kept, sort.unwrap().0),
                    sort.unwrap().1,
                    n as int,
                    order@,
                ),
                None => sort is None,
            },
            result@ == sorted.subrange(start as int, start + k),
        decreases count - k,
    {
        let place: usize = match &order {
            Some(order) => keep[order[start + k]],
            None => keep[start + k],
        };
        result.push(rows[place].copy_row());
        assert(result@ =~= sorted.subrange(start as int, start + k + 1));
        k = k + 1;
    }
    assert(result@ =~= target);
    result
}

} // verus!
