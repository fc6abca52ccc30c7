//! The balance recalculation engine: running balances over ordered
//! entries, and the prefix-sum rule that a ledger keeps.

use vstd::prelude::*;
use crate::entry::Entry;
use crate::error::LedgerError;

verus! {

/// The balance after the first `n` of `rows`, starting from `start`.
pub open spec fn running_balance(rows: Seq<Entry>, start: int, n: int) -> int
    decreases n,
{
    if n <= 0 {
        start
    } else {
        running_balance(rows, start, n - 1) + rows[n - 1].amount
    }
}

/// Every running balance of `rows` from `start` can be stored.
pub open spec fn balances_fit(rows: Seq<Entry>, start: int) -> bool {
    forall|n: int|
        1 <= n <= rows.len() ==> i64::MIN <= #[trigger] running_balance(rows, start, n) <= i64::MAX
}

/// What the recalculation yields: for each row, in order, its identifier
/// and its new balance.
pub open spec fn recalculated(rows: Seq<Entry>, start: int) -> Seq<(u128, i64)> {
    Seq::new(rows.len(), |i: int| (rows[i].id, running_balance(rows, start, i + 1) as i64))
}

/// The rows with their balances replaced by the running balance from `start`.
pub open spec fn rebalanced(rows: Seq<Entry>, start: int) -> Seq<Entry> {
    Seq::new(rows.len(), |i: int| rows[i].with_balance(running_balance(rows, start, i + 1) as i64))
}

/// The balance that stands before row `i`: that of the row before it, or
/// `start` for the first row.
pub open spec fn balance_before(rows: Seq<Entry>, start: int, i: int) -> int {
    if i <= 0 {
        start
    } else {
        rows[i - 1].balance as int
    }
}

/// Each balance is the balance before it plus the row's own amount, the
/// balance before the first row being `start`.
pub open spec fn chained_from(rows: Seq<Entry>, start: int) -> bool {
    forall|i: int|
        0 <= i < rows.len() ==> rows[i].balance == #[trigger] balance_before(rows, start, i)
            + rows[i].amount
}

/// The prefix-sum rule of a ledger: the stored balances are the running
/// sums of the amounts, counted from zero.
pub open spec fn prefix_sums_hold(rows: Seq<Entry>) -> bool {
    chained_from(rows, 0)
}

/// Rows that are chained from `start` hold exactly the running balances.
pub proof fn lemma_chained_is_running(rows: Seq<Entry>, start: int, n: int)
    requires
        chained_from(rows, start),
        1 <= n <= rows.len(),
    ensures
        running_balance(rows, start, n) == rows[n - 1].balance,
    decreases n,
{
    assert(rows[n - 1].balance == balance_before(rows, start, n - 1) + rows[n - 1].amount);
    if n > 1 {
        lemma_chained_is_running(rows, start, n - 1);
    } else {
        assert(running_balance(rows, start, 0) == start);
    }
}

/// Recalculating rows that are already chained from `start` changes nothing.
pub proof fn lemma_rebalance_chained(rows: Seq<Entry>, start: int)
    requires
        chained_from(rows, start),
    ensures
        balances_fit(rows, start),
        rebalanced(rows, start) == rows,
{
    assert forall|n: int| 1 <= n <= rows.len() implies i64::MIN <= #[trigger] running_balance(
        rows,
        start,
        n,
    ) <= i64::MAX by {
        lemma_chained_is_running(rows, start, n);
    }
    assert forall|i: int| 0 <= i < rows.len() implies rebalanced(rows, start)[i] == rows[i] by {
        lemma_chained_is_running(rows, start, i + 1);
    }
    assert(rebalanced(rows, start) =~= rows);
}

/// Recalculated rows are chained from the starting balance.
pub proof fn lemma_rebalanced_is_chained(rows: Seq<Entry>, start: int)
    requires
        balances_fit(rows, start),
        i64::MIN <= start <= i64::MAX,
    ensures
        chained_from(rebalanced(rows, start), start),
{
    let out = rebalanced(rows, start);
    assert forall|i: int| 0 <= i < out.len() implies out[i].balance == #[trigger] balance_before(
        out,
        start,
        i,
    ) + out[i].amount by {
        assert(running_balance(rows, start, i + 1) == running_balance(rows, start, i)
            + rows[i].amount);
        if i > 0 {
            assert(i64::MIN <= running_balance(rows, start, i) <= i64::MAX);
        } else {
            assert(running_balance(rows, start, 0) == start);
        }
    }
}

/// Recomputes the running balance of `dependents`, taken in the order
/// given, from `starting_balance`: each row's balance is the balance
/// before it plus its amount. Yields each row's identifier with its new
/// balance, or `ValidationFailure` when a balance cannot be stored.
pub fn recalculate_balance(dependents: &[Entry], starting_balance: i64) -> (result: Result<
    Vec<(u128, i64)>,
    LedgerError,
>)
    ensures
        balances_fit(dependents@, starting_balance as int) ==> result is Ok && result.unwrap()@
            == recalculated(dependents@, starting_balance as int),
        !balances_fit(dependents@, starting_balance as int) ==> result == Err::<
            Vec<(u128, i64)>,
            LedgerError,
        >(LedgerError::ValidationFailure),
{
    let ghost rows = dependents@;
    let ghost start = starting_balance as int;
    let mut updates: Vec<(u128, i64)> = Vec::new();
    let mut current: i64 = starting_balance;
    let mut i: usize = 0;
    while i < dependents.len()
        invariant
            rows == dependents@,
            start == starting_balance as int,
            i <= rows.len(),
            current == running_balance(rows, start, i as int),
            updates@ == recalculated(rows, start).take(i as int),
            forall|n: int|
                1 <= n <= i ==> i64::MIN <= #[trigger] running_balance(rows, start, n) <= i64::MAX,
        decreases rows.len() - i,
    {
        match current.checked_add(dependents[i].amount) {
            Some(next) => {
                current = next;
                updates.push((dependents[i].id, next));
                assert(updates@ =~= recalculated(rows, start).take(i + 1));
            },
            None => {
                assert(!(i64::MIN <= running_balance(rows, start, i + 1) <= i64::MAX));
                return Err(LedgerError::ValidationFailure);
            },
        }
        i = i + 1;
    }
    assert(updates@ =~= recalculated(rows, start));
    Ok(updates)
}

/// Whether the stored balances are the running sums of the amounts.
pub fn balances_consistent(rows: &[Entry]) -> (ok: bool)
    ensures
        ok == prefix_sums_hold(rows@),
{
    let mut previous: i64 = 0;
    let mut i: usize = 0;
    while i < rows.len()
        invariant
            i <= rows.len(),
            previous == balance_before(rows@, 0, i as int),
            forall|k: int|
                0 <= k < i ==> rows@[k].balance == #[trigger] balance_before(rows@, 0, k)
                    + rows@[k].amount,
        decreases rows.len() - i,
    {
        match previous.checked_add(rows[i].amount) {
            Some(expected) => {
                if rows[i].balance != expected {
                    assert(rows@[i as int].balance != balance_before(rows@, 0, i as int)
                        + rows@[i as int].amount);
                    return false;
                }
            },
            None => {
                assert(rows@[i as int].balance != balance_before(rows@, 0, i as int)
                    + rows@[i as int].amount);
                return false;
            },
        }
        previous = rows[i].balance;
        i = i + 1;
    }
    true
}

} // verus!
