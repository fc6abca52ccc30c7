//! A stable sort over order-preserving keys.

use vstd::prelude::*;
use crate::helpers::Order;

verus! {

/// The order of sort keys: a key goes before another where it is smaller
/// at the first place at which the two differ, or where it ends there.
pub open spec fn key_before(a: Seq<u128>, b: Seq<u128>) -> bool
    decreases a.len(),
{
    if b.len() == 0 {
        false
    } else if a.len() == 0 {
        true
    } else if a[0] != b[0] {
        a[0] < b[0]
    } else {
        key_before(a.drop_first(), b.drop_first())
    }
}

/// The key `a` goes before the key `b` in the direction of the sort.
pub open spec fn goes_before(a: Seq<u128>, b: Seq<u128>, direction: Order) -> bool {
    match direction {
        Order::Asc => key_before(a, b),
        Order::Desc => key_before(b, a),
    }
}

/// The place at which a row with `key` is put into an order so far: the
/// first place, from `from` on, whose row it goes before, or the end.
pub open spec fn insert_position(
    keys: Seq<Seq<u128>>,
    order: Seq<usize>,
    key: Seq<u128>,
    direction: Order,
    from: int,
) -> int
    decreases order.len() - from,
{
    if from < 0 || from >= order.len() {
        order.len() as int
    } else if goes_before(key, keys[order[from] as int], direction) {
        from
    } else {
        insert_position(keys, order, key, direction, from + 1)
    }
}

/// The sorted order of the first `n` rows: the places of the rows, such
/// that their keys ascend or descend in the direction given, and rows with
/// equal keys stay in the order in which they came.
pub open spec fn sorted_order(keys: Seq<Seq<u128>>, direction: Order, n: int) -> Seq<usize>
    decreases n,
{
    if n <= 0 {
        Seq::<usize>::empty()
    } else {
        let before = sorted_order(keys, direction, n - 1);
        before.insert(
            insert_position(keys, before, keys[n - 1], direction, 0),
            (n - 1) as usize,
        )
    }
}

/// An order of the first `n` rows: every place below `n` once, keys in
/// the direction given, equal keys in the order in which they came.
pub open spec fn is_stable_order(
    keys: Seq<Seq<u128>>,
    direction: Order,
    n: int,
    order: Seq<usize>,
) -> bool {
    &&& order.len() == n
    &&& forall|a: int| 0 <= a < order.len() ==> 0 <= #[trigger] order[a] < n
    &&& forall|a: int, b: int|
        0 <= a < b < order.len() ==> #[trigger] order[a] != #[trigger] order[b]
    &&& forall|a: int, b: int|
        0 <= a < b < order.len() ==> !goes_before(
            keys[#[trigger] order[b] as int],
            keys[#[trigger] order[a] as int],
            direction,
        ) && (goes_before(keys[order[a] as int], keys[order[b] as int], direction)
            || order[a] < order[b])
}

/// No key goes before itself, and of two keys at most one goes before the
/// other.
pub proof fn lemma_key_before_asymmetric(a: Seq<u128>, b: Seq<u128>)
    ensures
        !(key_before(a, b) && key_before(b, a)),
    decreases a.len(),
{
    if a.len() > 0 && b.len() > 0 && a[0] == b[0] {
        lemma_key_before_asymmetric(a.drop_first(), b.drop_first());
    }
}

/// A key that goes before a second key goes before every key that does
/// not go before the second.
pub proof fn lemma_key_before_chain(a: Seq<u128>, b: Seq<u128>, c: Seq<u128>)
    requires
        key_before(a, b),
        !key_before(c, b),
    ensures
        key_before(a, c),
    decreases a.len(),
{
    if a.len() > 0 && c.len() > 0 && b.len() > 0 {
        if a[0] == b[0] && c[0] == b[0] {
            lemma_key_before_chain(a.drop_first(), b.drop_first(), c.drop_first());
        }
    }
}

/// A key before which a second key does not go goes before every key
/// that the second goes before.
pub proof fn lemma_key_after_chain(a: Seq<u128>, b: Seq<u128>, c: Seq<u128>)
    requires
        !key_before(b, a),
        key_before(b, c),
    ensures
        key_before(a, c),
    decreases a.len(),
{
    if a.len() > 0 && c.len() > 0 && b.len() > 0 {
        if a[0] == b[0] && c[0] == b[0] {
            lemma_key_after_chain(a.drop_first(), b.drop_first(), c.drop_first());
        }
    }
}

/// What the insert position is: no row before it is one that the key goes
/// before, and the row at it, if there is one, is.
pub proof fn lemma_insert_position(
    keys: Seq<Seq<u128>>,
    order: Seq<usize>,
    key: Seq<u128>,
    direction: Order,
    from: int,
)
    requires
        0 <= from <= order.len(),
    ensures
        from <= insert_position(keys, order, key, direction, from) <= order.len(),
        forall|a: int|
            from <= a < insert_position(keys, order, key, direction, from) ==> !goes_before(
                key,
                keys[#[trigger] order[a] as int],
                direction,
            ),
        insert_position(keys, order, key, direction, from) < order.len() ==> goes_before(
            key,
            keys[order[insert_position(keys, order, key, direction, from)] as int],
            direction,
        ),
    decreases order.len() - from,
{
    if from < order.len() && !goes_before(key, keys[order[from] as int], direction) {
        lemma_insert_position(keys, order, key, direction, from + 1);
    }
}

/// A place that satisfies what `lemma_insert_position` states is the
/// insert position.
pub proof fn lemma_insert_position_is(
    keys: Seq<Seq<u128>>,
    order: Seq<usize>,
    key: Seq<u128>,
    direction: Order,
    from: int,
    at: int,
)
    requires
        0 <= from <= at <= order.len(),
        forall|a: int|
            from <= a < at ==> !goes_before(key, keys[#[trigger] order[a] as int], direction),
        at < order.len() ==> goes_before(key, keys[order[at] as int], direction),
    ensures
        insert_position(keys, order, key, direction, from) == at,
    decreases at - from,
{
    if from < at {
        assert(!goes_before(key, keys[order[from] as int], direction));
        lemma_insert_position_is(keys, order, key, direction, from + 1, at);
    }
}

/// The sorted order is an order: it holds every place once, the keys run
/// in the direction of the sort, and rows with equal keys stay in the
/// order in which they came.
pub proof fn law_sorted_order_is_stable(keys: Seq<Seq<u128>>, direction: Order, n: int)
    requires
        0 <= n <= keys.len(),
        n <= usize::MAX,
    ensures
        is_stable_order(keys, direction, n, sorted_order(keys, direction, n)),
    decreases n,
{
    if n > 0 {
        law_sorted_order_is_stable(keys, direction, n - 1);
        let before = sorted_order(keys, direction, n - 1);
        let key = keys[n - 1];
        let at = insert_position(keys, before, key, direction, 0);
        let order = before.insert(at, (n - 1) as usize);
        lemma_insert_position(keys, before, key, direction, 0);
        assert forall|a: int| 0 <= a < order.len() implies 0 <= #[trigger] order[a] < n by {
            if a < at {
                assert(order[a] == before[a]);
            } else if a > at {
                assert(order[a] == before[a - 1]);
            }
        }
        assert forall|a: int, b: int| 0 <= a < b < order.len() implies #[trigger] order[a]
            != #[trigger] order[b] by {
            let x = if a < at { a } else { a - 1 };
            let y = if b < at { b } else { b - 1 };
            if a != at && b != at {
                assert(order[a] == before[x] && order[b] == before[y]);
                assert(before[x] != before[y]);
            } else if a == at {
                assert(order[b] == before[y]);
                assert(before[y] < n - 1);
            } else {
                assert(order[a] == before[x]);
                assert(before[x] < n - 1);
            }
        }
        assert forall|a: int, b: int| 0 <= a < b < order.len() implies !goes_before(
            keys[#[trigger] order[b] as int],
            keys[#[trigger] order[a] as int],
            direction,
        ) && (goes_before(keys[order[a] as int], keys[order[b] as int], direction) || order[a]
            < order[b]) by {
            let x = if a < at { a } else { a - 1 };
            let y = if b < at { b } else { b - 1 };
            if a != at && b != at {
                assert(order[a] == before[x] && order[b] == before[y]);
                assert(!goes_before(keys[before[y] as int], keys[before[x] as int], direction));
            } else if a == at {
                assert(order[b] == before[y]);
                let first = keys[before[at] as int];
                let other = keys[before[y] as int];
                assert(goes_before(key, first, direction));
                if y > at {
                    assert(!goes_before(other, first, direction));
                }
                match direction {
                    Order::Asc => {
                        if y > at {
                            lemma_key_before_chain(key, first, other);
                        }
                        lemma_key_before_asymmetric(key, other);
                    },
                    Order::Desc => {
                        if y > at {
                            lemma_key_after_chain(other, first, key);
                        }
                        lemma_key_before_asymmetric(key, other);
                    },
                }
            } else {
                assert(order[a] == before[x]);
                assert(!goes_before(key, keys[before[x] as int], direction));
                assert(before[x] < n - 1);
            }
        }
    }
}

/// Whether the key `a` goes before the key `b`.
pub fn key_goes_before(a: &Vec<u128>, b: &Vec<u128>, direction: Order) -> (before: bool)
    ensures
        before == goes_before(a@, b@, direction),
{
    let (first, second) = match direction {
        Order::Asc => (a, b),
        Order::Desc => (b, a),
    };
    let mut i: usize = 0;
    assert(first@.skip(0) =~= first@);
    assert(second@.skip(0) =~= second@);
    while i < first.len() && i < second.len()
        invariant
            i <= first.len(),
            i <= second.len(),
            goes_before(a@, b@, direction) == key_before(first@, second@),
            key_before(first@, second@) == key_before(first@.skip(i as int), second@.skip(i as int)),
        decreases first.len() - i,
    {
        let ghost x = first@.skip(i as int);
        let ghost y = second@.skip(i as int);
        assert(x[0] == first@[i as int] && y[0] == second@[i as int]);
        assert(x.drop_first() =~= first@.skip(i + 1));
        assert(y.drop_first() =~= second@.skip(i + 1));
        if first[i] != second[i] {
            return first[i] < second[i];
        }
        i = i + 1;
    }
    i < second.len()
}

/// The keys as sequences.
pub open spec fn key_views(keys: Seq<Vec<u128>>) -> Seq<Seq<u128>> {
    Seq::new(keys.len(), |i: int| keys[i]@)
}

/// The places of the rows in sorted order, given the sort key of each row.
pub fn sort_order(keys: &Vec<Vec<u128>>, direction: Order) -> (order: Vec<usize>)
    ensures
        order@ == sorted_order(key_views(keys@), direction, keys@.len() as int),
        is_stable_order(key_views(keys@), direction, keys@.len() as int, order@),
{
    let ghost views = key_views(keys@);
    let mut order: Vec<usize> = Vec::new();
    let mut i: usize = 0;
    while i < keys.len()
        invariant
            i <= keys.len(),
            views == key_views(keys@),
            order@ == sorted_order(views, direction, i as int),
            order@.len() == i,
            forall|a: int| 0 <= a < order@.len() ==> #[trigger] order@[a] < keys.len(),
        decreases keys.len() - i,
    {
        let mut at: usize = 0;
        while at < order.len() && !key_goes_before(&keys[i], &keys[order[at]], direction)
            invariant
                at <= order.len(),
                i < keys.len(),
                views == key_views(keys@),
                forall|a: int| 0 <= a < order@.len() ==> #[trigger] order@[a] < keys.len(),
                forall|a: int|
                    0 <= a < at ==> !goes_before(
                        views[i as int],
                        views[#[trigger] order@[a] as int],
                        direction,
                    ),
            decreases order.len() - at,
        {
            at = at + 1;
        }
        proof {
            lemma_insert_position_is(views, order@, views[i as int], direction, 0, at as int);
        }
        let ghost before = order@;
        order.insert(at, i);
        proof {
            assert forall|a: int| 0 <= a < order@.len() implies #[trigger] order@[a]
                < keys.len() by {
                if a < at {
                    assert(order@[a] == before[a]);
                } else if a > at {
                    assert(order@[a] == before[a - 1]);
                }
            }
        }
        i = i + 1;
    }
    proof {
        law_sorted_order_is_stable(views, direction, keys@.len() as int);
    }
    order
}

/// The sort key of a number: smaller numbers have smaller keys.
pub open spec fn number_key(value: i64) -> Seq<u128> {
    seq![(value + 0x8000_0000_0000_0000) as u128]
}

/// The sort key of an identifier.
pub open spec fn id_key(value: u128) -> Seq<u128> {
    seq![value]
}

/// The sort key of a text: its characters, so that texts sort as in a
/// dictionary of their code points.
pub open spec fn text_key(value: Seq<char>) -> Seq<u128> {
    Seq::new(value.len(), |i: int| value[i] as u128)
}

/// The sort key of a number.
pub fn key_of_number(value: i64) -> (key: Vec<u128>)
    ensures
        key@ == number_key(value),
{
    let mut key: Vec<u128> = Vec::new();
    key.push((value as i128 + 0x8000_0000_0000_0000i128) as u128);
    assert(key@ =~= number_key(value));
    key
}

/// The sort key of an identifier.
pub fn key_of_id(value: u128) -> (key: Vec<u128>)
    ensures
        key@ == id_key(value),
{
    let mut key: Vec<u128> = Vec::new();
    key.push(value);
    assert(key@ =~= id_key(value));
    key
}

/// The sort key of a text.
pub fn key_of_text(value: &str) -> (key: Vec<u128>)
    ensures
        key@ == text_key(value@),
{
    let n: usize = value.unicode_len();
    let mut key: Vec<u128> = Vec::new();
    let mut i: usize = 0;
    while i < n
        invariant
            i <= n,
            n == value@.len(),
            key@ == text_key(value@).take(i as int),
        decreases n - i,
    {
        key.push(value.get_char(i) as u128);
        assert(key@ =~= text_key(value@).take(i + 1));
        i = i + 1;
    }
    assert(text_key(value@).take(n as int) =~= text_key(value@));
    key
}

/// Smaller numbers have smaller keys.
pub proof fn law_number_keys_follow_numbers(a: i64, b: i64)
    ensures
        key_before(number_key(a), number_key(b)) <==> a < b,
{
    let x = number_key(a);
    let y = number_key(b);
    assert(x.len() == 1 && y.len() == 1);
    assert(x.drop_first().len() == 0);
    assert(y.drop_first().len() == 0);
    assert(!key_before(x.drop_first(), y.drop_first()));
}

} // verus!
