//! Presentation order: consumed records merged by timestamp.
//!
//! Records are stored in the order in which the queue held them, which
//! interleaves the producers as they happened to submit. For presentation
//! the records are put in the order of their timestamps; records with equal
//! timestamps stay in stored order. Since the timestamps of one producer
//! never go down, each producer's records stay in their own order.

use crate::envelope::Envelope;
use vstd::prelude::*;

verus! {

/// Whether record `i` is presented before record `j`: it is older, or as
/// old and stored earlier.
pub open spec fn presented_before(records: Seq<Envelope>, i: int, j: int) -> bool {
    records[i].timestamp < records[j].timestamp || (records[i].timestamp == records[j].timestamp
        && i < j)
}

/// Whether `order` is the presentation order of `records`: it lists the
/// positions of the records, each one once (`place` says where), the older
/// before the younger and equally old ones as they were stored.
pub open spec fn is_presentation_order(
    records: Seq<Envelope>,
    order: Seq<int>,
    place: Seq<int>,
) -> bool {
    &&& order.len() == records.len()
    &&& place.len() == records.len()
    &&& forall|x: int| 0 <= x < order.len() ==> 0 <= #[trigger] order[x] < records.len()
    &&& forall|i: int|
        0 <= i < place.len() ==> 0 <= #[trigger] place[i] < order.len() && order[place[i]] == i
    &&& forall|x: int, y: int|
        0 <= x < y < order.len() ==> presented_before(
            records,
            #[trigger] order[x],
            #[trigger] order[y],
        )
}

/// `records` in the given order.
pub open spec fn presented(records: Seq<Envelope>, order: Seq<int>) -> Seq<Envelope> {
    Seq::new(order.len(), |x: int| records[order[x]])
}

/// Puts `records` in presentation order: by timestamp, equally old records
/// in stored order.
pub fn merge_by_timestamp(records: &Vec<Envelope>) -> (out: Vec<Envelope>)
    ensures
        exists|order: Seq<int>, place: Seq<int>|
            #![trigger is_presentation_order(records@, order, place)]
            is_presentation_order(records@, order, place) && out@ == presented(records@, order),
{
    let mut out: Vec<Envelope> = Vec::new();
    let ghost mut order: Seq<int> = Seq::empty();
    let ghost mut place: Seq<int> = Seq::empty();
    let n: usize = records.len();
    let mut k: usize = 0;
    proof {
        assert(out@ =~= presented(records@.take(0), order));
    }
    while k < n
        invariant
            k <= n,
            n == records@.len(),
            is_presentation_order(records@.take(k as int), order, place),
            out@ == presented(records@.take(k as int), order),
        decreases n - k,
    {
        let record = records[k];
        let ghost so_far = records@.take(k as int);
        let ghost next = records@.take(k + 1);
        let mut p: usize = out.len();
        while p > 0 && out[p - 1].timestamp > record.timestamp
            invariant
                p <= out@.len(),
                out@.len() == k,
                k < n,
                n == records@.len(),
                record == records@[k as int],
                so_far == records@.take(k as int),
                is_presentation_order(so_far, order, place),
                out@ == presented(so_far, order),
                forall|x: int| p <= x < out@.len() ==> out@[x].timestamp > record.timestamp,
            decreases p,
        {
            p -= 1;
        }
        let ghost before = out@;
        assert(p > 0 ==> before[p - 1].timestamp <= record.timestamp);
        out.insert(p, record);
        proof {
            let old_order = order;
            let old_place = place;
            order = old_order.insert(p as int, k as int);
            place = Seq::new(
                k as nat,
                |i: int|
                    if old_place[i] < p {
                        old_place[i]
                    } else {
                        old_place[i] + 1
                    },
            ).push(p as int);
            assert forall|x: int| 0 <= x < order.len() implies 0 <= #[trigger] order[x]
                < next.len() by {
                if x < p {
                    assert(order[x] == old_order[x]);
                } else if x > p {
                    assert(order[x] == old_order[x - 1]);
                }
            }
            assert forall|i: int| 0 <= i < place.len() implies 0 <= #[trigger] place[i]
                < order.len() && order[place[i]] == i by {
                if i < k {
                    assert(old_order[old_place[i]] == i);
                }
            }
            assert forall|x: int, y: int| 0 <= x < y < order.len() implies presented_before(
                next,
                #[trigger] order[x],
                #[trigger] order[y],
            ) by {
                let ox = if x < p {
                    x
                } else {
                    x - 1
                };
                let oy = if y < p {
                    y
                } else {
                    y - 1
                };
                if x != p && y != p {
                    assert(order[x] == old_order[ox]);
                    assert(order[y] == old_order[oy]);
                    assert(presented_before(so_far, old_order[ox], old_order[oy]));
                    assert(so_far[old_order[ox]] == next[old_order[ox]]);
                    assert(so_far[old_order[oy]] == next[old_order[oy]]);
                } else if x == p {
                    // Behind the new record stand only younger ones.
                    assert(order[y] == old_order[oy]);
                    assert(before[oy].timestamp > record.timestamp);
                    assert(so_far[old_order[oy]] == next[old_order[oy]]);
                } else {
                    // Before the new record stand none that are younger.
                    assert(order[x] == old_order[ox]);
                    assert(0 <= old_order[ox] < k);
                    assert(so_far[old_order[ox]] == next[old_order[ox]]);
                    if p > 0 {
                        assert(before[p - 1].timestamp <= record.timestamp);
                        if ox < p - 1 {
                            assert(presented_before(so_far, old_order[ox], old_order[p - 1]));
                        }
                    }
                }
            }
            assert(out@ =~= presented(next, order)) by {
                assert forall|x: int| 0 <= x < out@.len() implies out@[x] == presented(
                    next,
                    order,
                )[x] by {
                    if x < p {
                        assert(order[x] == old_order[x]);
                        assert(so_far[old_order[x]] == next[old_order[x]]);
                    } else if x > p {
                        assert(order[x] == old_order[x - 1]);
                        assert(so_far[old_order[x - 1]] == next[old_order[x - 1]]);
                    }
                }
            }
        }
        k += 1;
    }
    proof {
        assert(records@.take(n as int) =~= records@);
    }
    out
}

/// Presentation keeps the order of records whose timestamps do not go
/// down: of two records the one stored earlier and not younger is presented
/// earlier. So a producer whose clock never runs backwards finds its
/// records presented in the order in which it submitted them.
pub proof fn lemma_presentation_keeps_submission_order(
    records: Seq<Envelope>,
    order: Seq<int>,
    place: Seq<int>,
    i: int,
    j: int,
)
    requires
        is_presentation_order(records, order, place),
        0 <= i < j < records.len(),
        records[i].timestamp <= records[j].timestamp,
    ensures
        place[i] < place[j],
        presented(records, order)[place[i]] == records[i],
        presented(records, order)[place[j]] == records[j],
{
    let x = place[i];
    let y = place[j];
    assert(order[x] == i && order[y] == j);
    if y < x {
        assert(presented_before(records, order[y], order[x]));
    }
}

/// What is presented is sorted by timestamp.
pub proof fn lemma_presentation_is_sorted(
    records: Seq<Envelope>,
    order: Seq<int>,
    place: Seq<int>,
    x: int,
    y: int,
)
    requires
        is_presentation_order(records, order, place),
        0 <= x <= y < records.len(),
    ensures
        presented(records, order)[x].timestamp <= presented(records, order)[y].timestamp,
{
    if x < y {
        assert(presented_before(records, order[x], order[y]));
    }
}

/// The presentation order of records is unique: whatever lists each record
/// once, the older before the younger and equally old ones as stored, lists
/// them in the same order.
pub proof fn lemma_presentation_order_unique(
    records: Seq<Envelope>,
    order_a: Seq<int>,
    place_a: Seq<int>,
    order_b: Seq<int>,
    place_b: Seq<int>,
)
    requires
        is_presentation_order(records, order_a, place_a),
        is_presentation_order(records, order_b, place_b),
    ensures
        order_a == order_b,
    decreases records.len(),
{
    let n = records.len() as int;
    assert forall|x: int| 0 <= x < n implies order_a[x] == order_b[x] by {
        lemma_rank_of_record(records, order_a, place_a, order_a[x]);
        lemma_rank_of_record(records, order_b, place_b, order_a[x]);
        assert(place_a[order_a[x]] == x) by {
            let p = place_a[order_a[x]];
            assert(order_a[p] == order_a[x]);
            if p < x {
                assert(presented_before(records, order_a[p], order_a[x]));
            }
            if x < p {
                assert(presented_before(records, order_a[x], order_a[p]));
            }
        }
    }
    assert(order_a =~= order_b);
}

/// How many of the first `n` records are presented before record `i`.
pub open spec fn rank_among(records: Seq<Envelope>, i: int, n: int) -> int
    decreases n,
{
    if n <= 0 {
        0
    } else {
        rank_among(records, i, n - 1) + if presented_before(records, n - 1, i) {
            1int
        } else {
            0int
        }
    }
}

/// How many of the records listed in the first `m` places of `order` are
/// presented before record `i`.
pub open spec fn listed_before(records: Seq<Envelope>, order: Seq<int>, i: int, m: int) -> int
    decreases m,
{
    if m <= 0 {
        0
    } else {
        listed_before(records, order, i, m - 1) + if presented_before(records, order[m - 1], i) {
            1int
        } else {
            0int
        }
    }
}

/// In a presentation order a record stands at the place that the number of
/// records presented before it says.
pub proof fn lemma_rank_of_record(
    records: Seq<Envelope>,
    order: Seq<int>,
    place: Seq<int>,
    i: int,
)
    requires
        is_presentation_order(records, order, place),
        0 <= i < records.len(),
    ensures
        place[i] == rank_among(records, i, records.len() as int),
{
    let n = records.len() as int;
    lemma_listed_before_counts_places(records, order, place, i, n);
    lemma_listing_counts_every_record(records, order, place, i);
}

/// Among the first `m` places of a presentation order, those before the
/// place of record `i` and no others hold records presented before it.
proof fn lemma_listed_before_counts_places(
    records: Seq<Envelope>,
    order: Seq<int>,
    place: Seq<int>,
    i: int,
    m: int,
)
    requires
        is_presentation_order(records, order, place),
        0 <= i < records.len(),
        0 <= m <= records.len(),
    ensures
        listed_before(records, order, i, m) == if m <= place[i] {
            m
        } else {
            place[i]
        },
    decreases m,
{
    if m > 0 {
        lemma_listed_before_counts_places(records, order, place, i, m - 1);
        let x = m - 1;
        let p = place[i];
        assert(order[p] == i);
        if x < p {
            assert(presented_before(records, order[x], order[p]));
        } else if x > p {
            assert(presented_before(records, order[p], order[x]));
        }
    }
}

/// The sum over the places of an order, where the order lists every
/// position once, is the sum over the positions.
proof fn lemma_listing_counts_every_record(
    records: Seq<Envelope>,
    order: Seq<int>,
    place: Seq<int>,
    i: int,
)
    requires
        is_presentation_order(records, order, place),
        0 <= i < records.len(),
    ensures
        listed_before(records, order, i, records.len() as int) == rank_among(
            records,
            i,
            records.len() as int,
        ),
{
    let n = records.len() as int;
    let marks = Seq::new(n as nat, |j: int| presented_before(records, j, i));
    lemma_permuted_count(order, place, marks, n);
    lemma_count_by_positions(records, i, marks, n);
    lemma_listed_is_marked_count(records, order, place, i, marks, n);
}

/// How many of the first `n` entries of `marks` are set.
pub open spec fn count_set(marks: Seq<bool>, n: int) -> int
    decreases n,
{
    if n <= 0 {
        0
    } else {
        count_set(marks, n - 1) + if marks[n - 1] {
            1int
        } else {
            0int
        }
    }
}

proof fn lemma_count_by_positions(records: Seq<Envelope>, i: int, marks: Seq<bool>, n: int)
    requires
        0 <= n <= records.len(),
        marks.len() == records.len(),
        forall|j: int| 0 <= j < marks.len() ==> marks[j] == presented_before(records, j, i),
    ensures
        rank_among(records, i, n) == count_set(marks, n),
    decreases n,
{
    if n > 0 {
        lemma_count_by_positions(records, i, marks, n - 1);
    }
}

/// How many of the marked positions are listed in the first `m` places.
spec fn marked_listed(order: Seq<int>, marks: Seq<bool>, m: int) -> int
    decreases m,
{
    if m <= 0 {
        0
    } else {
        marked_listed(order, marks, m - 1) + if marks[order[m - 1]] {
            1int
        } else {
            0int
        }
    }
}

proof fn lemma_listed_is_marked_count(
    records: Seq<Envelope>,
    order: Seq<int>,
    place: Seq<int>,
    i: int,
    marks: Seq<bool>,
    m: int,
)
    requires
        is_presentation_order(records, order, place),
        0 <= m <= records.len(),
        marks.len() == records.len(),
        forall|j: int| 0 <= j < marks.len() ==> marks[j] == presented_before(records, j, i),
    ensures
        listed_before(records, order, i, m) == marked_listed(order, marks, m),
    decreases m,
{
    if m > 0 {
        lemma_listed_is_marked_count(records, order, place, i, marks, m - 1);
        assert(0 <= order[m - 1] < records.len());
    }
}

/// A count over a listing that names every position once is the count over
/// the positions.
proof fn lemma_permuted_count(order: Seq<int>, place: Seq<int>, marks: Seq<bool>, n: int)
    requires
        0 <= n,
        order.len() == n,
        place.len() == n,
        marks.len() == n,
        forall|x: int| 0 <= x < n ==> 0 <= #[trigger] order[x] < n,
        forall|i: int| 0 <= i < n ==> 0 <= #[trigger] place[i] < n && order[place[i]] == i,
    ensures
        marked_listed(order, marks, n) == count_set(marks, n),
    decreases n,
{
    if n > 0 {
        // Take the last position out of the listing and out of the marks.
        let last = n - 1;
        let at = place[last];
        assert forall|x: int| 0 <= x < n && x != at implies order[x] != last by {
            lemma_places_are_distinct(order, place, n, x, at);
        }
        let order2 = Seq::new((n - 1) as nat, |x: int| if x < at {
            order[x]
        } else {
            order[x + 1]
        });
        let place2 = Seq::new((n - 1) as nat, |i: int| if place[i] < at {
            place[i]
        } else {
            place[i] - 1
        });
        let marks2 = marks.take(n - 1);
        assert forall|i: int| 0 <= i < n - 1 implies 0 <= #[trigger] place2[i] < n - 1
            && order2[place2[i]] == i by {
            assert(order[place[i]] == i);
            assert(place[i] != at);
        }
        assert forall|x: int| 0 <= x < n - 1 implies 0 <= #[trigger] order2[x] < n - 1 by {
            if x < at {
                assert(order[x] != last);
            } else {
                assert(order[x + 1] != last);
            }
        }
        lemma_permuted_count(order2, place2, marks2, n - 1);
        lemma_count_set_take(marks, n - 1, n - 1);
        lemma_marked_listed_without(order, marks, order2, marks2, at, n);
    }
}

proof fn lemma_places_are_distinct(order: Seq<int>, place: Seq<int>, n: int, x: int, y: int)
    requires
        order.len() == n,
        place.len() == n,
        forall|x: int| 0 <= x < n ==> 0 <= #[trigger] order[x] < n,
        forall|i: int| 0 <= i < n ==> 0 <= #[trigger] place[i] < n && order[place[i]] == i,
        0 <= x < n,
        0 <= y < n,
        x != y,
    ensures
        order[x] != order[y],
{
    // `place` is one-to-one, since `order` undoes it; a one-to-one map of
    // 0..n into itself reaches every place, so `order` is one-to-one too.
    lemma_place_reaches_every_place(order, place, n, x);
    lemma_place_reaches_every_place(order, place, n, y);
    let i = choose|i: int| 0 <= i < n && place[i] == x;
    let j = choose|j: int| 0 <= j < n && place[j] == y;
    assert(order[x] == i);
    assert(order[y] == j);
}

/// Every place is the place of some position.
proof fn lemma_place_reaches_every_place(order: Seq<int>, place: Seq<int>, n: int, x: int)
    requires
        order.len() == n,
        place.len() == n,
        forall|x: int| 0 <= x < n ==> 0 <= #[trigger] order[x] < n,
        forall|i: int| 0 <= i < n ==> 0 <= #[trigger] place[i] < n && order[place[i]] == i,
        0 <= x < n,
    ensures
        exists|i: int| 0 <= i < n && place[i] == x,
{
    // The places taken by the positions are `n` distinct numbers below `n`.
    let taken = Set::new(|p: int| exists|i: int| 0 <= i < n && place[i] == p);
    let all = Set::new(|p: int| 0 <= p < n);
    lemma_taken_places(order, place, n, n);
    let upto = Set::new(|p: int| exists|i: int| 0 <= i < n && #[trigger] place[i] == p);
    assert(upto =~= taken);
    vstd::set_lib::lemma_int_range(0, n);
    assert(all =~= vstd::set_lib::set_int_range(0, n));
    assert(taken.subset_of(all));
    vstd::set_lib::lemma_subset_equality(taken, all);
    assert(taken.contains(x));
}

/// The places of the first `m` positions are `m` different places.
proof fn lemma_taken_places(order: Seq<int>, place: Seq<int>, n: int, m: int)
    requires
        order.len() == n,
        place.len() == n,
        forall|x: int| 0 <= x < n ==> 0 <= #[trigger] order[x] < n,
        forall|i: int| 0 <= i < n ==> 0 <= #[trigger] place[i] < n && order[place[i]] == i,
        0 <= m <= n,
    ensures
        Set::new(|p: int| exists|i: int| 0 <= i < m && #[trigger] place[i] == p).finite(),
        Set::new(|p: int| exists|i: int| 0 <= i < m && #[trigger] place[i] == p).len() == m,
    decreases m,
{
    let now = Set::new(|p: int| exists|i: int| 0 <= i < m && #[trigger] place[i] == p);
    if m == 0 {
        assert(now =~= Set::<int>::empty());
    } else {
        lemma_taken_places(order, place, n, m - 1);
        let before = Set::new(|p: int| exists|i: int| 0 <= i < m - 1 && #[trigger] place[i] == p);
        let added = place[m - 1];
        assert(!before.contains(added)) by {
            if before.contains(added) {
                let i = choose|i: int| 0 <= i < m - 1 && #[trigger] place[i] == added;
                assert(order[place[i]] == i);
                assert(order[place[m - 1]] == m - 1);
            }
        }
        assert(now =~= before.insert(added));
    }
}

proof fn lemma_count_set_take(marks: Seq<bool>, n: int, k: int)
    requires
        0 <= k <= n <= marks.len(),
    ensures
        count_set(marks.take(n), k) == count_set(marks, k),
    decreases k,
{
    if k > 0 {
        lemma_count_set_take(marks, n, k - 1);
    }
}

/// Taking the last position out of a listing takes its mark out of the
/// count.
proof fn lemma_marked_listed_without(
    order: Seq<int>,
    marks: Seq<bool>,
    order2: Seq<int>,
    marks2: Seq<bool>,
    at: int,
    n: int,
)
    requires
        n > 0,
        order.len() == n,
        marks.len() == n,
        order2.len() == n - 1,
        marks2 == marks.take(n - 1),
        0 <= at < n,
        order[at] == n - 1,
        forall|x: int| 0 <= x < n ==> 0 <= #[trigger] order[x] < n,
        forall|x: int| 0 <= x < n && x != at ==> #[trigger] order[x] != n - 1,
        forall|x: int|
            0 <= x < n - 1 ==> #[trigger] order2[x] == if x < at {
                order[x]
            } else {
                order[x + 1]
            },
    ensures
        marked_listed(order, marks, n) == marked_listed(order2, marks2, n - 1) + if marks[n
            - 1] {
            1int
        } else {
            0int
        },
{
    lemma_marked_listed_prefix(order, marks, order2, marks2, at, n, at);
    lemma_marked_listed_suffix(order, marks, order2, marks2, at, n, n);
}

proof fn lemma_marked_listed_prefix(
    order: Seq<int>,
    marks: Seq<bool>,
    order2: Seq<int>,
    marks2: Seq<bool>,
    at: int,
    n: int,
    m: int,
)
    requires
        n > 0,
        order.len() == n,
        marks.len() == n,
        order2.len() == n - 1,
        marks2 == marks.take(n - 1),
        0 <= at < n,
        0 <= m <= at,
        forall|x: int| 0 <= x < n ==> 0 <= #[trigger] order[x] < n,
        forall|x: int| 0 <= x < n && x != at ==> #[trigger] order[x] != n - 1,
        forall|x: int|
            0 <= x < n - 1 ==> #[trigger] order2[x] == if x < at {
                order[x]
            } else {
                order[x + 1]
            },
    ensures
        marked_listed(order, marks, m) == marked_listed(order2, marks2, m),
    decreases m,
{
    if m > 0 {
        lemma_marked_listed_prefix(order, marks, order2, marks2, at, n, m - 1);
        assert(order2[m - 1] == order[m - 1]);
        assert(order[m - 1] != n - 1);
    }
}

proof fn lemma_marked_listed_suffix(
    order: Seq<int>,
    marks: Seq<bool>,
    order2: Seq<int>,
    marks2: Seq<bool>,
    at: int,
    n: int,
    m: int,
)
    requires
        n > 0,
        order.len() == n,
        marks.len() == n,
        order2.len() == n - 1,
        marks2 == marks.take(n - 1),
        0 <= at < n,
        at < m <= n,
        order[at] == n - 1,
        forall|x: int| 0 <= x < n ==> 0 <= #[trigger] order[x] < n,
        forall|x: int| 0 <= x < n && x != at ==> #[trigger] order[x] != n - 1,
        forall|x: int|
            0 <= x < n - 1 ==> #[trigger] order2[x] == if x < at {
                order[x]
            } else {
                order[x + 1]
            },
    ensures
        marked_listed(order, marks, m) == marked_listed(order2, marks2, m - 1) + if marks[n
            - 1] {
            1int
        } else {
            0int
        },
    decreases m,
{
    if m == at + 1 {
        lemma_marked_listed_prefix(order, marks, order2, marks2, at, n, at);
    } else {
        lemma_marked_listed_suffix(order, marks, order2, marks2, at, n, m - 1);
        assert(order2[m - 2] == order[m - 1]);
        assert(order[m - 1] != n - 1);
    }
}

} // verus!
