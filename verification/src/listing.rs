use vstd::prelude::*;
use vstd::seq_lib::{to_multiset_build, to_multiset_contains, to_multiset_insert};
use crate::model::{copy_record, in_window, is_recent, rows_of, Location, MeasurementRecord, Row};

verus! {

/// Whether a row belongs to a listing: it lies inside the window that ends at
/// `now` and, where a location is asked for, carries exactly that text.
pub open spec fn selected(row: Row, location: Option<Seq<char>>, now: i64) -> bool {
    &&& in_window(row.timestamp, now)
    &&& location matches Some(wanted) ==> row.location == wanted
}

/// The rows of a listing, in stored order.
pub open spec fn recent_rows(
    rows: Seq<Row>,
    location: Option<Seq<char>>,
    now: i64,
) -> Seq<Row>
    decreases rows.len(),
{
    if rows.len() == 0 {
        Seq::empty()
    } else {
        let earlier = recent_rows(rows.drop_last(), location, now);
        if selected(rows.last(), location, now) {
            earlier.push(rows.last())
        } else {
            earlier
        }
    }
}

/// Rows in ascending order of their timestamps.
pub open spec fn ascending(rows: Seq<Row>) -> bool {
    forall|i: int, j: int| 0 <= i <= j < rows.len() ==> rows[i].timestamp <= rows[j].timestamp
}

/// Where a row of time `timestamp` goes into `sorted`: behind the last row
/// that is not later than it.
pub open spec fn slot(sorted: Seq<Row>, timestamp: i64) -> int
    decreases sorted.len(),
{
    if sorted.len() == 0 {
        0
    } else if sorted.last().timestamp <= timestamp {
        sorted.len() as int
    } else {
        slot(sorted.drop_last(), timestamp)
    }
}

/// The rows in ascending order of time; rows of one instant keep the order
/// in which they are given.
pub open spec fn ordered(rows: Seq<Row>) -> Seq<Row>
    decreases rows.len(),
{
    if rows.len() == 0 {
        Seq::empty()
    } else {
        let earlier = ordered(rows.drop_last());
        earlier.insert(slot(earlier, rows.last().timestamp), rows.last())
    }
}

/// The answer to a listing of `rows`: the selected rows, oldest first.
pub open spec fn listing_of(rows: Seq<Row>, location: Option<Seq<char>>, now: i64) -> Seq<Row> {
    ordered(recent_rows(rows, location, now))
}

/// Whether `listed` answers a listing of `rows`: the selected rows, each as
/// often as it is stored, in ascending order of time.
pub open spec fn is_listing(
    rows: Seq<Row>,
    location: Option<Seq<char>>,
    now: i64,
    listed: Seq<Row>,
) -> bool {
    &&& ascending(listed)
    &&& listed.to_multiset() == recent_rows(rows, location, now).to_multiset()
}

pub open spec fn wanted_text(location: Option<&String>) -> Option<Seq<char>> {
    match location {
        Some(text) => Some(text@),
        None => None,
    }
}

fn is_selected(row: &MeasurementRecord, location: Option<&String>, now: i64) -> (yes: bool)
    ensures
        yes == selected(row@, wanted_text(location), now),
{
    if !is_recent(row.timestamp, now) {
        return false;
    }
    match location {
        Some(wanted) => row.location == *wanted,
        None => true,
    }
}

fn insertion_point(listed: &Vec<MeasurementRecord>, timestamp: i64) -> (at: usize)
    ensures
        at == slot(rows_of(listed@), timestamp),
        at <= listed.len(),
{
    let ghost all = rows_of(listed@);
    let mut at: usize = listed.len();
    proof {
        assert(all.take(at as int) == all);
    }
    while at > 0 && listed[at - 1].timestamp > timestamp
        invariant
            at <= listed.len(),
            all == rows_of(listed@),
            slot(all, timestamp) == slot(all.take(at as int), timestamp),
        decreases at,
    {
        proof {
            assert(all.take(at as int).last() == listed[at - 1]@);
            assert(all.take(at as int).drop_last() == all.take(at - 1));
        }
        at -= 1;
    }
    proof {
        if at > 0 {
            assert(all.take(at as int).last() == listed[at - 1]@);
        }
    }
    at
}

fn list_rows(rows: &Vec<MeasurementRecord>, location: Option<&String>, now: i64) -> (listed: Vec<
    MeasurementRecord,
>)
    ensures
        rows_of(listed@) == listing_of(rows_of(rows@), wanted_text(location), now),
{
    let ghost wanted = wanted_text(location);
    let ghost stored = rows_of(rows@);
    let mut listed: Vec<MeasurementRecord> = Vec::new();
    let mut i: usize = 0;
    proof {
        assert(rows_of(listed@) =~= Seq::<Row>::empty());
        assert(stored.take(0) =~= Seq::<Row>::empty());
    }
    while i < rows.len()
        invariant
            i <= rows.len(),
            wanted == wanted_text(location),
            stored == rows_of(rows@),
            rows_of(listed@) == ordered(recent_rows(stored.take(i as int), wanted, now)),
        decreases rows.len() - i,
    {
        let row = &rows[i];
        proof {
            assert(stored.take(i + 1).drop_last() == stored.take(i as int));
            assert(stored.take(i + 1).last() == row@);
        }
        if is_selected(row, location, now) {
            let at = insertion_point(&listed, row.timestamp);
            let ghost before = listed@;
            let ghost kept = recent_rows(stored.take(i as int), wanted, now);
            listed.insert(at, copy_record(row));
            proof {
                assert(rows_of(listed@) =~= rows_of(before).insert(at as int, row@));
                assert(kept.push(row@).drop_last() == kept);
                assert(kept.push(row@).last() == row@);
            }
        }
        i += 1;
    }
    proof {
        assert(stored.take(rows.len() as int) == stored);
    }
    listed
}

/// The rows of the trailing thirty days, of every location, oldest first.
/// An empty answer is an answer.
pub fn get_measurements(rows: &Vec<MeasurementRecord>, now: i64) -> (listed: Vec<MeasurementRecord>)
    ensures
        rows_of(listed@) == listing_of(rows_of(rows@), None, now),
        is_listing(rows_of(rows@), None, now, rows_of(listed@)),
{
    let listed = list_rows(rows, None, now);
    proof {
        lemma_listing_of(rows_of(rows@), None, now);
    }
    listed
}

/// The rows of the trailing thirty days whose location is exactly `location`,
/// oldest first. The text is compared as it is: one that names no location
/// selects nothing.
pub fn get_measurements_by_location(
    rows: &Vec<MeasurementRecord>,
    location: &str,
    now: i64,
) -> (listed: Vec<MeasurementRecord>)
    ensures
        rows_of(listed@) == listing_of(rows_of(rows@), Some(location@), now),
        is_listing(rows_of(rows@), Some(location@), now, rows_of(listed@)),
{
    let wanted = location.to_owned();
    let listed = list_rows(rows, Some(&wanted), now);
    proof {
        lemma_listing_of(rows_of(rows@), Some(location@), now);
    }
    listed
}

/// The rows behind `slot` are later than `timestamp`, and the row before it
/// is not; in ascending rows, no row before it is.
pub proof fn lemma_slot(sorted: Seq<Row>, timestamp: i64)
    ensures
        0 <= slot(sorted, timestamp) <= sorted.len(),
        forall|k: int|
            slot(sorted, timestamp) <= k < sorted.len() ==> (#[trigger] sorted[k]).timestamp
                > timestamp,
        slot(sorted, timestamp) > 0 ==> sorted[slot(sorted, timestamp) - 1].timestamp <= timestamp,
        ascending(sorted) ==> forall|k: int|
            0 <= k < slot(sorted, timestamp) ==> (#[trigger] sorted[k]).timestamp <= timestamp,
    decreases sorted.len(),
{
    if sorted.len() > 0 && sorted.last().timestamp > timestamp {
        let shorter = sorted.drop_last();
        lemma_slot(shorter, timestamp);
        assert forall|k: int| slot(sorted, timestamp) <= k < sorted.len() implies (
        #[trigger] sorted[k]).timestamp > timestamp by {
            if k < shorter.len() {
                assert(shorter[k] == sorted[k]);
            }
        }
        if slot(sorted, timestamp) > 0 {
            assert(shorter[slot(sorted, timestamp) - 1] == sorted[slot(sorted, timestamp) - 1]);
        }
    }
    if ascending(sorted) && slot(sorted, timestamp) > 0 {
        let edge = slot(sorted, timestamp) - 1;
        assert forall|k: int| 0 <= k < slot(sorted, timestamp) implies (
        #[trigger] sorted[k]).timestamp <= timestamp by {
            assert(sorted[k].timestamp <= sorted[edge].timestamp);
        }
    }
}

/// Ordering keeps every row, each as often as it is given, and puts them in
/// ascending order of time.
pub proof fn lemma_ordered(rows: Seq<Row>)
    ensures
        ascending(ordered(rows)),
        ordered(rows).to_multiset() == rows.to_multiset(),
        ordered(rows).len() == rows.len(),
    decreases rows.len(),
{
    if rows.len() == 0 {
        assert(rows =~= Seq::<Row>::empty());
    } else {
        let row = rows.last();
        let earlier = ordered(rows.drop_last());
        lemma_ordered(rows.drop_last());
        lemma_slot(earlier, row.timestamp);
        let at = slot(earlier, row.timestamp);
        let all = earlier.insert(at, row);
        to_multiset_insert(earlier, at, row);
        to_multiset_build(rows.drop_last(), row);
        assert(rows.drop_last().push(row) =~= rows);
        assert forall|i: int, j: int| 0 <= i <= j < all.len() implies all[i].timestamp
            <= all[j].timestamp by {
            if i < at {
                assert(all[i] == earlier[i]);
            } else if i > at {
                assert(all[i] == earlier[i - 1]);
            }
            if j < at {
                assert(all[j] == earlier[j]);
            } else if j > at {
                assert(all[j] == earlier[j - 1]);
            }
        }
    }
}

/// The answer to a listing is a listing: ascending in time, and made of the
/// selected rows, each as often as it is stored.
pub proof fn lemma_listing_of(rows: Seq<Row>, location: Option<Seq<char>>, now: i64)
    ensures
        is_listing(rows, location, now, listing_of(rows, location, now)),
        listing_of(rows, location, now).len() == recent_rows(rows, location, now).len(),
{
    lemma_ordered(recent_rows(rows, location, now));
}

/// The rows that `recent_rows` keeps are the stored rows that are selected.
pub proof fn lemma_recent_rows_members(
    rows: Seq<Row>,
    location: Option<Seq<char>>,
    now: i64,
    row: Row,
)
    ensures
        recent_rows(rows, location, now).contains(row) <==> rows.contains(row) && selected(
            row,
            location,
            now,
        ),
    decreases rows.len(),
{
    if rows.len() > 0 {
        let earlier = rows.drop_last();
        lemma_recent_rows_members(earlier, location, now, row);
        let kept = recent_rows(earlier, location, now);
        assert(rows =~= earlier.push(rows.last()));
        if rows.contains(row) {
            let k = choose|k: int| 0 <= k < rows.len() && rows[k] == row;
            if k < earlier.len() {
                assert(earlier[k] == row);
            }
        }
        if earlier.contains(row) {
            let k = choose|k: int| 0 <= k < earlier.len() && earlier[k] == row;
            assert(rows[k] == row);
        }
        assert(rows[rows.len() - 1] == rows.last());
        if selected(rows.last(), location, now) {
            let all = kept.push(rows.last());
            assert(all[all.len() - 1] == rows.last());
            if kept.contains(row) {
                let k = choose|k: int| 0 <= k < kept.len() && kept[k] == row;
                assert(all[k] == row);
            }
            if all.contains(row) {
                let k = choose|k: int| 0 <= k < all.len() && all[k] == row;
                if k < kept.len() {
                    assert(kept[k] == row);
                }
            }
        }
    }
}

/// Window correctness of a listing: a row is listed if and only if it is
/// stored, lies inside the window and, where a location is asked for,
/// carries that location.
pub proof fn lemma_listing_members(
    rows: Seq<Row>,
    location: Option<Seq<char>>,
    now: i64,
    listed: Seq<Row>,
    row: Row,
)
    requires
        is_listing(rows, location, now, listed),
    ensures
        listed.contains(row) <==> rows.contains(row) && selected(row, location, now),
{
    lemma_recent_rows_members(rows, location, now, row);
    to_multiset_contains(listed, row);
    to_multiset_contains(recent_rows(rows, location, now), row);
}

/// A listing by a text that names no location is empty, as long as every
/// stored row carries the name of a location.
pub proof fn lemma_unknown_location_lists_nothing(
    rows: Seq<Row>,
    location: Seq<char>,
    now: i64,
    listed: Seq<Row>,
)
    requires
        is_listing(rows, Some(location), now, listed),
        Location::parsed(location).is_none(),
        forall|k: int|
            0 <= k < rows.len() ==> Location::parsed(#[trigger] rows[k].location).is_some(),
    ensures
        listed.len() == 0,
{
    if listed.len() > 0 {
        let row = listed[0];
        assert(listed.contains(row));
        lemma_listing_members(rows, Some(location), now, listed, row);
        let k = choose|k: int| 0 <= k < rows.len() && rows[k] == row;
        assert(Location::parsed(rows[k].location).is_some());
    }
}

/// Storing one more row adds it to a listing if it is selected, and changes
/// nothing if it is not: a row older than the window is never listed.
pub proof fn lemma_stored_row_listed(
    rows: Seq<Row>,
    row: Row,
    location: Option<Seq<char>>,
    now: i64,
)
    ensures
        selected(row, location, now) ==> recent_rows(rows.push(row), location, now) == recent_rows(
            rows,
            location,
            now,
        ).push(row),
        !selected(row, location, now) ==> recent_rows(rows.push(row), location, now)
            == recent_rows(rows, location, now),
{
    let more = rows.push(row);
    assert(more.drop_last() == rows);
    assert(more.last() == row);
}

/// Reading only the rows of the window changes no listing.
pub proof fn lemma_window_rows_list_the_same(
    rows: Seq<Row>,
    location: Option<Seq<char>>,
    now: i64,
)
    ensures
        recent_rows(recent_rows(rows, None, now), location, now) == recent_rows(
            rows,
            location,
            now,
        ),
        listing_of(recent_rows(rows, None, now), location, now) == listing_of(rows, location, now),
    decreases rows.len(),
{
    if rows.len() > 0 {
        let earlier = rows.drop_last();
        lemma_window_rows_list_the_same(earlier, location, now);
        let kept = recent_rows(earlier, None, now);
        if in_window(rows.last().timestamp, now) {
            let all = kept.push(rows.last());
            assert(all.drop_last() == kept);
            assert(all.last() == rows.last());
        }
    }
}

/// Storing the same row twice stores two rows: both are listed while they
/// lie inside the window.
pub proof fn lemma_repeated_row_listed_twice(
    rows: Seq<Row>,
    row: Row,
    now: i64,
)
    requires
        in_window(row.timestamp, now),
    ensures
        rows.push(row).push(row).len() == rows.len() + 2,
        recent_rows(rows.push(row).push(row), None, now) == recent_rows(rows, None, now).push(
            row,
        ).push(row),
{
    let once = rows.push(row);
    let twice = once.push(row);
    assert(twice.drop_last() == once);
    assert(once.drop_last() == rows);
    assert(selected(row, None, now));
    assert(once.last() == row && twice.last() == row);
    assert(recent_rows(once, None, now) == recent_rows(rows, None, now).push(row));
    assert(recent_rows(twice, None, now) == recent_rows(once, None, now).push(row));
}

} // verus!
