use vstd::prelude::*;
use crate::listing::recent_rows;
use crate::model::{
    in_window, is_recent, rank_of, rows_of, sample_rank, summaries_of, Averages, CurrentReading,
    LocationStats, LocationWindow, MeasurementRecord, Row, StatsReport, Summary, WindowSummary,
};

verus! {

/// Whether a row belongs to the window group of `location`.
pub open spec fn in_group(row: Row, location: Seq<char>, now: i64) -> bool {
    row.location == location && in_window(row.timestamp, now)
}

/// The temperatures of the window group of `location`, in stored order.
pub open spec fn window_temperatures(
    rows: Seq<Row>,
    location: Seq<char>,
    now: i64,
) -> Seq<u32>
    decreases rows.len(),
{
    if rows.len() == 0 {
        Seq::empty()
    } else {
        let earlier = window_temperatures(rows.drop_last(), location, now);
        if in_group(rows.last(), location, now) {
            earlier.push(rows.last().temperature)
        } else {
            earlier
        }
    }
}

/// The humidities of the window group of `location`, in stored order.
pub open spec fn window_humidities(
    rows: Seq<Row>,
    location: Seq<char>,
    now: i64,
) -> Seq<u32>
    decreases rows.len(),
{
    if rows.len() == 0 {
        Seq::empty()
    } else {
        let earlier = window_humidities(rows.drop_last(), location, now);
        if in_group(rows.last(), location, now) {
            earlier.push(rows.last().humidity)
        } else {
            earlier
        }
    }
}

/// The latest row of `location`, over all stored rows; of several rows at
/// the latest instant, the one stored first.
pub open spec fn latest(rows: Seq<Row>, location: Seq<char>) -> Option<Row>
    decreases rows.len(),
{
    if rows.len() == 0 {
        None
    } else {
        let earlier = latest(rows.drop_last(), location);
        let row = rows.last();
        if row.location != location {
            earlier
        } else {
            match earlier {
                Some(best) => if best.timestamp >= row.timestamp {
                    earlier
                } else {
                    Some(row)
                },
                None => Some(row),
            }
        }
    }
}

/// The sample of least rank; of several, the first.
pub open spec fn lowest(samples: Seq<u32>) -> Option<u32>
    decreases samples.len(),
{
    if samples.len() == 0 {
        None
    } else {
        match lowest(samples.drop_last()) {
            Some(least) => if sample_rank(samples.last()) < sample_rank(least) {
                Some(samples.last())
            } else {
                Some(least)
            },
            None => Some(samples.last()),
        }
    }
}

/// The sample of greatest rank; of several, the first.
pub open spec fn highest(samples: Seq<u32>) -> Option<u32>
    decreases samples.len(),
{
    if samples.len() == 0 {
        None
    } else {
        match highest(samples.drop_last()) {
            Some(most) => if sample_rank(samples.last()) > sample_rank(most) {
                Some(samples.last())
            } else {
                Some(most)
            },
            None => Some(samples.last()),
        }
    }
}

pub open spec fn temperature_of(row: Option<Row>) -> Option<u32> {
    match row {
        Some(row) => Some(row.temperature),
        None => None,
    }
}

pub open spec fn humidity_of(row: Option<Row>) -> Option<u32> {
    match row {
        Some(row) => Some(row.humidity),
        None => None,
    }
}

/// What `rows` say of `location`: its current reading and its window.
pub open spec fn summary_of(rows: Seq<Row>, location: Seq<char>, now: i64) -> Summary {
    let temperatures = window_temperatures(rows, location, now);
    Summary {
        location,
        current_temperature: temperature_of(latest(rows, location)),
        current_humidity: humidity_of(latest(rows, location)),
        min_temperature: lowest(temperatures),
        max_temperature: highest(temperatures),
        temperatures,
        humidities: window_humidities(rows, location, now),
    }
}

/// Whether `stats` holds the statistics of its own location over `rows`.
pub open spec fn describes(stats: Summary, rows: Seq<Row>, now: i64) -> bool {
    stats == summary_of(rows, stats.location, now)
}

/// Whether the table has an entry for `location`.
pub open spec fn lists(table: Seq<Summary>, location: Seq<char>) -> bool {
    exists|j: int| 0 <= j < table.len() && (#[trigger] table[j]).location == location
}

/// The statistics table once the first `n` rows are looked at: an entry for
/// each location that has a row inside the window among them, in the order
/// in which those rows are stored. Each entry is taken over all of `rows`.
pub open spec fn table_upto(rows: Seq<Row>, n: nat, now: i64) -> Seq<Summary>
    decreases n,
{
    if n == 0 {
        Seq::empty()
    } else {
        let table = table_upto(rows, (n - 1) as nat, now);
        let row = rows[n - 1];
        if in_window(row.timestamp, now) && !lists(table, row.location) {
            table.push(summary_of(rows, row.location, now))
        } else {
            table
        }
    }
}

/// The answer to a statistics request over `rows`.
pub open spec fn stats_table(rows: Seq<Row>, now: i64) -> Seq<Summary> {
    table_upto(rows, rows.len(), now)
}

/// Whether `table` answers a statistics request over `rows`: one entry for
/// each location that has a row inside the window, none for any other, and
/// each entry describing its location.
pub open spec fn is_stats_table(
    rows: Seq<Row>,
    now: i64,
    table: Seq<Summary>,
) -> bool {
    &&& forall|j: int|
        0 <= j < table.len() ==> describes(#[trigger] table[j], rows, now)
            && table[j].temperatures.len() > 0
    &&& forall|i: int, j: int|
        0 <= i < j < table.len() ==> (#[trigger] table[i]).location != (
        #[trigger] table[j]).location
    &&& forall|k: int|
        0 <= k < rows.len() && in_window((#[trigger] rows[k]).timestamp, now) ==> lists(
            table,
            rows[k].location,
        )
}

pub fn lowest_sample(samples: &Vec<u32>) -> (least: Option<u32>)
    ensures
        least == lowest(samples@),
{
    let mut least: Option<u32> = None;
    let mut i: usize = 0;
    while i < samples.len()
        invariant
            i <= samples.len(),
            least == lowest(samples@.take(i as int)),
        decreases samples.len() - i,
    {
        let sample = samples[i];
        proof {
            assert(samples@.take(i + 1).drop_last() == samples@.take(i as int));
            assert(samples@.take(i + 1).last() == sample);
        }
        least = match least {
            Some(so_far) => if rank_of(sample) < rank_of(so_far) {
                Some(sample)
            } else {
                Some(so_far)
            },
            None => Some(sample),
        };
        i += 1;
    }
    proof {
        assert(samples@.take(samples.len() as int) == samples@);
    }
    least
}

pub fn highest_sample(samples: &Vec<u32>) -> (most: Option<u32>)
    ensures
        most == highest(samples@),
{
    let mut most: Option<u32> = None;
    let mut i: usize = 0;
    while i < samples.len()
        invariant
            i <= samples.len(),
            most == highest(samples@.take(i as int)),
        decreases samples.len() - i,
    {
        let sample = samples[i];
        proof {
            assert(samples@.take(i + 1).drop_last() == samples@.take(i as int));
            assert(samples@.take(i + 1).last() == sample);
        }
        most = match most {
            Some(so_far) => if rank_of(sample) > rank_of(so_far) {
                Some(sample)
            } else {
                Some(so_far)
            },
            None => Some(sample),
        };
        i += 1;
    }
    proof {
        assert(samples@.take(samples.len() as int) == samples@);
    }
    most
}

/// What the rows say of one location: its current reading and its window.
pub fn location_window(rows: &Vec<MeasurementRecord>, location: &str, now: i64) -> (window:
    LocationWindow)
    ensures
        window@ == summary_of(rows_of(rows@), location@, now),
{
    let ghost place = location@;
    let wanted = location.to_owned();
    let mut temperatures: Vec<u32> = Vec::new();
    let mut humidities: Vec<u32> = Vec::new();
    let mut current: Option<(i64, u32, u32)> = None;
    let mut i: usize = 0;
    while i < rows.len()
        invariant
            i <= rows.len(),
            wanted@ == place,
            temperatures@ == window_temperatures(rows_of(rows@).take(i as int), place, now),
            humidities@ == window_humidities(rows_of(rows@).take(i as int), place, now),
            match latest(rows_of(rows@).take(i as int), place) {
                Some(row) => current == Some((row.timestamp, row.temperature, row.humidity)),
                None => current.is_none(),
            },
        decreases rows.len() - i,
    {
        let row = &rows[i];
        proof {
            assert(rows_of(rows@).take(i + 1).drop_last() == rows_of(rows@).take(i as int));
            assert(rows_of(rows@).take(i + 1).last() == row@);
        }
        if row.location == wanted {
            if is_recent(row.timestamp, now) {
                temperatures.push(row.temperature);
                humidities.push(row.humidity);
            }
            current = match current {
                Some(best) => if best.0 >= row.timestamp {
                    Some(best)
                } else {
                    Some((row.timestamp, row.temperature, row.humidity))
                },
                None => Some((row.timestamp, row.temperature, row.humidity)),
            };
        }
        i += 1;
    }
    proof {
        assert(rows_of(rows@).take(rows.len() as int) == rows_of(rows@));
    }
    let min_temperature = lowest_sample(&temperatures);
    let max_temperature = highest_sample(&temperatures);
    let (current_temperature, current_humidity) = match current {
        Some(best) => (Some(best.1), Some(best.2)),
        None => (None, None),
    };
    LocationWindow {
        location: wanted,
        current_temperature,
        current_humidity,
        min_temperature,
        max_temperature,
        temperatures,
        humidities,
    }
}

fn has_location(table: &Vec<LocationWindow>, location: &String) -> (found: bool)
    ensures
        found == lists(summaries_of(table@), location@),
{
    let mut j: usize = 0;
    while j < table.len()
        invariant
            j <= table.len(),
            forall|k: int| 0 <= k < j ==> (#[trigger] table[k]).location@ != location@,
        decreases table.len() - j,
    {
        if table[j].location == *location {
            proof {
                assert(summaries_of(table@)[j as int].location == location@);
            }
            return true;
        }
        j += 1;
    }
    false
}

/// A row of the group puts its temperature among the window temperatures.
pub proof fn lemma_group_row_counts(
    rows: Seq<Row>,
    location: Seq<char>,
    now: i64,
    k: int,
)
    requires
        0 <= k < rows.len(),
        in_group(rows[k], location, now),
    ensures
        window_temperatures(rows, location, now).len() > 0,
    decreases rows.len(),
{
    if k < rows.len() - 1 {
        assert(rows.drop_last()[k] == rows[k]);
        lemma_group_row_counts(rows.drop_last(), location, now, k);
    }
}

/// Window temperatures come from rows of the group only.
pub proof fn lemma_group_has_row(rows: Seq<Row>, location: Seq<char>, now: i64)
    requires
        window_temperatures(rows, location, now).len() > 0,
    ensures
        exists|k: int| 0 <= k < rows.len() && in_group(#[trigger] rows[k], location, now),
    decreases rows.len(),
{
    if in_group(rows.last(), location, now) {
        assert(in_group(rows[rows.len() - 1], location, now));
    } else {
        lemma_group_has_row(rows.drop_last(), location, now);
        let k = choose|k: int|
            0 <= k < rows.drop_last().len() && in_group(
                #[trigger] rows.drop_last()[k],
                location,
                now,
            );
        assert(in_group(rows[k], location, now));
    }
}

/// The statistics of the rolling window and of the current reading, joined
/// by location: one entry for each location with a row inside the window.
pub fn get_stats(rows: &Vec<MeasurementRecord>, now: i64) -> (table: Vec<LocationWindow>)
    ensures
        summaries_of(table@) == stats_table(rows_of(rows@), now),
        is_stats_table(rows_of(rows@), now, summaries_of(table@)),
{
    let ghost stored = rows_of(rows@);
    let mut table: Vec<LocationWindow> = Vec::new();
    let mut i: usize = 0;
    proof {
        assert(summaries_of(table@) =~= Seq::<Summary>::empty());
    }
    while i < rows.len()
        invariant
            i <= rows.len(),
            stored == rows_of(rows@),
            summaries_of(table@) == table_upto(stored, i as nat, now),
        decreases rows.len() - i,
    {
        let row = &rows[i];
        proof {
            assert(stored[i as int] == row@);
        }
        if is_recent(row.timestamp, now) && !has_location(&table, &row.location) {
            let window = location_window(rows, row.location.as_str(), now);
            let ghost before = table@;
            table.push(window);
            proof {
                assert(summaries_of(table@) =~= summaries_of(before).push(window@));
            }
        }
        i += 1;
    }
    proof {
        lemma_stats_table(stored, now);
    }
    table
}

/// What holds of the table at every step: each entry describes its
/// location, which has a row inside the window; no location has two
/// entries; every row inside the window that was looked at has its entry.
pub proof fn lemma_table_upto(rows: Seq<Row>, n: nat, now: i64)
    requires
        n <= rows.len(),
    ensures
        forall|j: int|
            0 <= j < table_upto(rows, n, now).len() ==> describes(
                #[trigger] table_upto(rows, n, now)[j],
                rows,
                now,
            ) && table_upto(rows, n, now)[j].temperatures.len() > 0,
        forall|i: int, j: int|
            0 <= i < j < table_upto(rows, n, now).len() ==> (#[trigger] table_upto(
                rows,
                n,
                now,
            )[i]).location != (#[trigger] table_upto(rows, n, now)[j]).location,
        forall|k: int|
            0 <= k < n && in_window((#[trigger] rows[k]).timestamp, now) ==> lists(
                table_upto(rows, n, now),
                rows[k].location,
            ),
    decreases n,
{
    if n > 0 {
        let before = table_upto(rows, (n - 1) as nat, now);
        let table = table_upto(rows, n, now);
        let row = rows[n - 1];
        lemma_table_upto(rows, (n - 1) as nat, now);
        if in_window(row.timestamp, now) && !lists(before, row.location) {
            let entry = summary_of(rows, row.location, now);
            lemma_group_row_counts(rows, row.location, now, n - 1);
            assert(table == before.push(entry));
            assert(table[before.len() as int] == entry);
            assert forall|i: int, j: int| 0 <= i < j < table.len() implies (
            #[trigger] table[i]).location != (#[trigger] table[j]).location by {
                assert(table[i] == before[i]);
                if j < before.len() {
                    assert(table[j] == before[j]);
                }
            }
            assert forall|j: int| 0 <= j < table.len() implies describes(
                #[trigger] table[j],
                rows,
                now,
            ) && table[j].temperatures.len() > 0 by {
                if j < before.len() {
                    assert(table[j] == before[j]);
                }
            }
        }
        assert forall|k: int| 0 <= k < n && in_window((#[trigger] rows[k]).timestamp, now) implies lists(
            table,
            rows[k].location,
        ) by {
            if k < n - 1 || lists(before, rows[k].location) {
                let j = choose|j: int|
                    0 <= j < before.len() && (#[trigger] before[j]).location == rows[k].location;
                assert(table[j] == before[j]);
            } else {
                assert(table[before.len() as int].location == rows[k].location);
            }
        }
    }
}

/// The answer to a statistics request is a statistics table.
pub proof fn lemma_stats_table(rows: Seq<Row>, now: i64)
    ensures
        is_stats_table(rows, now, stats_table(rows, now)),
{
    lemma_table_upto(rows, rows.len(), now);
}

/// Completes what the rows say of a location with the two averages, taken
/// over `temperatures` and `humidities`.
pub fn with_averages(
    window: LocationWindow,
    average_temperature: Option<u32>,
    average_humidity: Option<u32>,
) -> (stats: LocationStats)
    ensures
        stats.location == window.location,
        stats.current_temperature == window.current_temperature,
        stats.current_humidity == window.current_humidity,
        stats.avg_temperature_24h == average_temperature,
        stats.avg_humidity_24h == average_humidity,
        stats.min_temperature_24h == window.min_temperature,
        stats.max_temperature_24h == window.max_temperature,
{
    LocationStats {
        location: window.location,
        current_temperature: window.current_temperature,
        current_humidity: window.current_humidity,
        avg_temperature_24h: average_temperature,
        avg_humidity_24h: average_humidity,
        min_temperature_24h: window.min_temperature,
        max_temperature_24h: window.max_temperature,
    }
}

/// Puts the flat statistics of a location into the nested form of the
/// answer.
pub fn present(stats: LocationStats) -> (report: StatsReport)
    ensures
        report.location == stats.location,
        report.current == (CurrentReading {
            temperature: stats.current_temperature,
            humidity: stats.current_humidity,
        }),
        report.daily == (WindowSummary {
            average: Averages {
                temperature: stats.avg_temperature_24h,
                humidity: stats.avg_humidity_24h,
            },
            min_temperature: stats.min_temperature_24h,
            max_temperature: stats.max_temperature_24h,
        }),
{
    StatsReport {
        location: stats.location,
        current: CurrentReading {
            temperature: stats.current_temperature,
            humidity: stats.current_humidity,
        },
        daily: WindowSummary {
            average: Averages {
                temperature: stats.avg_temperature_24h,
                humidity: stats.avg_humidity_24h,
            },
            min_temperature: stats.min_temperature_24h,
            max_temperature: stats.max_temperature_24h,
        },
    }
}

/// The join: a location has an entry if and only if one of its rows lies
/// inside the window. A location whose rows are all older has none.
pub proof fn lemma_stats_join(
    rows: Seq<Row>,
    now: i64,
    table: Seq<Summary>,
    location: Seq<char>,
)
    requires
        is_stats_table(rows, now, table),
    ensures
        lists(table, location) <==> exists|k: int|
            0 <= k < rows.len() && in_group(#[trigger] rows[k], location, now),
{
    if lists(table, location) {
        let j = choose|j: int| 0 <= j < table.len() && (#[trigger] table[j]).location == location;
        assert(describes(table[j], rows, now));
        lemma_group_has_row(rows, location, now);
    }
    if exists|k: int| 0 <= k < rows.len() && in_group(#[trigger] rows[k], location, now) {
        let k = choose|k: int| 0 <= k < rows.len() && in_group(#[trigger] rows[k], location, now);
        assert(in_window(rows[k].timestamp, now));
    }
}

/// The lowest sample is one of the samples and none ranks below it; the
/// same for the highest, with none above. Both exist once there is a sample.
pub proof fn lemma_extremes(samples: Seq<u32>)
    ensures
        samples.len() > 0 <==> lowest(samples).is_some(),
        samples.len() > 0 <==> highest(samples).is_some(),
        lowest(samples) matches Some(least) ==> samples.contains(least) && forall|i: int|
            0 <= i < samples.len() ==> sample_rank(least) <= sample_rank(#[trigger] samples[i]),
        highest(samples) matches Some(most) ==> samples.contains(most) && forall|i: int|
            0 <= i < samples.len() ==> sample_rank(most) >= sample_rank(#[trigger] samples[i]),
    decreases samples.len(),
{
    if samples.len() > 0 {
        let earlier = samples.drop_last();
        lemma_extremes(earlier);
        let end = samples.len() - 1;
        assert(samples[end] == samples.last());
        assert forall|i: int| 0 <= i < earlier.len() implies earlier[i] == samples[i] by {}
        if let Some(least) = lowest(earlier) {
            let k = choose|k: int| 0 <= k < earlier.len() && earlier[k] == least;
            assert(samples[k] == least);
        }
        if let Some(most) = highest(earlier) {
            let k = choose|k: int| 0 <= k < earlier.len() && earlier[k] == most;
            assert(samples[k] == most);
        }
        let least = lowest(samples).unwrap();
        assert forall|i: int| 0 <= i < samples.len() implies sample_rank(least) <= sample_rank(
            #[trigger] samples[i],
        ) by {
            if i < end {
                assert(earlier[i] == samples[i]);
            }
        }
        let most = highest(samples).unwrap();
        assert forall|i: int| 0 <= i < samples.len() implies sample_rank(most) >= sample_rank(
            #[trigger] samples[i],
        ) by {
            if i < end {
                assert(earlier[i] == samples[i]);
            }
        }
    }
}

/// The latest row of a location is one of its rows and none of them is
/// later; it exists once the location has a row.
pub proof fn lemma_latest(rows: Seq<Row>, location: Seq<char>)
    ensures
        latest(rows, location).is_some() <==> exists|k: int|
            0 <= k < rows.len() && (#[trigger] rows[k]).location == location,
        latest(rows, location) matches Some(best) ==> rows.contains(best) && best.location
            == location && forall|k: int|
            0 <= k < rows.len() && (#[trigger] rows[k]).location == location
                ==> rows[k].timestamp <= best.timestamp,
    decreases rows.len(),
{
    if rows.len() > 0 {
        let earlier = rows.drop_last();
        lemma_latest(earlier, location);
        let end = rows.len() - 1;
        assert(rows[end] == rows.last());
        assert forall|i: int| 0 <= i < earlier.len() implies earlier[i] == rows[i] by {}
        if let Some(best) = latest(earlier, location) {
            let k = choose|k: int| 0 <= k < earlier.len() && earlier[k] == best;
            assert(rows[k] == best);
        }
        if exists|k: int| 0 <= k < earlier.len() && (#[trigger] earlier[k]).location == location {
            let k = choose|k: int|
                0 <= k < earlier.len() && (#[trigger] earlier[k]).location == location;
            assert(rows[k].location == location);
        }
        if exists|k: int| 0 <= k < rows.len() && (#[trigger] rows[k]).location == location {
            let k = choose|k: int| 0 <= k < rows.len() && (#[trigger] rows[k]).location == location;
            if k < end {
                assert(earlier[k].location == location);
            }
        }
        if let Some(best) = latest(rows, location) {
            assert forall|k: int|
                0 <= k < rows.len() && (#[trigger] rows[k]).location
                    == location implies rows[k].timestamp <= best.timestamp by {
                if k < end {
                    assert(earlier[k] == rows[k]);
                }
            }
        }
    }
}

/// The current reading of a listed location lies inside the window.
pub proof fn lemma_current_in_window(rows: Seq<Row>, location: Seq<char>, now: i64)
    requires
        window_temperatures(rows, location, now).len() > 0,
    ensures
        latest(rows, location) matches Some(best) && in_window(best.timestamp, now),
{
    lemma_group_has_row(rows, location, now);
    lemma_latest(rows, location);
    let k = choose|k: int| 0 <= k < rows.len() && in_group(#[trigger] rows[k], location, now);
    assert(rows[k].location == location);
}

/// A row older than the window changes nothing in the statistics of a
/// location that has a row inside the window.
pub proof fn lemma_stale_row_is_ignored(
    rows: Seq<Row>,
    row: Row,
    location: Seq<char>,
    now: i64,
)
    requires
        !in_window(row.timestamp, now),
    ensures
        window_temperatures(rows.push(row), location, now) == window_temperatures(
            rows,
            location,
            now,
        ),
        window_humidities(rows.push(row), location, now) == window_humidities(rows, location, now),
        window_temperatures(rows, location, now).len() > 0 ==> latest(rows.push(row), location)
            == latest(rows, location),
{
    let more = rows.push(row);
    assert(more.drop_last() == rows);
    assert(more.last() == row);
    if window_temperatures(rows, location, now).len() > 0 {
        lemma_current_in_window(rows, location, now);
    }
}

/// A row inside the window adds its samples to the window of its location
/// and to no other.
pub proof fn lemma_fresh_row_counts(
    rows: Seq<Row>,
    row: Row,
    location: Seq<char>,
    now: i64,
)
    requires
        in_window(row.timestamp, now),
    ensures
        row.location == location ==> window_temperatures(rows.push(row), location, now)
            == window_temperatures(rows, location, now).push(row.temperature),
        row.location == location ==> window_humidities(rows.push(row), location, now)
            == window_humidities(rows, location, now).push(row.humidity),
        row.location != location ==> window_temperatures(rows.push(row), location, now)
            == window_temperatures(rows, location, now),
        row.location != location ==> window_humidities(rows.push(row), location, now)
            == window_humidities(rows, location, now),
{
    let more = rows.push(row);
    assert(more.drop_last() == rows);
    assert(more.last() == row);
}

/// The rows of the window hold the window samples of every location.
pub proof fn lemma_window_rows_samples(rows: Seq<Row>, location: Seq<char>, now: i64)
    ensures
        window_temperatures(recent_rows(rows, None, now), location, now) == window_temperatures(
            rows,
            location,
            now,
        ),
        window_humidities(recent_rows(rows, None, now), location, now) == window_humidities(
            rows,
            location,
            now,
        ),
    decreases rows.len(),
{
    if rows.len() > 0 {
        let earlier = rows.drop_last();
        lemma_window_rows_samples(earlier, location, now);
        let kept = recent_rows(earlier, None, now);
        if in_window(rows.last().timestamp, now) {
            let all = kept.push(rows.last());
            assert(all.drop_last() == kept);
            assert(all.last() == rows.last());
        }
    }
}

/// The rows of the window hold the current reading of every location that
/// has a row inside the window, and no row of any other location.
pub proof fn lemma_window_rows_latest(rows: Seq<Row>, location: Seq<char>, now: i64)
    ensures
        window_temperatures(rows, location, now).len() > 0 ==> latest(
            recent_rows(rows, None, now),
            location,
        ) == latest(rows, location),
        window_temperatures(rows, location, now).len() == 0 ==> latest(
            recent_rows(rows, None, now),
            location,
        ) is None,
        window_temperatures(rows, location, now).len() == 0 ==> (latest(
            rows,
            location,
        ) matches Some(best) ==> !in_window(best.timestamp, now)),
    decreases rows.len(),
{
    if rows.len() > 0 {
        let earlier = rows.drop_last();
        let row = rows.last();
        lemma_window_rows_latest(earlier, location, now);
        let kept = recent_rows(earlier, None, now);
        if in_window(row.timestamp, now) {
            let all = kept.push(row);
            assert(all.drop_last() == kept);
            assert(all.last() == row);
        }
        if window_temperatures(earlier, location, now).len() > 0 {
            lemma_current_in_window(earlier, location, now);
        }
    }
}

/// The rows of the window that stand among the first `n` stored rows are
/// the first of the rows of the window.
pub proof fn lemma_window_rows_prefix(rows: Seq<Row>, n: nat, now: i64)
    requires
        n <= rows.len(),
    ensures
        recent_rows(rows.take(n as int), None, now).len() <= recent_rows(rows, None, now).len(),
        recent_rows(rows, None, now).take(
            recent_rows(rows.take(n as int), None, now).len() as int,
        ) == recent_rows(rows.take(n as int), None, now),
    decreases rows.len() - n,
{
    let kept = recent_rows(rows, None, now);
    if n == rows.len() {
        assert(rows.take(n as int) == rows);
        assert(kept.take(kept.len() as int) == kept);
    } else {
        lemma_window_rows_prefix(rows, n + 1, now);
        let shorter = recent_rows(rows.take(n as int), None, now);
        let longer = recent_rows(rows.take(n as int + 1), None, now);
        assert(rows.take(n as int + 1).drop_last() == rows.take(n as int));
        assert(longer.take(shorter.len() as int) =~= shorter);
        assert(kept.take(shorter.len() as int) =~= kept.take(longer.len() as int).take(
            shorter.len() as int,
        ));
    }
}

/// The table over the rows of the window, step by step, is the table over
/// all stored rows.
pub proof fn lemma_window_rows_table(rows: Seq<Row>, n: nat, now: i64)
    requires
        n <= rows.len(),
    ensures
        table_upto(rows, n, now) == table_upto(
            recent_rows(rows, None, now),
            recent_rows(rows.take(n as int), None, now).len(),
            now,
        ),
    decreases n,
{
    let kept = recent_rows(rows, None, now);
    if n == 0 {
        assert(rows.take(0).len() == 0);
    } else {
        lemma_window_rows_table(rows, (n - 1) as nat, now);
        lemma_window_rows_prefix(rows, n, now);
        let row = rows[n - 1];
        assert(rows.take(n as int).drop_last() == rows.take(n - 1));
        assert(rows.take(n as int).last() == row);
        let shorter = recent_rows(rows.take(n - 1), None, now);
        let longer = recent_rows(rows.take(n as int), None, now);
        if in_window(row.timestamp, now) {
            assert(longer == shorter.push(row));
            assert(kept.take(longer.len() as int)[shorter.len() as int] == row);
            assert(kept[longer.len() - 1] == row);
            lemma_group_row_counts(rows, row.location, now, n - 1);
            lemma_window_rows_samples(rows, row.location, now);
            lemma_window_rows_latest(rows, row.location, now);
            assert(summary_of(kept, row.location, now) == summary_of(rows, row.location, now));
        }
    }
}

/// Reading only the rows of the window changes no statistics.
pub proof fn lemma_window_rows_suffice(rows: Seq<Row>, now: i64)
    ensures
        stats_table(recent_rows(rows, None, now), now) == stats_table(rows, now),
{
    lemma_window_rows_table(rows, rows.len(), now);
    assert(rows.take(rows.len() as int) == rows);
}

} // verus!
