use vstd::prelude::*;
use crate::model::{Humidity, Location, Measurement, MeasurementRecord, Row, Temperature};
use crate::clock::utc_now_millis;
use crate::model::lemma_location_round_trip;

verus! {

/// The measurement as it is answered once accepted at `now`.
pub open spec fn stamped(measurement: Measurement, now: i64) -> Measurement {
    Measurement {
        temperature: measurement.temperature,
        humidity: measurement.humidity,
        location: measurement.location,
        timestamp: Some(now),
    }
}

/// The row written for `measurement` accepted at `now`.
pub open spec fn row_of(measurement: Measurement, now: i64) -> Row {
    Row {
        temperature: measurement.temperature.value,
        humidity: measurement.humidity.value,
        location: measurement.location.name(),
        timestamp: now,
    }
}

/// Accepts a reading at the instant `now`: returns it with `now` as its
/// timestamp, whatever timestamp it came with, and the one row to store.
pub fn push_meteo_data_at(measurement: Measurement, now: i64) -> (accepted: (
    Measurement,
    MeasurementRecord,
))
    ensures
        accepted.0 == stamped(measurement, now),
        accepted.1@ == row_of(measurement, now),
{
    let row = MeasurementRecord {
        temperature: measurement.temperature.value,
        humidity: measurement.humidity.value,
        location: measurement.location.to_string(),
        timestamp: now,
    };
    let answer = Measurement {
        temperature: measurement.temperature,
        humidity: measurement.humidity,
        location: measurement.location,
        timestamp: Some(now),
    };
    (answer, row)
}

/// Accepts a reading at the current instant of the UTC clock.
pub fn push_meteo_data(measurement: Measurement) -> (accepted: (Measurement, MeasurementRecord))
    ensures
        accepted.0.timestamp matches Some(now) && now >= 0 && accepted.0 == stamped(
            measurement,
            now,
        ) && accepted.1@ == row_of(measurement, now),
{
    let now = utc_now_millis();
    push_meteo_data_at(measurement, now)
}

/// The reading that a sensor sends, with its location read from `location`.
pub open spec fn reading_of(
    temperature: Temperature,
    humidity: Humidity,
    location: Location,
) -> Measurement {
    Measurement { temperature, humidity, location, timestamp: None }
}

/// Accepts, at the instant `now`, a reading whose location arrives as text.
/// A text that names no location is refused: there is no answer and no row
/// to store.
pub fn push_meteo_text_at(
    temperature: Temperature,
    humidity: Humidity,
    location: &str,
    now: i64,
) -> (accepted: Option<(Measurement, MeasurementRecord)>)
    ensures
        match Location::parsed(location@) {
            Some(place) => accepted matches Some(pair) && pair.0 == stamped(
                reading_of(temperature, humidity, place),
                now,
            ) && pair.1@ == row_of(reading_of(temperature, humidity, place), now),
            None => accepted is None,
        },
{
    match Location::parse(location) {
        Some(place) => Some(
            push_meteo_data_at(
                Measurement { temperature, humidity, location: place, timestamp: None },
                now,
            ),
        ),
        None => None,
    }
}

/// Accepts, at the current instant of the UTC clock, a reading whose
/// location arrives as text.
pub fn push_meteo_text(temperature: Temperature, humidity: Humidity, location: &str) -> (accepted:
    Option<(Measurement, MeasurementRecord)>)
    ensures
        match Location::parsed(location@) {
            Some(place) => accepted matches Some(pair) && pair.0.timestamp matches Some(now) && now
                >= 0 && pair.0 == stamped(reading_of(temperature, humidity, place), now) && pair.1@
                == row_of(reading_of(temperature, humidity, place), now),
            None => accepted is None,
        },
{
    match Location::parse(location) {
        Some(place) => Some(
            push_meteo_data(
                Measurement { temperature, humidity, location: place, timestamp: None },
            ),
        ),
        None => None,
    }
}

/// No accepted reading is stored under a text that names no location.
pub proof fn lemma_stored_location_is_named(measurement: Measurement, now: i64, text: Seq<char>)
    requires
        Location::parsed(text) is None,
    ensures
        row_of(measurement, now).location != text,
        Location::parsed(row_of(measurement, now).location) == Some(measurement.location),
{
    lemma_location_round_trip(measurement.location, text);
}

/// The timestamp that a reading arrives with has no effect: two readings that
/// differ in it alone are answered alike.
pub proof fn lemma_timestamp_overridden(first: Measurement, second: Measurement, now: i64)
    requires
        first.temperature == second.temperature,
        first.humidity == second.humidity,
        first.location == second.location,
    ensures
        stamped(first, now) == stamped(second, now),
        stamped(first, now).timestamp == Some(now),
        row_of(first, now) == row_of(second, now),
        row_of(first, now).timestamp == now,
{
}

} // verus!
