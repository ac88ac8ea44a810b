use meteo_server::ingest::{push_meteo_data, push_meteo_data_at, push_meteo_text, push_meteo_text_at};
use meteo_server::listing::{get_measurements, get_measurements_by_location};
use meteo_server::model::{
    window_start, Averages, CurrentReading, Humidity, Location, Measurement, MeasurementRecord,
    Temperature, WindowSummary, WINDOW_MILLIS,
};
use meteo_server::stats::{
    get_stats, highest_sample, location_window, lowest_sample, present, with_averages,
};

const NOW: i64 = 1_700_000_000_000;
const DAY: i64 = 86_400_000;

fn reading(temperature: f32, humidity: f32, location: Location, timestamp: Option<i64>) -> Measurement {
    Measurement {
        temperature: Temperature { value: temperature.to_bits(), unit: "C".to_string() },
        humidity: Humidity { value: humidity.to_bits(), unit: "%".to_string() },
        location,
        timestamp,
    }
}

fn row(temperature: f32, humidity: f32, location: &str, timestamp: i64) -> MeasurementRecord {
    MeasurementRecord {
        temperature: temperature.to_bits(),
        humidity: humidity.to_bits(),
        location: location.to_string(),
        timestamp,
    }
}

fn average(samples: &[u32]) -> Option<u32> {
    if samples.is_empty() {
        return None;
    }
    let sum: f64 = samples.iter().map(|bits| f32::from_bits(*bits) as f64).sum();
    Some(((sum / samples.len() as f64) as f32).to_bits())
}

#[test]
fn ingest_sets_the_timestamp() {
    let (answer, stored) = push_meteo_data_at(reading(21.5, 40.0, Location::Interior, None), NOW);
    assert_eq!(answer, reading(21.5, 40.0, Location::Interior, Some(NOW)));
    assert_eq!(stored, row(21.5, 40.0, "interior", NOW));
}

#[test]
fn ingest_overrides_a_given_timestamp() {
    let backdated = reading(3.0, 80.0, Location::Exterior, Some(NOW - 400 * DAY));
    let (answer, stored) = push_meteo_data_at(backdated, NOW);
    assert_eq!(answer.timestamp, Some(NOW));
    assert_eq!(stored.timestamp, NOW);
    assert_eq!(stored.location, "exterior");
    let plain = push_meteo_data_at(reading(3.0, 80.0, Location::Exterior, None), NOW);
    assert_eq!(plain.0, answer);
    assert_eq!(plain.1, stored);
}

#[test]
fn ingest_keeps_values_and_units() {
    let (answer, stored) = push_meteo_data_at(reading(-12.25, 99.5, Location::Exterior, None), 7);
    assert_eq!(f32::from_bits(answer.temperature.value), -12.25);
    assert_eq!(answer.temperature.unit, "C");
    assert_eq!(f32::from_bits(answer.humidity.value), 99.5);
    assert_eq!(answer.humidity.unit, "%");
    assert_eq!(f32::from_bits(stored.temperature), -12.25);
    assert_eq!(f32::from_bits(stored.humidity), 99.5);
}

#[test]
fn ingest_reads_the_clock() {
    let before = chrono::Utc::now().timestamp_millis();
    let future = reading(1.0, 2.0, Location::Interior, Some(i64::MAX));
    let (answer, stored) = push_meteo_data(future);
    let after = chrono::Utc::now().timestamp_millis();
    let stamp = answer.timestamp.unwrap();
    assert!(before <= stamp && stamp <= after);
    assert!(stamp > 1_600_000_000_000);
    assert_eq!(stored.timestamp, stamp);
    assert_eq!(stored.location, "interior");
}

#[test]
fn ingest_twice_stores_two_rows() {
    let mut rows: Vec<MeasurementRecord> = Vec::new();
    for _ in 0..2 {
        let (_, stored) = push_meteo_data_at(reading(21.5, 40.0, Location::Interior, None), NOW);
        rows.push(stored);
    }
    assert_eq!(rows.len(), 2);
    let listed = get_measurements(&rows, NOW);
    assert_eq!(listed, vec![row(21.5, 40.0, "interior", NOW), row(21.5, 40.0, "interior", NOW)]);
    let table = get_stats(&rows, NOW);
    assert_eq!(table.len(), 1);
    assert_eq!(table[0].temperatures.len(), 2);
}

#[test]
fn listing_of_nothing_is_empty() {
    assert_eq!(get_measurements(&Vec::new(), NOW), Vec::new());
    assert_eq!(get_measurements_by_location(&Vec::new(), "interior", NOW), Vec::new());
    assert_eq!(get_stats(&Vec::new(), NOW), Vec::new());
}

#[test]
fn listing_drops_rows_older_than_the_window() {
    let rows = vec![
        row(10.0, 50.0, "interior", NOW - 31 * DAY),
        row(11.0, 51.0, "interior", NOW - WINDOW_MILLIS - 1),
        row(12.0, 52.0, "interior", NOW - WINDOW_MILLIS),
        row(13.0, 53.0, "exterior", NOW - DAY),
    ];
    let all = get_measurements(&rows, NOW);
    assert_eq!(all, vec![rows[2].clone(), rows[3].clone()]);
    let inside = get_measurements_by_location(&rows, "interior", NOW);
    assert_eq!(inside, vec![rows[2].clone()]);
    let outside = get_measurements_by_location(&rows, "exterior", NOW);
    assert_eq!(outside, vec![rows[3].clone()]);
}

#[test]
fn listing_is_ascending_in_time() {
    let rows = vec![
        row(3.0, 0.0, "interior", NOW - 1),
        row(1.0, 0.0, "exterior", NOW - 3),
        row(4.0, 0.0, "interior", NOW),
        row(2.0, 0.0, "interior", NOW - 2),
        row(5.0, 0.0, "exterior", NOW - 1),
    ];
    let all = get_measurements(&rows, NOW);
    let stamps: Vec<i64> = all.iter().map(|r| r.timestamp).collect();
    assert_eq!(stamps, vec![NOW - 3, NOW - 2, NOW - 1, NOW - 1, NOW]);
    assert_eq!(all[2], rows[0]);
    assert_eq!(all[3], rows[4]);
    let inside = get_measurements_by_location(&rows, "interior", NOW);
    assert_eq!(inside, vec![rows[3].clone(), rows[0].clone(), rows[2].clone()]);
}

#[test]
fn location_filter_is_literal() {
    let rows = vec![row(1.0, 2.0, "interior", NOW), row(3.0, 4.0, "exterior", NOW)];
    assert_eq!(get_measurements_by_location(&rows, "upstairs", NOW), Vec::new());
    assert_eq!(get_measurements_by_location(&rows, "Interior", NOW), Vec::new());
    assert_eq!(get_measurements_by_location(&rows, "", NOW), Vec::new());
    assert_eq!(get_measurements_by_location(&rows, "interior", NOW).len(), 1);
}

#[test]
fn location_filter_matches_any_stored_text() {
    let rows = vec![row(1.0, 2.0, "attic", NOW), row(3.0, 4.0, "exterior", NOW)];
    assert_eq!(get_measurements_by_location(&rows, "attic", NOW), vec![rows[0].clone()]);
}

#[test]
fn stats_leave_out_a_location_without_recent_rows() {
    let rows = vec![
        row(5.0, 60.0, "exterior", NOW - 45 * DAY),
        row(20.0, 40.0, "interior", NOW - DAY),
    ];
    let table = get_stats(&rows, NOW);
    assert_eq!(table.len(), 1);
    assert_eq!(table[0].location, "interior");
    assert_eq!(table[0].current_temperature, Some(20.0f32.to_bits()));
    assert_eq!(table[0].current_humidity, Some(40.0f32.to_bits()));
}

#[test]
fn stats_of_two_locations() {
    let rows = vec![
        row(20.0, 40.0, "interior", NOW - 3 * DAY),
        row(-5.0, 70.0, "exterior", NOW - 2 * DAY),
        row(22.0, 42.0, "interior", NOW - DAY),
        row(18.0, 44.0, "interior", NOW - 40 * DAY),
        row(2.5, 90.0, "exterior", NOW),
        row(-7.5, 65.0, "exterior", NOW - DAY),
    ];
    let table = get_stats(&rows, NOW);
    assert_eq!(table.len(), 2);
    let interior = &table[0];
    assert_eq!(interior.location, "interior");
    assert_eq!(interior.current_temperature, Some(22.0f32.to_bits()));
    assert_eq!(interior.current_humidity, Some(42.0f32.to_bits()));
    assert_eq!(interior.min_temperature, Some(20.0f32.to_bits()));
    assert_eq!(interior.max_temperature, Some(22.0f32.to_bits()));
    assert_eq!(interior.temperatures, vec![20.0f32.to_bits(), 22.0f32.to_bits()]);
    assert_eq!(interior.humidities, vec![40.0f32.to_bits(), 42.0f32.to_bits()]);
    assert_eq!(average(&interior.temperatures), Some(21.0f32.to_bits()));
    assert_eq!(average(&interior.humidities), Some(41.0f32.to_bits()));
    let exterior = &table[1];
    assert_eq!(exterior.location, "exterior");
    assert_eq!(exterior.current_temperature, Some(2.5f32.to_bits()));
    assert_eq!(exterior.current_humidity, Some(90.0f32.to_bits()));
    assert_eq!(exterior.min_temperature, Some((-7.5f32).to_bits()));
    assert_eq!(exterior.max_temperature, Some(2.5f32.to_bits()));
    assert_eq!(exterior.temperatures.len(), 3);
}

#[test]
fn window_of_one_location() {
    let rows = vec![
        row(20.0, 40.0, "interior", NOW - 50 * DAY),
        row(1.0, 2.0, "exterior", NOW),
    ];
    let stale = location_window(&rows, "interior", NOW);
    assert_eq!(stale.location, "interior");
    assert_eq!(stale.current_temperature, Some(20.0f32.to_bits()));
    assert_eq!(stale.min_temperature, None);
    assert_eq!(stale.max_temperature, None);
    assert_eq!(stale.temperatures, Vec::new());
    let unknown = location_window(&rows, "attic", NOW);
    assert_eq!(unknown.current_temperature, None);
    assert_eq!(unknown.current_humidity, None);
    assert_eq!(unknown.humidities, Vec::new());
}

#[test]
fn extremes_go_by_value() {
    let samples: Vec<u32> = [1.5f32, -3.0, 0.0, -0.25, 7.0, -3.0, 7.0].iter().map(|v| v.to_bits()).collect();
    assert_eq!(lowest_sample(&samples), Some((-3.0f32).to_bits()));
    assert_eq!(highest_sample(&samples), Some(7.0f32.to_bits()));
    assert_eq!(lowest_sample(&Vec::new()), None);
    assert_eq!(highest_sample(&Vec::new()), None);
    let negatives: Vec<u32> = [-1.0f32, -2.0].iter().map(|v| v.to_bits()).collect();
    assert_eq!(lowest_sample(&negatives), Some((-2.0f32).to_bits()));
    assert_eq!(highest_sample(&negatives), Some((-1.0f32).to_bits()));
}

#[test]
fn report_is_nested() {
    let rows = vec![row(20.0, 40.0, "interior", NOW - DAY), row(24.0, 50.0, "interior", NOW)];
    let mut table = get_stats(&rows, NOW);
    let window = table.remove(0);
    let mean_temperature = average(&window.temperatures);
    let mean_humidity = average(&window.humidities);
    let stats = with_averages(window, mean_temperature, mean_humidity);
    assert_eq!(stats.avg_temperature_24h, Some(22.0f32.to_bits()));
    assert_eq!(stats.avg_humidity_24h, Some(45.0f32.to_bits()));
    assert_eq!(stats.min_temperature_24h, Some(20.0f32.to_bits()));
    assert_eq!(stats.max_temperature_24h, Some(24.0f32.to_bits()));
    let report = present(stats);
    assert_eq!(report.location, "interior");
    assert_eq!(
        report.current,
        CurrentReading { temperature: Some(24.0f32.to_bits()), humidity: Some(50.0f32.to_bits()) }
    );
    assert_eq!(
        report.daily,
        WindowSummary {
            average: Averages {
                temperature: Some(22.0f32.to_bits()),
                humidity: Some(45.0f32.to_bits()),
            },
            min_temperature: Some(20.0f32.to_bits()),
            max_temperature: Some(24.0f32.to_bits()),
        }
    );
}

#[test]
fn report_keeps_missing_numbers_missing() {
    let window = location_window(&Vec::new(), "exterior", NOW);
    let report = present(with_averages(window, None, None));
    assert_eq!(report.location, "exterior");
    assert_eq!(report.current, CurrentReading { temperature: None, humidity: None });
    assert_eq!(report.daily.average, Averages { temperature: None, humidity: None });
    assert_eq!(report.daily.min_temperature, None);
    assert_eq!(report.daily.max_temperature, None);
}

#[test]
fn end_to_end() {
    let mut rows: Vec<MeasurementRecord> = Vec::new();
    let location = Location::parse("interior").unwrap();
    let before = chrono::Utc::now().timestamp_millis();
    let (answer, stored) = push_meteo_data(reading(21.5, 40.0, location, None));
    let after = chrono::Utc::now().timestamp_millis();
    let stamp = answer.timestamp.unwrap();
    assert!(before <= stamp && stamp <= after);
    rows.push(stored);

    let listed = get_measurements_by_location(&rows, "interior", after);
    assert_eq!(listed, vec![row(21.5, 40.0, "interior", stamp)]);

    let mut table = get_stats(&rows, after);
    assert_eq!(table.len(), 1);
    let window = table.remove(0);
    let mean_temperature = average(&window.temperatures);
    let mean_humidity = average(&window.humidities);
    let report = present(with_averages(window, mean_temperature, mean_humidity));
    assert_eq!(report.location, "interior");
    assert_eq!(report.current.temperature.map(f32::from_bits), Some(21.5));
    assert_eq!(report.daily.average.temperature.map(f32::from_bits), Some(21.5));
}

fn celsius(value: f32) -> Temperature {
    Temperature { value: value.to_bits(), unit: "C".to_string() }
}

fn percent(value: f32) -> Humidity {
    Humidity { value: value.to_bits(), unit: "%".to_string() }
}

#[test]
fn text_ingest_accepts_a_named_location() {
    let accepted = push_meteo_text_at(celsius(21.5), percent(40.0), "interior", NOW);
    let expected = (
        reading(21.5, 40.0, Location::Interior, Some(NOW)),
        row(21.5, 40.0, "interior", NOW),
    );
    assert_eq!(accepted, Some(expected));
    let outside = push_meteo_text_at(celsius(-3.0), percent(85.0), "exterior", NOW).unwrap();
    assert_eq!(outside.1, row(-3.0, 85.0, "exterior", NOW));
}

#[test]
fn text_ingest_refuses_an_unknown_location() {
    assert_eq!(push_meteo_text_at(celsius(21.5), percent(40.0), "upstairs", NOW), None);
    assert_eq!(push_meteo_text_at(celsius(21.5), percent(40.0), "Interior", NOW), None);
    assert_eq!(push_meteo_text(celsius(21.5), percent(40.0), "upstairs"), None);
    assert_eq!(push_meteo_text(celsius(21.5), percent(40.0), ""), None);
}

#[test]
fn text_ingest_reads_the_clock() {
    let before = chrono::Utc::now().timestamp_millis();
    let (answer, stored) = push_meteo_text(celsius(1.0), percent(2.0), "exterior").unwrap();
    let after = chrono::Utc::now().timestamp_millis();
    let stamp = answer.timestamp.unwrap();
    assert!(before <= stamp && stamp <= after);
    assert_eq!(stored, row(1.0, 2.0, "exterior", stamp));
    assert_eq!(answer, reading(1.0, 2.0, Location::Exterior, Some(stamp)));
}

#[test]
fn window_start_is_thirty_days_back() {
    assert_eq!(window_start(NOW), NOW - WINDOW_MILLIS);
    assert_eq!(window_start(0), -2_592_000_000);
    assert_eq!(window_start(i64::MIN), i64::MIN);
    assert_eq!(window_start(i64::MIN + WINDOW_MILLIS - 1), i64::MIN);
    assert_eq!(window_start(i64::MIN + WINDOW_MILLIS), i64::MIN);
    assert_eq!(window_start(i64::MAX), i64::MAX - WINDOW_MILLIS);
}

#[test]
fn rows_of_the_window_give_the_same_answers() {
    let rows = vec![
        row(20.0, 40.0, "interior", NOW - 3 * DAY),
        row(9.0, 70.0, "exterior", NOW - 60 * DAY),
        row(18.0, 44.0, "interior", NOW - 40 * DAY),
        row(2.5, 90.0, "exterior", NOW),
        row(7.0, 30.0, "attic", NOW - 31 * DAY),
        row(22.0, 42.0, "interior", NOW - DAY),
    ];
    let bounded: Vec<MeasurementRecord> =
        rows.iter().filter(|r| r.timestamp >= window_start(NOW)).cloned().collect();
    assert_eq!(bounded.len(), 3);
    assert_eq!(get_measurements(&bounded, NOW), get_measurements(&rows, NOW));
    assert_eq!(
        get_measurements_by_location(&bounded, "interior", NOW),
        get_measurements_by_location(&rows, "interior", NOW)
    );
    assert_eq!(get_stats(&bounded, NOW), get_stats(&rows, NOW));
}
