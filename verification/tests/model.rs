use meteo_server::error::ApiError;
use meteo_server::model::{is_recent, rank_of, Location, WINDOW_MILLIS};

#[test]
fn location_names_are_lower_case() {
    assert_eq!(Location::Interior.to_string(), "interior");
    assert_eq!(Location::Exterior.to_string(), "exterior");
}

#[test]
fn location_parse_accepts_the_two_names() {
    assert_eq!(Location::parse("interior"), Some(Location::Interior));
    assert_eq!(Location::parse("exterior"), Some(Location::Exterior));
}

#[test]
fn location_parse_rejects_anything_else() {
    assert_eq!(Location::parse("upstairs"), None);
    assert_eq!(Location::parse("Interior"), None);
    assert_eq!(Location::parse("interior "), None);
    assert_eq!(Location::parse(""), None);
}

#[test]
fn location_round_trip() {
    for location in [Location::Interior, Location::Exterior] {
        assert_eq!(Location::parse(&location.to_string()), Some(location));
    }
}

#[test]
fn window_is_thirty_days() {
    assert_eq!(WINDOW_MILLIS, 30 * 24 * 60 * 60 * 1000);
}

#[test]
fn window_edge_is_inside() {
    let now: i64 = 1_700_000_000_000;
    assert!(is_recent(now, now));
    assert!(is_recent(now - WINDOW_MILLIS, now));
    assert!(!is_recent(now - WINDOW_MILLIS - 1, now));
    assert!(is_recent(now + 1, now));
}

#[test]
fn window_at_the_ends_of_the_range() {
    assert!(is_recent(i64::MIN, i64::MIN));
    assert!(is_recent(i64::MIN, i64::MIN + WINDOW_MILLIS));
    assert!(!is_recent(i64::MIN, i64::MIN + WINDOW_MILLIS + 1));
    assert!(!is_recent(0, i64::MAX));
    assert!(is_recent(i64::MAX, i64::MAX));
}

#[test]
fn rank_values() {
    assert_eq!(rank_of(0), 0);
    assert_eq!(rank_of(0x8000_0000), 0);
    assert_eq!(rank_of(1), 1);
    assert_eq!(rank_of(0x8000_0001), -1);
    assert_eq!(rank_of(0x7FFF_FFFF), 2_147_483_647);
    assert_eq!(rank_of(0xFFFF_FFFF), -2_147_483_647);
    assert_eq!(rank_of(21.5f32.to_bits()), 0x41AC_0000);
}

#[test]
fn rank_orders_as_the_numbers_do() {
    let values = [-1.0e30f32, -40.0, -0.5, -0.0, 0.0, 1.0e-20, 0.5, 21.5, 40.0, 1.0e30];
    for a in values {
        for b in values {
            let by_rank = rank_of(a.to_bits()) < rank_of(b.to_bits());
            assert_eq!(by_rank, a < b);
        }
    }
}

#[test]
fn database_error_message() {
    let error = ApiError::DatabaseError("pool timed out".to_string());
    assert_eq!(error.message(), "Erreur de base de données: pool timed out");
}

#[test]
fn config_error_message() {
    let error = ApiError::ConfigError("PORT".to_string());
    assert_eq!(error.message(), "Erreur de configuration: PORT");
}

#[test]
fn every_error_is_answered_with_500() {
    let database = ApiError::DatabaseError("gone".to_string()).error_response();
    assert_eq!(database.status, 500);
    assert_eq!(database.error, "Erreur de base de données: gone");
    let config = ApiError::ConfigError(String::new()).error_response();
    assert_eq!(config.status, 500);
    assert_eq!(config.error, "Erreur de configuration: ");
}

#[test]
fn store_failure_becomes_database_error() {
    let error = ApiError::from_store(&sqlx::Error::RowNotFound);
    assert_eq!(
        error,
        ApiError::DatabaseError(
            "no rows returned by a query that expected to return at least one row".to_string()
        )
    );
    assert_eq!(
        error.message(),
        "Erreur de base de données: no rows returned by a query that expected to return at least one row"
    );
    let timeout = ApiError::from_store(&sqlx::Error::PoolTimedOut);
    assert_eq!(
        timeout.error_response().error,
        "Erreur de base de données: pool timed out while waiting for an open connection"
    );
}

#[test]
fn store_text_becomes_database_error() {
    let error = ApiError::from_store_text("connection refused".to_string());
    assert_eq!(error, ApiError::DatabaseError("connection refused".to_string()));
    assert_eq!(error.message(), "Erreur de base de données: connection refused");
    let answer = error.error_response();
    assert_eq!(answer.status, 500);
    assert_eq!(answer.error, "Erreur de base de données: connection refused");
}
