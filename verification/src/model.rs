use vstd::prelude::*;

verus! {

/// Length of the trailing window, in milliseconds: thirty days.
pub const WINDOW_MILLIS: i64 = 2_592_000_000;

/// Where a sensor stands. The set is closed: no other value can be ingested.
#[derive(Clone, Copy, Debug, PartialEq, Eq, Structural)]
pub enum Location {
    Interior,
    Exterior,
}

impl Location {
    /// The text under which the location is stored and sent.
    pub open spec fn name(self) -> Seq<char> {
        match self {
            Location::Interior => "interior"@,
            Location::Exterior => "exterior"@,
        }
    }

    /// The location that a text names, if it names one.
    pub open spec fn parsed(text: Seq<char>) -> Option<Location> {
        if text == "interior"@ {
            Some(Location::Interior)
        } else if text == "exterior"@ {
            Some(Location::Exterior)
        } else {
            None
        }
    }

    pub fn to_string(&self) -> (text: String)
        ensures
            text@ == self.name(),
    {
        match self {
            Location::Interior => "interior".to_owned(),
            Location::Exterior => "exterior".to_owned(),
        }
    }

    /// Reads a location from its stored text. Only the two exact lower-case
    /// names are accepted.
    pub fn parse(text: &str) -> (location: Option<Location>)
        ensures
            location == Location::parsed(text@),
    {
        let given = text.to_owned();
        if given == "interior".to_owned() {
            Some(Location::Interior)
        } else if given == "exterior".to_owned() {
            Some(Location::Exterior)
        } else {
            None
        }
    }
}

/// Every location is read back from its own name, and a text that is read as
/// a location is that location's name.
pub proof fn lemma_location_round_trip(location: Location, text: Seq<char>)
    ensures
        Location::parsed(location.name()) == Some(location),
        Location::parsed(text) == Some(location) <==> text == location.name(),
{
    reveal_strlit("interior");
    reveal_strlit("exterior");
    assert("interior"@[0] == 'i');
    assert("exterior"@[0] == 'e');
}

/// A temperature as a sensor sends it: the sample and its unit.
#[derive(Clone, Debug, PartialEq, Eq)]
pub struct Temperature {
    pub value: u32,
    pub unit: String,
}

/// A relative humidity as a sensor sends it: the sample and its unit.
#[derive(Clone, Debug, PartialEq, Eq)]
pub struct Humidity {
    pub value: u32,
    pub unit: String,
}

/// A reading as it arrives and as it is answered. `timestamp` is set by the
/// service when the reading is accepted; what a sensor put there is ignored.
#[derive(Clone, Debug, PartialEq, Eq)]
pub struct Measurement {
    pub temperature: Temperature,
    pub humidity: Humidity,
    pub location: Location,
    pub timestamp: Option<i64>,
}

/// One stored row.
#[derive(Clone, Debug, PartialEq, Eq)]
pub struct MeasurementRecord {
    pub temperature: u32,
    pub humidity: u32,
    pub location: String,
    pub timestamp: i64,
}

/// A stored row as a value: what the contracts of the queries speak of.
pub struct Row {
    pub temperature: u32,
    pub humidity: u32,
    pub location: Seq<char>,
    pub timestamp: i64,
}

impl View for MeasurementRecord {
    type V = Row;

    open spec fn view(&self) -> Row {
        Row {
            temperature: self.temperature,
            humidity: self.humidity,
            location: self.location@,
            timestamp: self.timestamp,
        }
    }
}

/// The stored rows as values, in stored order.
pub open spec fn rows_of(records: Seq<MeasurementRecord>) -> Seq<Row> {
    records.map_values(|record: MeasurementRecord| record@)
}

/// What the stored rows say of one location, before any average is taken.
/// The `current_*` fields come from the latest row of the location; the
/// others from its rows inside the window. `temperatures` and `humidities`
/// hold the samples of those rows, in stored order: the averages are taken
/// over them.
#[derive(Clone, Debug, PartialEq, Eq)]
pub struct LocationWindow {
    pub location: String,
    pub current_temperature: Option<u32>,
    pub current_humidity: Option<u32>,
    pub min_temperature: Option<u32>,
    pub max_temperature: Option<u32>,
    pub temperatures: Vec<u32>,
    pub humidities: Vec<u32>,
}

/// What the stored rows say of one location, as a value.
pub struct Summary {
    pub location: Seq<char>,
    pub current_temperature: Option<u32>,
    pub current_humidity: Option<u32>,
    pub min_temperature: Option<u32>,
    pub max_temperature: Option<u32>,
    pub temperatures: Seq<u32>,
    pub humidities: Seq<u32>,
}

impl View for LocationWindow {
    type V = Summary;

    open spec fn view(&self) -> Summary {
        Summary {
            location: self.location@,
            current_temperature: self.current_temperature,
            current_humidity: self.current_humidity,
            min_temperature: self.min_temperature,
            max_temperature: self.max_temperature,
            temperatures: self.temperatures@,
            humidities: self.humidities@,
        }
    }
}

/// The entries of a statistics table as values, in their order.
pub open spec fn summaries_of(table: Seq<LocationWindow>) -> Seq<Summary> {
    table.map_values(|window: LocationWindow| window@)
}

/// Statistics of one location, flat. The four aggregate fields carry `24h`
/// in their names; all four are taken over the thirty-day window.
#[derive(Clone, Debug, PartialEq, Eq)]
pub struct LocationStats {
    pub location: String,
    pub current_temperature: Option<u32>,
    pub current_humidity: Option<u32>,
    pub avg_temperature_24h: Option<u32>,
    pub avg_humidity_24h: Option<u32>,
    pub min_temperature_24h: Option<u32>,
    pub max_temperature_24h: Option<u32>,
}

/// The latest reading of a location.
#[derive(Clone, Copy, Debug, PartialEq, Eq, Structural)]
pub struct CurrentReading {
    pub temperature: Option<u32>,
    pub humidity: Option<u32>,
}

/// Averages over the window.
#[derive(Clone, Copy, Debug, PartialEq, Eq, Structural)]
pub struct Averages {
    pub temperature: Option<u32>,
    pub humidity: Option<u32>,
}

/// What the window says of a location.
#[derive(Clone, Copy, Debug, PartialEq, Eq, Structural)]
pub struct WindowSummary {
    pub average: Averages,
    pub min_temperature: Option<u32>,
    pub max_temperature: Option<u32>,
}

/// Statistics of one location in the nested form in which they are answered.
/// A number that is missing is `None`; it is neither left out nor zero.
#[derive(Clone, Debug, PartialEq, Eq)]
pub struct StatsReport {
    pub location: String,
    pub current: CurrentReading,
    pub daily: WindowSummary,
}

/// Whether an instant lies inside the window that ends at `now`.
pub open spec fn in_window(timestamp: i64, now: i64) -> bool {
    timestamp as int >= now as int - WINDOW_MILLIS as int
}

pub fn is_recent(timestamp: i64, now: i64) -> (recent: bool)
    ensures
        recent == in_window(timestamp, now),
{
    if now < i64::MIN + WINDOW_MILLIS {
        true
    } else {
        timestamp >= now - WINDOW_MILLIS
    }
}

/// The earliest instant inside the window that ends at `now`: thirty days
/// before `now`, or the earliest instant there is where that cannot be had.
pub fn window_start(now: i64) -> (start: i64)
    ensures
        start as int == if now as int - WINDOW_MILLIS as int >= i64::MIN as int {
            now as int - WINDOW_MILLIS as int
        } else {
            i64::MIN as int
        },
        forall|timestamp: i64| in_window(timestamp, now) <==> timestamp >= start,
{
    if now < i64::MIN + WINDOW_MILLIS {
        i64::MIN
    } else {
        now - WINDOW_MILLIS
    }
}

/// Position of a sample in the numeric order of the values that the bit
/// patterns stand for: sign and magnitude, so that both zeros rank equal.
/// A pattern that stands for no number ranks beyond the infinity of its sign.
pub open spec fn sample_rank(bits: u32) -> int {
    if bits < 0x8000_0000u32 {
        bits as int
    } else {
        -(bits as int - 0x8000_0000)
    }
}

pub fn rank_of(bits: u32) -> (rank: i64)
    ensures
        rank as int == sample_rank(bits),
{
    if bits < 0x8000_0000u32 {
        bits as i64
    } else {
        -((bits - 0x8000_0000u32) as i64)
    }
}

pub fn copy_record(row: &MeasurementRecord) -> (copy: MeasurementRecord)
    ensures
        copy == *row,
{
    MeasurementRecord {
        temperature: row.temperature,
        humidity: row.humidity,
        location: row.location.clone(),
        timestamp: row.timestamp,
    }
}

} // verus!
