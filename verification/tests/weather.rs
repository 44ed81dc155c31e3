use weather_rs::{
    chars_of, check_single, compass_direction, forecast_lines, has_argument,
    latest_observation_url, parse_count, read_invocation, split_fields, zip_lookup, Forecast,
    ForecastPeriod, ForecastProperties, Invocation, ObservationStationsGroup, ProgramError,
};

const ZIP_DATA: &str = "00501,Holtsville,NY,40.922326,-72.637078\n\
44256,Medina,OH,41.139849,-81.85646\n\
89145,Las Vegas,NV,36.167731,-115.26791\n\
89146,Las Vegas,NV,36.142381,-115.22509\n";

/// A heading in degrees as the library takes it: the least whole number of
/// quarter degrees not below it, or nothing for a value that is not a number.
fn quarter_degrees(direction: f64) -> Option<i64> {
    if direction.is_nan() {
        None
    } else {
        Some((direction * 4.0).ceil() as i64)
    }
}

fn direction(degrees: f64) -> Option<String> {
    compass_direction(quarter_degrees(degrees))
}

fn message(e: ProgramError) -> String {
    match e {
        ProgramError::General(m) => m,
    }
}

fn strings(items: &[&str]) -> Vec<String> {
    items.iter().map(|s| s.to_string()).collect()
}

#[test]
fn check_zip_lookup() {
    const ZIPS: &[&str] = &["89145", "44256"];
    const EXPECTED: &[(f64, f64, &str, &str)] = &[
        (36.167731, -115.26791, "Las Vegas", "NV"),
        (41.139849, -81.85646, "Medina", "OH"),
    ];

    for (i, zip) in ZIPS.iter().enumerate() {
        let fields = zip_lookup(ZIP_DATA, zip).unwrap();
        let result = (
            fields[3].parse::<f64>().unwrap(),
            fields[4].parse::<f64>().unwrap(),
            fields[1].as_str(),
            fields[2].as_str(),
        );
        assert_eq!(EXPECTED[i], result);
    }
}

#[test]
fn check_degrees_to_direction() {
    const DATA: &[(f64, &str)] = &[
        (0.0, "North"),
        (11.0, "North"),
        (12.0, "North Northeast"),
        (33.0, "North Northeast"),
        (34.0, "Northeast"),
        (45.0, "Northeast"),
        (56.0, "Northeast"),
        (57.0, "East Northeast"),
        (78.0, "East Northeast"),
        (79.0, "East"),
        (90.0, "East"),
        (101.0, "East"),
        (102.0, "East Southeast"),
        (123.0, "East Southeast"),
        (124.0, "Southeast"),
        (135.0, "Southeast"),
        (146.0, "Southeast"),
        (147.0, "South Southeast"),
        (168.0, "South Southeast"),
        (169.0, "South"),
        (180.0, "South"),
        (191.0, "South"),
        (192.0, "South Southwest"),
        (213.0, "South Southwest"),
        (214.0, "Southwest"),
        (225.0, "Southwest"),
        (236.0, "Southwest"),
        (237.0, "West Southwest"),
        (258.0, "West Southwest"),
        (259.0, "West"),
        (270.0, "West"),
        (281.0, "West"),
        (282.0, "West Northwest"),
        (303.0, "West Northwest"),
        (304.0, "Northwest"),
        (315.0, "Northwest"),
        (326.0, "Northwest"),
        (327.0, "North Northwest"),
        (348.0, "North Northwest"),
        (349.0, "North"),
        (360.0, "North"),
    ];

    for (degrees, expected) in DATA {
        let result = direction(*degrees).unwrap();
        assert_eq!(&result, *expected);
    }
}

#[test]
fn compass_boundaries_go_to_the_earlier_point() {
    assert_eq!(direction(11.25).unwrap(), "North");
    assert_eq!(direction(11.26).unwrap(), "North Northeast");
    assert_eq!(direction(348.75).unwrap(), "North Northwest");
    assert_eq!(direction(348.76).unwrap(), "North");
    assert_eq!(direction(359.99).unwrap(), "North");
}

#[test]
fn compass_below_zero_is_north() {
    assert_eq!(direction(-10.0).unwrap(), "North");
    assert_eq!(direction(f64::NEG_INFINITY).unwrap(), "North");
}

#[test]
fn compass_rejects_above_full_circle_and_nan() {
    assert!(direction(360.01).is_none());
    assert!(direction(720.0).is_none());
    assert!(direction(f64::INFINITY).is_none());
    assert!(direction(f64::NAN).is_none());
    assert!(compass_direction(None).is_none());
    assert!(compass_direction(Some(1441)).is_none());
    assert_eq!(compass_direction(Some(1440)).unwrap(), "North");
    assert_eq!(compass_direction(Some(i64::MIN)).unwrap(), "North");
}

#[test]
fn compass_point_is_within_half_a_notch() {
    // 160 degrees: 7 notches of 22.5 is 157.5.
    assert_eq!(direction(160.0).unwrap(), "South Southeast");
    assert_eq!(compass_direction(Some(90 * 7 + 45)).unwrap(), "South Southeast");
    assert_eq!(compass_direction(Some(90 * 7 - 44)).unwrap(), "South Southeast");
    assert_eq!(compass_direction(Some(90 * 7 - 45)).unwrap(), "Southeast");
}

#[test]
fn zip_lookup_rejects_codes_that_are_not_five_bytes() {
    for zip in ["8914", "891450", "", "8914é"] {
        let err = zip_lookup(ZIP_DATA, zip).unwrap_err();
        assert_eq!(message(err), "zip code must be five digits");
    }
}

#[test]
fn zip_lookup_reports_unknown_code() {
    let err = zip_lookup(ZIP_DATA, "99999").unwrap_err();
    assert_eq!(message(err), "zip code 99999 could not be located");
}

#[test]
fn zip_lookup_matches_only_at_line_start() {
    let data = "1,89145x,AA,1.0,2.0\n";
    assert!(zip_lookup(data, "89145").is_err());
    assert!(zip_lookup("", "89145").is_err());
}

#[test]
fn zip_lookup_takes_the_first_matching_line() {
    let data = "12345,First,AA,1,2\n12345,Second,BB,3,4";
    let fields = zip_lookup(data, "12345").unwrap();
    assert_eq!(fields, strings(&["12345", "First", "AA", "1", "2"]));
}

#[test]
fn zip_lookup_finds_a_last_line_without_newline() {
    let data = "00000,A,B,C,D\n55555,Town,ST,10.5,-20.25";
    let fields = zip_lookup(data, "55555").unwrap();
    assert_eq!(fields, strings(&["55555", "Town", "ST", "10.5", "-20.25"]));
}

#[test]
fn zip_lookup_returns_every_field_of_a_short_line() {
    let fields = zip_lookup("55555,Town\n", "55555").unwrap();
    assert_eq!(fields, strings(&["55555", "Town"]));
}

#[test]
fn split_fields_keeps_empty_pieces() {
    assert_eq!(split_fields("a,,b,", ','), strings(&["a", "", "b", ""]));
    assert_eq!(split_fields("", ','), strings(&[""]));
    assert_eq!(split_fields("Zürich,ZH", ','), strings(&["Zürich", "ZH"]));
}

#[test]
fn chars_of_gives_each_character() {
    assert_eq!(chars_of("añb"), vec!['a', 'ñ', 'b']);
    assert!(chars_of("").is_empty());
}

#[test]
fn check_single_takes_the_argument_after_the_first_flag() {
    let args = strings(&["weather-rs", "-z", "12345", "-z", "67890"]);
    assert_eq!(check_single("z", &args), Some("12345".to_string()));
    assert_eq!(check_single("p", &args), None);
}

#[test]
fn check_single_needs_a_following_argument() {
    let args = strings(&["weather-rs", "-p"]);
    assert_eq!(check_single("p", &args), None);
    let args = strings(&["weather-rs", "-p", "-p"]);
    assert_eq!(check_single("p", &args), Some("-p".to_string()));
    assert_eq!(check_single("z", &Vec::new()), None);
}

#[test]
fn has_argument_finds_exact_matches() {
    let args = strings(&["weather-rs", "--helpme", "--help"]);
    assert!(has_argument(&args, "--help"));
    assert!(!has_argument(&strings(&["weather-rs", "--helpme"]), "--help"));
}

#[test]
fn parse_count_reads_decimal_counts() {
    assert_eq!(parse_count("3"), Some(3));
    assert_eq!(parse_count("+12"), Some(12));
    assert_eq!(parse_count("007"), Some(7));
    assert_eq!(parse_count(&usize::MAX.to_string()), Some(usize::MAX));
}

#[test]
fn parse_count_rejects_what_usize_rejects() {
    for text in ["", "+", "-1", "1.5", " 3", "3 ", "++3", "x"] {
        assert_eq!(parse_count(text), None, "{text:?}");
        assert!(text.parse::<usize>().is_err());
    }
    let too_big = format!("{}0", usize::MAX);
    assert_eq!(parse_count(&too_big), None);
}

fn settings_of(inv: Invocation) -> (String, usize) {
    match inv {
        Invocation::Run(s) => (s.zip_code, s.forecast_periods),
        _ => panic!("expected settings"),
    }
}

#[test]
fn arguments_take_precedence_over_environment() {
    let args = strings(&["weather-rs", "-z", "10001"]);
    let (zip, periods) = settings_of(read_invocation(Some("60601".to_string()), &args));
    assert_eq!(zip, "10001");
    assert_eq!(periods, 3);
}

#[test]
fn environment_then_default_zip() {
    let args = strings(&["weather-rs"]);
    let (zip, _) = settings_of(read_invocation(Some("60601".to_string()), &args));
    assert_eq!(zip, "60601");
    let (zip, periods) = settings_of(read_invocation(None, &args));
    assert_eq!(zip, "89145");
    assert_eq!(periods, 3);
}

#[test]
fn period_count_from_arguments() {
    let args = strings(&["weather-rs", "-p", "5"]);
    let (_, periods) = settings_of(read_invocation(None, &args));
    assert_eq!(periods, 5);
    let args = strings(&["weather-rs", "-p", "five"]);
    match read_invocation(None, &args) {
        Invocation::BadPeriodCount(text) => assert_eq!(text, "five"),
        _ => panic!("expected a bad period count"),
    }
}

#[test]
fn help_wins_over_everything() {
    let args = strings(&["weather-rs", "-p", "five", "--help"]);
    assert!(matches!(read_invocation(None, &args), Invocation::Help));
}

#[test]
fn latest_observation_url_uses_first_station() {
    let group = ObservationStationsGroup {
        observationStations: strings(&[
            "https://api.weather.gov/stations/KVGT",
            "https://api.weather.gov/stations/KLAS",
        ]),
    };
    assert_eq!(
        latest_observation_url(&group).unwrap(),
        "https://api.weather.gov/stations/KVGT/observations/latest"
    );
}

#[test]
fn latest_observation_url_needs_a_station() {
    let group = ObservationStationsGroup { observationStations: Vec::new() };
    let err = latest_observation_url(&group).unwrap_err();
    assert_eq!(message(err), "observationStations field is empty.");
}

fn period(name: &str, detail: &str) -> ForecastPeriod {
    ForecastPeriod {
        number: 1,
        name: name.to_string(),
        startTime: String::new(),
        endTime: String::new(),
        isDaytime: true,
        temperature: 100,
        temperatureTrend: None,
        windSpeed: String::new(),
        windDirection: String::new(),
        shortForecast: String::new(),
        detailedForecast: detail.to_string(),
    }
}

fn forecast(periods: Vec<ForecastPeriod>) -> Forecast {
    Forecast {
        properties: ForecastProperties {
            forecastGenerator: String::new(),
            generatedAt: String::new(),
            updateTime: String::new(),
            validTimes: String::new(),
            periods,
        },
    }
}

#[test]
fn forecast_lines_show_at_most_the_asked_periods() {
    let f = forecast(vec![
        period("This Afternoon", "Sunny."),
        period("Tonight", "Mostly clear."),
        period("Friday", "Sunny, hot."),
    ]);
    assert_eq!(
        forecast_lines(&f, 2),
        strings(&["    This Afternoon: Sunny.", "    Tonight: Mostly clear."])
    );
    assert_eq!(forecast_lines(&f, 10).len(), 3);
    assert!(forecast_lines(&f, 0).is_empty());
}
