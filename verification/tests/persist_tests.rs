//! The persistent record's codec: defaults, round trips, validation.

use arrive::error::Error;
use arrive::state::{Day, Stage, State};

fn sample_state() -> State {
    State {
        year: 2023,
        day: 5,
        session_token: Some(String::from("example-token")),
        days: vec![
            Day { year: 2023, day: 5, stage: Stage::First },
            Day { year: 2015, day: 1, stage: Stage::Complete },
        ],
    }
}

#[test]
fn empty_text_yields_default() {
    let st = State::from_text("").unwrap();
    assert_eq!(st.year, 2015);
    assert_eq!(st.day, 1);
    assert!(st.session_token.is_none());
    assert!(st.days.is_empty());
}

#[test]
fn round_trip_plain() {
    let st = sample_state();
    let text = st.to_text();
    let back = State::from_text(&text).unwrap();
    assert_eq!(back, st);
}

#[test]
fn round_trip_without_token_or_days() {
    let st = State { year: 2020, day: 12, session_token: None, days: vec![] };
    let back = State::from_text(&st.to_text()).unwrap();
    assert_eq!(back, st);
}

#[test]
fn round_trip_token_with_escapes() {
    let st = State {
        year: 2019,
        day: 3,
        session_token: Some(String::from("a\\b\"c\nd\re\tf")),
        days: vec![],
    };
    let back = State::from_text(&st.to_text()).unwrap();
    assert_eq!(back, st);
}

#[test]
fn saved_text_has_expected_shape() {
    let st = State {
        year: 2016,
        day: 7,
        session_token: Some(String::from("tok")),
        days: vec![Day { year: 2016, day: 7, stage: Stage::Second }],
    };
    let expected = "year = 2016\nday = 7\nsession_token = \"tok\"\n\n[[days]]\nyear = 2016\nday = 7\nstage = \"second\"\n";
    assert_eq!(st.to_text(), expected);
}

#[test]
fn day_out_of_bounds_names_day() {
    let text = "year = 2017\nday = 26\n";
    match State::from_text(text) {
        Err(Error::ValidationError { field, value }) => {
            assert_eq!(field, "day");
            assert_eq!(value, 26);
        },
        other => panic!("expected a day validation error, got {:?}", other),
    }
}

#[test]
fn year_out_of_bounds_names_year() {
    let text = "year = 2014\nday = 1\n";
    match State::from_text(text) {
        Err(Error::ValidationError { field, value }) => {
            assert_eq!(field, "year");
            assert_eq!(value, 2014);
        },
        other => panic!("expected a year validation error, got {:?}", other),
    }
}

#[test]
fn progress_entry_out_of_bounds_fails() {
    let text = "year = 2016\nday = 7\n\n[[days]]\nyear = 2016\nday = 26\nstage = \"first\"\n";
    match State::from_text(text) {
        Err(Error::ValidationError { field, value }) => {
            assert_eq!(field, "day");
            assert_eq!(value, 26);
        },
        other => panic!("expected a day validation error, got {:?}", other),
    }
}

#[test]
fn malformed_text_is_serialization_error() {
    assert_eq!(State::from_text("not a state file"), Err(Error::SerializationError));
    assert_eq!(State::from_text("year = \nday = 1\n"), Err(Error::SerializationError));
    assert_eq!(State::from_text("year = 2016\nday = 1\ntrailing"), Err(Error::SerializationError));
}

#[test]
fn huge_number_is_serialization_error() {
    let text = "year = 99999999999999999999\nday = 1\n";
    assert_eq!(State::from_text(text), Err(Error::SerializationError));
}

#[test]
fn validate_reports_first_violation() {
    let st = State {
        year: 2015,
        day: 1,
        session_token: None,
        days: vec![
            Day { year: 2016, day: 3, stage: Stage::First },
            Day { year: 1999, day: 2, stage: Stage::First },
        ],
    };
    match st.validate() {
        Err(Error::ValidationError { field, value }) => {
            assert_eq!(field, "year");
            assert_eq!(value, 1999);
        },
        other => panic!("expected a year validation error, got {:?}", other),
    }
    let ok = State { year: 2015, day: 25, session_token: None, days: vec![] };
    assert!(ok.validate().is_ok());
}

#[test]
fn round_trip_boundary_values() {
    let st = State {
        year: u32::MAX,
        day: 25,
        session_token: Some(String::new()),
        days: vec![Day { year: u32::MAX, day: 25, stage: Stage::Complete }],
    };
    let back = State::from_text(&st.to_text()).unwrap();
    assert_eq!(back, st);
}

#[test]
fn default_state_saves_to_two_lines() {
    assert_eq!(State::default().to_text(), "year = 2015\nday = 1\n");
}

#[test]
fn default_is_first_puzzle() {
    let st = State::default();
    assert_eq!(st.year, 2015);
    assert_eq!(st.day, 1);
    assert!(st.session_token.is_none());
    assert!(st.days.is_empty());
}
