//! The website synchronisation protocol: request construction, response
//! classification, and stage advancement.

use arrive::error::Error;
use arrive::state::{Day, Stage, State};
use arrive::web::{
    answer_url, fetch_input_request, fetch_input_response, form_body, input_url, is_correct_answer,
    session_cookie, submit_request, submit_response, user_agent, Method,
};

const CONFIRMATION: &str = "<html><main><p>That's the right answer!</p></main></html>";
const REJECTION: &str = "<html><main><p>That's not the right answer.</p></main></html>";

fn state_with(stage: Option<Stage>) -> State {
    State {
        year: 2023,
        day: 5,
        session_token: Some(String::from("example-token")),
        days: match stage {
            Some(s) => vec![Day { year: 2023, day: 5, stage: s }],
            None => vec![],
        },
    }
}

#[test]
fn urls_are_deterministic() {
    assert_eq!(input_url(2023, 5), "https://adventofcode.com/2023/day/5/input");
    assert_eq!(answer_url(2015, 25), "https://adventofcode.com/2015/day/25/answer");
}

#[test]
fn headers_are_fixed() {
    assert_eq!(session_cookie("abc"), "session=abc");
    assert_eq!(user_agent(), "arrive command-line puzzle companion");
}

#[test]
fn form_body_encodes_solution() {
    assert_eq!(form_body(1, "42"), "level=1&answer=42");
    assert_eq!(form_body(2, "a b+c"), "level=2&answer=a+b%2Bc");
    assert_eq!(form_body(1, "x~-_.y"), "level=1&answer=x~-_.y");
    assert_eq!(form_body(1, "\u{e9}"), "level=1&answer=%C3%A9");
}

#[test]
fn fetch_request_carries_token_and_agent() {
    let st = state_with(None);
    let req = fetch_input_request(&st, 2023, 5).unwrap();
    assert!(matches!(req.method, Method::Get));
    assert_eq!(req.url, "https://adventofcode.com/2023/day/5/input");
    assert_eq!(req.cookie, "session=example-token");
    assert_eq!(req.user_agent, "arrive command-line puzzle companion");
    assert!(req.content_type.is_none());
    assert!(req.body.is_none());
}

#[test]
fn fetch_request_without_token_fails() {
    let mut st = state_with(None);
    st.session_token = None;
    assert_eq!(fetch_input_request(&st, 2023, 5).unwrap_err(), Error::MissingToken);
}

#[test]
fn fetch_response_returns_body_verbatim() {
    let body = String::from("line one\nline two\n");
    assert_eq!(fetch_input_response(200, body.clone()).unwrap(), body);
}

#[test]
fn fetch_response_other_status_fails() {
    match fetch_input_response(404, String::from("gone")) {
        Err(Error::HttpStatusError { status, body }) => {
            assert_eq!(status, 404);
            assert_eq!(body, "gone");
        },
        other => panic!("expected an HTTP status error, got {:?}", other),
    }
}

#[test]
fn submit_on_complete_never_builds_a_request() {
    let mut st = state_with(Some(Stage::Complete));
    let before = st.days.clone();
    match submit_request(&mut st, "42") {
        Err(Error::AlreadyComplete { year, day }) => {
            assert_eq!(year, 2023);
            assert_eq!(day, 5);
        },
        other => panic!("expected AlreadyComplete, got {:?}", other),
    }
    assert_eq!(st.days, before);
}

#[test]
fn submit_without_token_fails_before_anything_else() {
    let mut st = state_with(Some(Stage::Complete));
    st.session_token = None;
    assert_eq!(submit_request(&mut st, "42").unwrap_err(), Error::MissingToken);
    assert_eq!(st.days.len(), 1);
}

#[test]
fn submit_builds_post_with_level_for_stage() {
    let mut st = state_with(Some(Stage::Second));
    let req = submit_request(&mut st, "42").unwrap();
    assert!(matches!(req.method, Method::Post));
    assert_eq!(req.url, "https://adventofcode.com/2023/day/5/answer");
    assert_eq!(req.content_type.as_deref(), Some("application/x-www-form-urlencoded"));
    assert_eq!(req.body.as_deref(), Some("level=2&answer=42"));
}

#[test]
fn submit_creates_missing_entry_at_first() {
    let mut st = state_with(None);
    let req = submit_request(&mut st, "guess").unwrap();
    assert_eq!(req.body.as_deref(), Some("level=1&answer=guess"));
    assert_eq!(st.days, vec![Day { year: 2023, day: 5, stage: Stage::First }]);
}

#[test]
fn confirmation_phrase_is_the_only_success_signal() {
    assert!(is_correct_answer(CONFIRMATION));
    assert!(!is_correct_answer(REJECTION));
    assert!(!is_correct_answer(""));
}

#[test]
fn confirmed_answer_advances_first_to_second() {
    let mut st = state_with(Some(Stage::First));
    let correct = submit_response(&mut st, 200, CONFIRMATION).unwrap();
    assert!(correct);
    assert_eq!(st.days[0].stage, Stage::Second);
}

#[test]
fn confirmed_answer_advances_second_to_complete() {
    let mut st = state_with(Some(Stage::Second));
    let correct = submit_response(&mut st, 200, CONFIRMATION).unwrap();
    assert!(correct);
    assert_eq!(st.days[0].stage, Stage::Complete);
}

#[test]
fn confirmed_answer_creates_and_advances_missing_entry() {
    let mut st = state_with(None);
    let correct = submit_response(&mut st, 200, CONFIRMATION).unwrap();
    assert!(correct);
    assert_eq!(st.days, vec![Day { year: 2023, day: 5, stage: Stage::Second }]);
}

#[test]
fn unconfirmed_answer_changes_no_stage() {
    let mut st = state_with(Some(Stage::First));
    let correct = submit_response(&mut st, 200, REJECTION).unwrap();
    assert!(!correct);
    assert_eq!(st.days[0].stage, Stage::First);
}

#[test]
fn submit_response_http_error_changes_nothing() {
    let mut st = state_with(Some(Stage::First));
    match submit_response(&mut st, 500, "boom") {
        Err(Error::HttpStatusError { status, body }) => {
            assert_eq!(status, 500);
            assert_eq!(body, "boom");
        },
        other => panic!("expected an HTTP status error, got {:?}", other),
    }
    assert_eq!(st.days[0].stage, Stage::First);
}

#[test]
fn stage_advances_one_step_and_sticks_at_complete() {
    let mut s = Stage::First;
    s.advance();
    assert_eq!(s, Stage::Second);
    s.advance();
    assert_eq!(s, Stage::Complete);
    s.advance();
    assert_eq!(s, Stage::Complete);
}
