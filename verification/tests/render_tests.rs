//! Rendering HTML responses: primary region extraction, link rewriting,
//! footnotes, and the failure that makes the caller fall back to raw text.

use arrive::error::Error;
use arrive::render::parse_response;
use arrive::state::{Day, Stage, State};

#[test]
fn page_without_main_fails_to_parse() {
    let html = "<html><body><p>plain page</p></body></html>";
    assert_eq!(parse_response(html), Err(Error::ParseError));
}

#[test]
fn plain_main_is_trimmed_with_blank_line() {
    let html = "<html><main><p>Hello world</p></main></html>";
    let out = parse_response(html).unwrap();
    assert_eq!(out, "Hello world\n\n");
}

#[test]
fn relative_link_becomes_numbered_footnote() {
    let html = "<main>Go to <a href=\"/2015/day/1\">day one</a> now</main>";
    let out = parse_response(html).unwrap();
    assert_eq!(out, "Go to (day one)[1] now\n\n[1]: https://adventofcode.com/2015/day/1\n");
}

#[test]
fn absolute_link_is_kept_as_is() {
    let html = "<main>See <a href=\"https://example.com/x\">the docs</a>.</main>";
    let out = parse_response(html).unwrap();
    assert_eq!(out, "See (the docs)[1].\n\n[1]: https://example.com/x\n");
}

#[test]
fn links_are_numbered_in_order() {
    let html = "<main><a href=\"/a\">one</a> and <a href=\"/b\">two</a></main>";
    let out = parse_response(html).unwrap();
    assert_eq!(
        out,
        "(one)[1] and (two)[2]\n\n[1]: https://adventofcode.com/a\n[2]: https://adventofcode.com/b\n"
    );
}

#[test]
fn empty_labelled_links_get_no_reference() {
    let html = "<main>Text <a href=\"/a\"></a> here</main>";
    let out = parse_response(html).unwrap();
    assert_eq!(out, "Text  here\n\n");
}

#[test]
fn status_lists_sorted_grouped_days() {
    let st = State {
        year: 2023,
        day: 5,
        session_token: None,
        days: vec![
            Day { year: 2023, day: 5, stage: Stage::First },
            Day { year: 2015, day: 2, stage: Stage::Complete },
            Day { year: 2015, day: 1, stage: Stage::Second },
        ],
    };
    let lines = st.status_lines();
    assert_eq!(
        lines,
        vec![
            String::from("selected: 2023/05"),
            String::new(),
            String::from("2015"),
            String::from("     01 *_"),
            String::from("     02 **"),
            String::from("2023"),
            String::from("     05 __"),
        ]
    );
}

#[test]
fn status_keeps_entries_under_equal_keys() {
    let st = State {
        year: 2015,
        day: 1,
        session_token: None,
        days: vec![
            Day { year: 2015, day: 1, stage: Stage::First },
            Day { year: 2015, day: 1, stage: Stage::Complete },
        ],
    };
    let lines = st.status_lines();
    assert_eq!(
        lines,
        vec![
            String::from("selected: 2015/01"),
            String::new(),
            String::from("2015"),
            String::from("     01 __"),
            String::from("     01 **"),
        ]
    );
}

#[test]
fn status_without_progress_is_one_line() {
    let st = State { year: 2016, day: 9, session_token: None, days: vec![] };
    assert_eq!(st.status_lines(), vec![String::from("selected: 2016/09")]);
}

#[test]
fn error_messages_name_what_failed() {
    let e = Error::ValidationError { field: String::from("day"), value: 26 };
    assert_eq!(e.message(), "Invalid day: 26");
    assert_eq!(Error::MissingToken.message(), "Missing session token, have you run `arv token set`?");
    let h = Error::HttpStatusError { status: 404, body: String::from("x") };
    assert_eq!(h.message(), "HTTP 404");
    let a = Error::AlreadyComplete { year: 2023, day: 5 };
    assert_eq!(a.message(), "You have already completed selected day: 2023/05");
    let c = Error::ConfigurationError { what: String::from("cache") };
    assert_eq!(c.message(), "Failed to locate cache directory for your platform");
    let i = Error::IoError { path: String::from("/tmp/x") };
    assert_eq!(i.message(), "File operation failed: /tmp/x");
    let n = Error::NetworkError { what: String::from("timed out") };
    assert_eq!(n.message(), "Request failed: timed out");
    assert_eq!(Error::SerializationError.message(), "Failed to deserialize state");
    assert_eq!(Error::ParseError.message(), "No <main> tag found");
}

#[test]
fn selection_resolution_follows_argument_shape() {
    let st = State { year: 2022, day: 3, session_token: None, days: vec![] };
    assert_eq!(st.selection_for(Some(2018), Some(9)), (2018, 9));
    assert_eq!(st.selection_for(None, Some(9)), (2022, 9));
    assert_eq!(st.selection_for(None, None), (2022, 3));
    assert_eq!(st.selection_for(Some(2018), None), (2022, 3));
}

#[test]
fn solution_trimming_strips_edges_only() {
    assert_eq!(arrive::text::trim_str("  42\n"), "42");
    assert_eq!(arrive::text::trim_str("a b"), "a b");
    assert_eq!(arrive::text::trim_str("\t\r\n "), "");
}
