//! Website synchronisation: building the input-fetch and answer-submission
//! requests, classifying their responses, and advancing the completion
//! stage only on the website's explicit confirmation. The transport itself
//! lives outside the library; it is handed a [`Request`] and returns the
//! status and body, which come back in here for classification.

use vstd::prelude::*;
use vstd::string::StringExecFns;
use vstd::string::StringSliceAdditionalSpecFns;
use crate::error::Error;
use crate::state::{Day, Stage, State, first_idx, spec_advance};
use crate::text::{spec_dec, u64_to_string, push_char, str_to_chars, contains_chars,
    spec_contains};

verus! {

/// The fixed origin all requests go to.
pub open spec fn spec_origin() -> Seq<char> {
    "https://adventofcode.com"@
}

/// The website's origin, for resolving relative links.
pub fn origin_str() -> (r: &'static str)
    ensures
        r@ == spec_origin(),
{
    "https://adventofcode.com"
}

/// The fixed descriptive string the program announces itself as.
pub open spec fn spec_user_agent() -> Seq<char> {
    "arrive command-line puzzle companion"@
}

/// The User-Agent header value.
pub fn user_agent() -> (r: String)
    ensures
        r@ == spec_user_agent(),
{
    String::from_str("arrive command-line puzzle companion")
}

/// Where a puzzle's input is fetched from.
pub open spec fn spec_input_url(year: u32, day: u32) -> Seq<char> {
    spec_origin() + "/"@ + spec_dec(year as nat) + "/day/"@ + spec_dec(day as nat) + "/input"@
}

/// Where a puzzle's answer is posted to.
pub open spec fn spec_answer_url(year: u32, day: u32) -> Seq<char> {
    spec_origin() + "/"@ + spec_dec(year as nat) + "/day/"@ + spec_dec(day as nat) + "/answer"@
}

fn puzzle_url_prefix(year: u32, day: u32) -> (r: String)
    ensures
        r@ == spec_origin() + "/"@ + spec_dec(year as nat) + "/day/"@ + spec_dec(day as nat),
{
    let mut out = String::from_str("https://adventofcode.com");
    out.append("/");
    let y = u64_to_string(year as u64);
    out.append(y.as_str());
    out.append("/day/");
    let d = u64_to_string(day as u64);
    out.append(d.as_str());
    out
}

/// The input URL for a puzzle.
pub fn input_url(year: u32, day: u32) -> (r: String)
    ensures
        r@ == spec_input_url(year, day),
{
    let mut out = puzzle_url_prefix(year, day);
    out.append("/input");
    out
}

/// The answer URL for a puzzle.
pub fn answer_url(year: u32, day: u32) -> (r: String)
    ensures
        r@ == spec_answer_url(year, day),
{
    let mut out = puzzle_url_prefix(year, day);
    out.append("/answer");
    out
}

/// The Cookie header value carrying the session token.
pub open spec fn spec_cookie(token: Seq<char>) -> Seq<char> {
    "session="@ + token
}

/// Build the session cookie header value.
pub fn session_cookie(token: &str) -> (r: String)
    ensures
        r@ == spec_cookie(token@),
{
    let mut out = String::from_str("session=");
    out.append(token);
    out
}

/// Bytes a form encoding leaves as they stand: letters, digits, and the
/// four unreserved marks.
pub open spec fn is_unreserved(b: u8) -> bool {
    (48 <= b <= 57) || (65 <= b <= 90) || (97 <= b <= 122) || b == 45 || b == 46 || b == 95 || b
        == 126
}

/// The hexadecimal digit for a value below sixteen, upper case.
pub open spec fn spec_hex_char(v: u8) -> char {
    if v == 0 {
        '0'
    } else if v == 1 {
        '1'
    } else if v == 2 {
        '2'
    } else if v == 3 {
        '3'
    } else if v == 4 {
        '4'
    } else if v == 5 {
        '5'
    } else if v == 6 {
        '6'
    } else if v == 7 {
        '7'
    } else if v == 8 {
        '8'
    } else if v == 9 {
        '9'
    } else if v == 10 {
        'A'
    } else if v == 11 {
        'B'
    } else if v == 12 {
        'C'
    } else if v == 13 {
        'D'
    } else if v == 14 {
        'E'
    } else {
        'F'
    }
}

/// How one byte is written in a form encoding: unreserved bytes stand as
/// they are, a space becomes `+`, everything else a `%XX` escape.
pub open spec fn spec_enc_byte(b: u8) -> Seq<char> {
    if is_unreserved(b) {
        seq![b as char]
    } else if b == 32 {
        seq!['+']
    } else {
        seq!['%', spec_hex_char(b / 16), spec_hex_char(b % 16)]
    }
}

/// The form encoding of a byte sequence.
pub open spec fn spec_urlencode(bs: Seq<u8>) -> Seq<char>
    decreases bs.len(),
{
    if bs.len() == 0 {
        Seq::empty()
    } else {
        spec_enc_byte(bs[0]) + spec_urlencode(bs.drop_first())
    }
}

/// Encoding a byte sequence encodes its parts.
proof fn lemma_urlencode_push(bs: Seq<u8>, b: u8)
    ensures
        spec_urlencode(bs.push(b)) == spec_urlencode(bs) + spec_enc_byte(b),
    decreases bs.len(),
{
    if bs.len() == 0 {
        assert(bs.push(b)[0] == b);
        assert(bs.push(b).drop_first() =~= Seq::<u8>::empty());
        assert(spec_urlencode(Seq::<u8>::empty()) == Seq::<char>::empty());
        assert(spec_urlencode(bs.push(b)) == spec_enc_byte(b) + Seq::<char>::empty());
        assert(spec_enc_byte(b) + Seq::<char>::empty() =~= spec_enc_byte(b));
        assert(spec_urlencode(bs) + spec_enc_byte(b) =~= spec_enc_byte(b));
    } else {
        assert(bs.push(b)[0] == bs[0]);
        assert(bs.push(b).drop_first() =~= bs.drop_first().push(b));
        lemma_urlencode_push(bs.drop_first(), b);
        assert(spec_enc_byte(bs[0]) + (spec_urlencode(bs.drop_first()) + spec_enc_byte(b)) =~= (
        spec_enc_byte(bs[0]) + spec_urlencode(bs.drop_first())) + spec_enc_byte(b));
    }
}

fn hex_char(v: u8) -> (c: char)
    requires
        v < 16,
    ensures
        c == spec_hex_char(v),
{
    match v {
        0 => '0',
        1 => '1',
        2 => '2',
        3 => '3',
        4 => '4',
        5 => '5',
        6 => '6',
        7 => '7',
        8 => '8',
        9 => '9',
        10 => 'A',
        11 => 'B',
        12 => 'C',
        13 => 'D',
        14 => 'E',
        _ => 'F',
    }
}

/// The form document posted for an answer: the level, then the solution,
/// form-encoded byte for byte.
pub open spec fn spec_form_body(level: u8, solution: Seq<u8>) -> Seq<char> {
    "level="@ + spec_dec(level as nat) + "&answer="@ + spec_urlencode(solution)
}

/// Build the posted form document.
pub fn form_body(level: u8, solution: &str) -> (r: String)
    ensures
        r@ == spec_form_body(level, solution.spec_bytes()),
{
    let mut out = String::from_str("level=");
    let l = u64_to_string(level as u64);
    out.append(l.as_str());
    out.append("&answer=");
    let bytes = solution.as_bytes();
    let ghost head = out@;
    let mut i: usize = 0;
    proof {
        assert(out@ =~= head + spec_urlencode(bytes@.take(0)));
    }
    while i < bytes.len()
        invariant
            i <= bytes@.len(),
            out@ == head + spec_urlencode(bytes@.take(i as int)),
        decreases bytes@.len() - i,
    {
        let b = bytes[i];
        if (48 <= b && b <= 57) || (65 <= b && b <= 90) || (97 <= b && b <= 122) || b == 45 || b
            == 46 || b == 95 || b == 126 {
            push_char(&mut out, b as char);
            proof {
                assert((head + spec_urlencode(bytes@.take(i as int))).push(b as char) =~= head + (
                spec_urlencode(bytes@.take(i as int)) + spec_enc_byte(b)));
            }
        } else if b == 32 {
            push_char(&mut out, '+');
            proof {
                assert((head + spec_urlencode(bytes@.take(i as int))).push('+') =~= head + (
                spec_urlencode(bytes@.take(i as int)) + spec_enc_byte(b)));
            }
        } else {
            push_char(&mut out, '%');
            push_char(&mut out, hex_char(b / 16));
            push_char(&mut out, hex_char(b % 16));
            proof {
                assert((head + spec_urlencode(bytes@.take(i as int))).push('%').push(spec_hex_char(
                    b / 16,
                )).push(spec_hex_char(b % 16)) =~= head + (spec_urlencode(bytes@.take(i as int))
                    + spec_enc_byte(b)));
            }
        }
        proof {
            lemma_urlencode_push(bytes@.take(i as int), bytes@[i as int]);
            assert(bytes@.take(i as int).push(bytes@[i as int]) =~= bytes@.take(i + 1 as int));
            assert(head + (spec_urlencode(bytes@.take(i as int)) + spec_enc_byte(b)) =~= head
                + spec_urlencode(bytes@.take(i + 1 as int)));
        }
        i = i + 1;
    }
    proof {
        assert(bytes@.take(bytes@.len() as int) =~= bytes@);
    }
    out
}

/// How a request is sent.
#[derive(Clone, Copy, PartialEq, Eq, Structural, Debug)]
pub enum Method {
    Get,
    Post,
}

/// Everything the transport outside the library needs to issue one request:
/// the method, the URL, the two headers every request carries, and for a
/// POST the content type and form document.
#[derive(Debug)]
pub struct Request {
    pub method: Method,
    pub url: String,
    pub cookie: String,
    pub user_agent: String,
    pub content_type: Option<String>,
    pub body: Option<String>,
}

/// Build the GET for a puzzle's input: the deterministic URL, the session
/// cookie and the fixed user agent; fails with `MissingToken` exactly when
/// no token is stored, and then no request exists to send.
pub fn fetch_input_request(state: &State, year: u32, day: u32) -> (r: Result<Request, Error>)
    ensures
        match state.session_token {
            None => r matches Err(e) && e == Error::MissingToken,
            Some(t) => r matches Ok(req) && {
                &&& req.method == Method::Get
                &&& req.url@ == spec_input_url(year, day)
                &&& req.cookie@ == spec_cookie(t@)
                &&& req.user_agent@ == spec_user_agent()
                &&& req.content_type is None
                &&& req.body is None
            },
        },
{
    let token = match state.session_token() {
        Ok(t) => t,
        Err(e) => {
            return Err(e);
        },
    };
    Ok(
        Request {
            method: Method::Get,
            url: input_url(year, day),
            cookie: session_cookie(token),
            user_agent: user_agent(),
            content_type: None,
            body: None,
        },
    )
}

/// Classify the response to an input fetch: 200 yields the body verbatim,
/// byte for byte; anything else is `HttpStatusError` carrying status and
/// body as the diagnostic.
pub fn fetch_input_response(status: u16, body: String) -> (r: Result<String, Error>)
    ensures
        status == 200 ==> (r matches Ok(b) && b@ == body@),
        status != 200 ==> (r matches Err(e) && e matches Error::HttpStatusError {
            status: st,
            body: bd,
        } && st == status && bd@ == body@),
{
    if status != 200 {
        return Err(Error::HttpStatusError { status, body });
    }
    Ok(body)
}

/// The level a pending stage submits at.
pub open spec fn spec_level(st: Stage) -> u8 {
    match st {
        Stage::First => 1,
        Stage::Second => 2,
        Stage::Complete => 0,
    }
}

/// The confirmation phrase whose presence is the sole success signal.
pub fn is_correct_answer(body: &str) -> (r: bool)
    ensures
        r == spec_contains(body@, "That's the right answer!"@),
{
    let b = str_to_chars(body);
    let p = str_to_chars("That's the right answer!");
    contains_chars(&b, &p)
}

/// Resolve the current puzzle's progress entry (creating it at `First` when
/// absent), refuse with `AlreadyComplete` when it is complete — no request
/// exists then, so nothing is sent — and otherwise build the POST whose form
/// document carries the stage's level and the solution. The record is
/// unchanged on every error; on success only the lazily created entry may
/// have been added.
pub fn submit_request(state: &mut State, solution: &str) -> (r: Result<Request, Error>)
    ensures
        ({
            let y = old(state).year;
            let d = old(state).day;
            let idx = first_idx(old(state).days@, y, d);
            match old(state).session_token {
                None => {
                    &&& r matches Err(e) && e == Error::MissingToken
                    &&& *final(state) == *old(state)
                },
                Some(t) => {
                    if idx >= 0 && old(state).days@[idx].stage == Stage::Complete {
                        &&& r matches Err(e) && e == (Error::AlreadyComplete { year: y, day: d })
                        &&& final(state).year == y
                        &&& final(state).day == d
                        &&& final(state).session_token == old(state).session_token
                        &&& final(state).days@ == old(state).days@
                    } else {
                        let stage = if idx >= 0 {
                            old(state).days@[idx].stage
                        } else {
                            Stage::First
                        };
                        &&& r matches Ok(req) && {
                            &&& req.method == Method::Post
                            &&& req.url@ == spec_answer_url(y, d)
                            &&& req.cookie@ == spec_cookie(t@)
                            &&& req.user_agent@ == spec_user_agent()
                            &&& req.content_type matches Some(ct) && ct@
                                == "application/x-www-form-urlencoded"@
                            &&& req.body matches Some(bd) && bd@ == spec_form_body(
                                spec_level(stage),
                                solution.spec_bytes(),
                            )
                        }
                        &&& final(state).year == y
                        &&& final(state).day == d
                        &&& final(state).session_token == old(state).session_token
                        &&& final(state).days@ == (if idx >= 0 {
                            old(state).days@
                        } else {
                            old(state).days@.push(Day { year: y, day: d, stage: Stage::First })
                        })
                    }
                },
            }
        }),
{
    let token = match &state.session_token {
        Some(t) => t.clone(),
        None => {
            return Err(Error::MissingToken);
        },
    };
    let i = state.progress_for_current();
    let stage = state.days[i].stage;
    match stage {
        Stage::Complete => {
            return Err(Error::AlreadyComplete { year: state.year, day: state.day });
        },
        _ => {},
    }
    let level: u8 = match stage {
        Stage::First => 1,
        _ => 2,
    };
    let url = answer_url(state.year, state.day);
    let body = form_body(level, solution);
    Ok(
        Request {
            method: Method::Post,
            url,
            cookie: session_cookie(token.as_str()),
            user_agent: user_agent(),
            content_type: Some(String::from_str("application/x-www-form-urlencoded")),
            body: Some(body),
        },
    )
}

/// Apply the website's verdict to the record: a status other than 200 is
/// `HttpStatusError` and changes nothing; at 200 the answer was accepted
/// exactly when the confirmation phrase stands in the body, and only then
/// does the current puzzle's stage advance one step.
pub fn submit_response(state: &mut State, status: u16, body: &str) -> (r: Result<bool, Error>)
    ensures
        status != 200 ==> ({
            &&& r matches Err(e) && e matches Error::HttpStatusError { status: st, body: bd } && st
                == status && bd@ == body@
            &&& *final(state) == *old(state)
        }),
        status == 200 ==> ({
            let y = old(state).year;
            let d = old(state).day;
            let idx = first_idx(old(state).days@, y, d);
            let resolved = if idx >= 0 {
                old(state).days@
            } else {
                old(state).days@.push(Day { year: y, day: d, stage: Stage::First })
            };
            let j = if idx >= 0 {
                idx
            } else {
                old(state).days@.len() as int
            };
            let correct = spec_contains(body@, "That's the right answer!"@);
            &&& r matches Ok(c) && c == correct
            &&& final(state).year == y
            &&& final(state).day == d
            &&& final(state).session_token == old(state).session_token
            &&& final(state).days@ == (if correct {
                resolved.update(
                    j,
                    Day { year: y, day: d, stage: spec_advance(resolved[j].stage) },
                )
            } else {
                resolved
            })
        }),
{
    if status != 200 {
        return Err(Error::HttpStatusError { status, body: String::from_str(body) });
    }
    let i = state.progress_for_current();
    let correct = is_correct_answer(body);
    if correct {
        let mut entry = state.days[i];
        entry.stage.advance();
        state.days.set(i, entry);
    }
    Ok(correct)
}

} // verus!
