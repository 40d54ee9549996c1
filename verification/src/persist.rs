//! The textual codec for the persistent record. The document is one
//! `key = value` line per field — `year`, `day`, an optional quoted
//! `session_token` — followed by one `[[days]]` block per progress entry
//! with `year`, `day` and a quoted `stage` of `first`, `second` or
//! `complete`. Writing and reading are inverse: see
//! [`lemma_save_load_roundtrip`].

use vstd::prelude::*;
use vstd::string::StringExecFns;
use crate::error::Error;
use crate::state::{Day, Stage, State, StateModel, spec_default_model, spec_validate, valid_model};
use crate::text::{
    spec_dec, spec_parse_lit, spec_parse_uint, u64_to_string, str_to_chars, push_char, p_lit,
    p_uint, lemma_parse_lit_concat, lemma_parse_uint_concat, lemma_dec_digits, is_digit,
};

verus! {

/// How one character is written inside a quoted string: backslash, quote,
/// newline, carriage return and tab get a backslash escape, the rest stand
/// as they are.
pub open spec fn spec_esc_char(c: char) -> Seq<char> {
    if c == '\\' {
        seq!['\\', '\\']
    } else if c == '"' {
        seq!['\\', '"']
    } else if c == '\n' {
        seq!['\\', 'n']
    } else if c == '\r' {
        seq!['\\', 'r']
    } else if c == '\t' {
        seq!['\\', 't']
    } else {
        seq![c]
    }
}

/// A token as written inside quotes.
pub open spec fn spec_escape(t: Seq<char>) -> Seq<char>
    decreases t.len(),
{
    if t.len() == 0 {
        Seq::empty()
    } else {
        spec_esc_char(t[0]) + spec_escape(t.drop_first())
    }
}

/// Escaping a sequence escapes its parts.
pub proof fn lemma_escape_push(t: Seq<char>, c: char)
    ensures
        spec_escape(t.push(c)) == spec_escape(t) + spec_esc_char(c),
    decreases t.len(),
{
    if t.len() == 0 {
        assert(t.push(c)[0] == c);
        assert(t.push(c).drop_first() =~= Seq::<char>::empty());
        assert(spec_escape(Seq::<char>::empty()) == Seq::<char>::empty());
        assert(spec_escape(t.push(c)) == spec_esc_char(c) + Seq::<char>::empty());
        assert(spec_esc_char(c) + Seq::<char>::empty() =~= spec_esc_char(c));
        assert(spec_escape(t) + spec_esc_char(c) =~= spec_esc_char(c));
    } else {
        assert(t.push(c)[0] == t[0]);
        assert(t.push(c).drop_first() =~= t.drop_first().push(c));
        lemma_escape_push(t.drop_first(), c);
        assert(spec_esc_char(t[0]) + (spec_escape(t.drop_first()) + spec_esc_char(c)) =~= (
        spec_esc_char(t[0]) + spec_escape(t.drop_first())) + spec_esc_char(c));
    }
}

/// The serialized name of a stage.
pub open spec fn spec_stage_name(s: Stage) -> Seq<char> {
    match s {
        Stage::First => "first"@,
        Stage::Second => "second"@,
        Stage::Complete => "complete"@,
    }
}

/// The block written for one progress entry.
pub open spec fn spec_day_block(d: Day) -> Seq<char> {
    "\n[[days]]\nyear = "@ + spec_dec(d.year as nat) + "\nday = "@ + spec_dec(d.day as nat)
        + "\nstage = \""@ + spec_stage_name(d.stage) + "\"\n"@
}

/// The blocks written for the progress entries, in order; nothing when the
/// list is empty.
pub open spec fn spec_days_text(days: Seq<Day>) -> Seq<char>
    decreases days.len(),
{
    if days.len() == 0 {
        Seq::empty()
    } else {
        spec_day_block(days[0]) + spec_days_text(days.drop_first())
    }
}

/// Serializing a list of entries serializes its parts.
pub proof fn lemma_days_text_push(days: Seq<Day>, d: Day)
    ensures
        spec_days_text(days.push(d)) == spec_days_text(days) + spec_day_block(d),
    decreases days.len(),
{
    if days.len() == 0 {
        assert(days.push(d)[0] == d);
        assert(days.push(d).drop_first() =~= Seq::<Day>::empty());
        assert(spec_days_text(Seq::<Day>::empty()) == Seq::<char>::empty());
        assert(spec_days_text(days.push(d)) == spec_day_block(d) + Seq::<char>::empty());
        assert(spec_day_block(d) + Seq::<char>::empty() =~= spec_day_block(d));
        assert(spec_days_text(days) + spec_day_block(d) =~= spec_day_block(d));
    } else {
        assert(days.push(d)[0] == days[0]);
        assert(days.push(d).drop_first() =~= days.drop_first().push(d));
        lemma_days_text_push(days.drop_first(), d);
        assert(spec_day_block(days[0]) + (spec_days_text(days.drop_first()) + spec_day_block(d))
            =~= (spec_day_block(days[0]) + spec_days_text(days.drop_first())) + spec_day_block(d));
    }
}

/// The line written for the token, when one is stored.
pub open spec fn spec_token_line(token: Option<Seq<char>>) -> Seq<char> {
    match token {
        Some(t) => "session_token = \""@ + spec_escape(t) + "\"\n"@,
        None => Seq::empty(),
    }
}

/// The whole document written for a record.
pub open spec fn spec_state_text(m: StateModel) -> Seq<char> {
    "year = "@ + spec_dec(m.year as nat) + "\nday = "@ + spec_dec(m.day as nat) + "\n"@
        + spec_token_line(m.token) + spec_days_text(m.days)
}

/// The character an escape stands for, when the escape is recognised.
pub open spec fn spec_unesc(c: char) -> Option<char> {
    if c == '\\' {
        Some('\\')
    } else if c == '"' {
        Some('"')
    } else if c == 'n' {
        Some('\n')
    } else if c == 'r' {
        Some('\r')
    } else if c == 't' {
        Some('\t')
    } else {
        None
    }
}

/// Consume a quoted string's content up to and including its closing quote;
/// nothing on an unterminated string, a raw newline or an unknown escape.
pub open spec fn spec_parse_qstr(s: Seq<char>) -> Option<(Seq<char>, Seq<char>)>
    decreases s.len(),
{
    if s.len() == 0 {
        None
    } else if s[0] == '"' {
        Some((Seq::empty(), s.skip(1)))
    } else if s[0] == '\\' {
        if s.len() < 2 {
            None
        } else {
            match spec_unesc(s[1]) {
                None => None,
                Some(c) => match spec_parse_qstr(s.skip(2)) {
                    None => None,
                    Some(p) => Some((seq![c] + p.0, p.1)),
                },
            }
        }
    } else if s[0] == '\n' {
        None
    } else {
        match spec_parse_qstr(s.skip(1)) {
            None => None,
            Some(p) => Some((seq![s[0]] + p.0, p.1)),
        }
    }
}

/// Consume a stage name.
pub open spec fn spec_parse_stage(s: Seq<char>) -> Option<(Stage, Seq<char>)> {
    match spec_parse_lit(s, "first"@) {
        Some(r) => Some((Stage::First, r)),
        None => match spec_parse_lit(s, "second"@) {
            Some(r) => Some((Stage::Second, r)),
            None => match spec_parse_lit(s, "complete"@) {
                Some(r) => Some((Stage::Complete, r)),
                None => None,
            },
        },
    }
}

/// Consume one `[[days]]` block.
pub open spec fn spec_parse_day_block(s: Seq<char>) -> Option<(Day, Seq<char>)> {
    match spec_parse_lit(s, "\n[[days]]\nyear = "@) {
        None => None,
        Some(r1) => match spec_parse_uint(r1) {
            None => None,
            Some((y, r2)) => match spec_parse_lit(r2, "\nday = "@) {
                None => None,
                Some(r3) => match spec_parse_uint(r3) {
                    None => None,
                    Some((d, r4)) => match spec_parse_lit(r4, "\nstage = \""@) {
                        None => None,
                        Some(r5) => match spec_parse_stage(r5) {
                            None => None,
                            Some((st, r6)) => match spec_parse_lit(r6, "\"\n"@) {
                                None => None,
                                Some(r7) => Some((Day { year: y, day: d, stage: st }, r7)),
                            },
                        },
                    },
                },
            },
        },
    }
}

/// Consume `[[days]]` blocks up to the end of the text.
pub open spec fn spec_parse_days(s: Seq<char>) -> Option<Seq<Day>>
    decreases s.len(),
{
    if s.len() == 0 {
        Some(Seq::empty())
    } else {
        match spec_parse_day_block(s) {
            None => None,
            Some((d, r)) => if r.len() < s.len() {
                match spec_parse_days(r) {
                    None => None,
                    Some(ds) => Some(seq![d] + ds),
                }
            } else {
                None
            },
        }
    }
}

/// Parse a whole document: the `year` and `day` lines, the optional
/// `session_token` line, then the `[[days]]` blocks; nothing on any
/// malformed part or trailing text.
pub open spec fn spec_parse_state(s: Seq<char>) -> Option<StateModel> {
    match spec_parse_lit(s, "year = "@) {
        None => None,
        Some(r1) => match spec_parse_uint(r1) {
            None => None,
            Some((y, r2)) => match spec_parse_lit(r2, "\nday = "@) {
                None => None,
                Some(r3) => match spec_parse_uint(r3) {
                    None => None,
                    Some((d, r4)) => match spec_parse_lit(r4, "\n"@) {
                        None => None,
                        Some(r5) => match spec_parse_lit(r5, "session_token = \""@) {
                            Some(r6) => match spec_parse_qstr(r6) {
                                None => None,
                                Some((t, r7)) => match spec_parse_lit(r7, "\n"@) {
                                    None => None,
                                    Some(r8) => match spec_parse_days(r8) {
                                        None => None,
                                        Some(ds) => Some(
                                            StateModel {
                                                year: y,
                                                day: d,
                                                token: Some(t),
                                                days: ds,
                                            },
                                        ),
                                    },
                                },
                            },
                            None => match spec_parse_days(r5) {
                                None => None,
                                Some(ds) => Some(
                                    StateModel { year: y, day: d, token: None, days: ds },
                                ),
                            },
                        },
                    },
                },
            },
        },
    }
}

fn unesc_char(c: char) -> (r: Option<char>)
    ensures
        r == spec_unesc(c),
{
    if c == '\\' {
        Some('\\')
    } else if c == '"' {
        Some('"')
    } else if c == 'n' {
        Some('\n')
    } else if c == 'r' {
        Some('\r')
    } else if c == 't' {
        Some('\t')
    } else {
        None
    }
}

fn p_qstr(v: &Vec<char>, i: usize) -> (r: Option<(String, usize)>)
    requires
        i <= v@.len(),
    ensures
        match r {
            Some(p) => {
                &&& i <= p.1 <= v@.len()
                &&& spec_parse_qstr(v@.skip(i as int)) matches Some(q) && q.0 == p.0@ && q.1
                    == v@.skip(p.1 as int)
            },
            None => spec_parse_qstr(v@.skip(i as int)) is None,
        },
{
    let mut out = String::new();
    let mut cur: usize = i;
    loop
        invariant
            i <= cur <= v@.len(),
            v@.len() == v.len(),
            ({
                let whole = spec_parse_qstr(v@.skip(i as int));
                let sub = spec_parse_qstr(v@.skip(cur as int));
                match sub {
                    Some(p) => whole == Some((out@ + p.0, p.1)),
                    None => whole is None,
                }
            }),
        decreases v@.len() - cur,
    {
        let ghost suf = v@.skip(cur as int);
        if cur == v.len() {
            return None;
        }
        let c = v[cur];
        proof {
            assert(suf[0] == v@[cur as int]);
        }
        if c == '"' {
            proof {
                assert(suf.skip(1) =~= v@.skip(cur + 1 as int));
                assert(out@ + Seq::<char>::empty() =~= out@);
            }
            return Some((out, cur + 1));
        } else if c == '\\' {
            if v.len() - cur < 2 {
                return None;
            }
            let e = v[cur + 1];
            proof {
                assert(suf[1] == v@[cur + 1 as int]);
            }
            match unesc_char(e) {
                None => {
                    return None;
                },
                Some(u) => {
                    let ghost out0 = out@;
                    push_char(&mut out, u);
                    proof {
                        assert(suf.skip(2) =~= v@.skip(cur + 2 as int));
                        assert forall|p0: Seq<char>| out0 + (seq![u] + p0) =~= out@ + p0 by {
                            assert(out@ =~= out0.push(u));
                        }
                    }
                    cur = cur + 2;
                },
            }
        } else if c == '\n' {
            return None;
        } else {
            let ghost out0 = out@;
            push_char(&mut out, c);
            proof {
                assert(suf.skip(1) =~= v@.skip(cur + 1 as int));
                assert forall|p0: Seq<char>| out0 + (seq![c] + p0) =~= out@ + p0 by {
                    assert(out@ =~= out0.push(c));
                }
            }
            cur = cur + 1;
        }
    }
}

fn p_stage(v: &Vec<char>, i: usize) -> (r: Option<(Stage, usize)>)
    requires
        i <= v@.len(),
    ensures
        match r {
            Some(p) => {
                &&& i <= p.1 <= v@.len()
                &&& spec_parse_stage(v@.skip(i as int)) == Some((p.0, v@.skip(p.1 as int)))
            },
            None => spec_parse_stage(v@.skip(i as int)) is None,
        },
{
    match p_lit(v, i, "first") {
        Some(j) => Some((Stage::First, j)),
        None => match p_lit(v, i, "second") {
            Some(j) => Some((Stage::Second, j)),
            None => match p_lit(v, i, "complete") {
                Some(j) => Some((Stage::Complete, j)),
                None => None,
            },
        },
    }
}

fn p_day_block(v: &Vec<char>, i: usize) -> (r: Option<(Day, usize)>)
    requires
        i <= v@.len(),
    ensures
        match r {
            Some(p) => {
                &&& i < p.1 <= v@.len()
                &&& spec_parse_day_block(v@.skip(i as int)) == Some((p.0, v@.skip(p.1 as int)))
            },
            None => spec_parse_day_block(v@.skip(i as int)) is None,
        },
{
    let j1 = match p_lit(v, i, "\n[[days]]\nyear = ") {
        Some(j) => j,
        None => {
            return None;
        },
    };
    let (y, j2) = match p_uint(v, j1) {
        Some(p) => p,
        None => {
            return None;
        },
    };
    let j3 = match p_lit(v, j2, "\nday = ") {
        Some(j) => j,
        None => {
            return None;
        },
    };
    let (d, j4) = match p_uint(v, j3) {
        Some(p) => p,
        None => {
            return None;
        },
    };
    let j5 = match p_lit(v, j4, "\nstage = \"") {
        Some(j) => j,
        None => {
            return None;
        },
    };
    let (st, j6) = match p_stage(v, j5) {
        Some(p) => p,
        None => {
            return None;
        },
    };
    let j7 = match p_lit(v, j6, "\"\n") {
        Some(j) => j,
        None => {
            return None;
        },
    };
    proof {
        reveal_strlit("\n[[days]]\nyear = ");
    }
    Some((Day { year: y, day: d, stage: st }, j7))
}

fn p_days(v: &Vec<char>, i: usize) -> (r: Option<Vec<Day>>)
    requires
        i <= v@.len(),
    ensures
        match r {
            Some(ds) => spec_parse_days(v@.skip(i as int)) == Some(ds@),
            None => spec_parse_days(v@.skip(i as int)) is None,
        },
{
    let mut ds: Vec<Day> = Vec::new();
    let mut cur: usize = i;
    loop
        invariant
            i <= cur <= v@.len(),
            v@.len() == v.len(),
            ({
                let whole = spec_parse_days(v@.skip(i as int));
                let sub = spec_parse_days(v@.skip(cur as int));
                match sub {
                    Some(t) => whole == Some(ds@ + t),
                    None => whole is None,
                }
            }),
        decreases v@.len() - cur,
    {
        if cur == v.len() {
            proof {
                assert(v@.skip(cur as int) =~= Seq::<char>::empty());
                assert(spec_parse_days(v@.skip(cur as int)) == Some(Seq::<Day>::empty()));
                assert(ds@ + Seq::<Day>::empty() =~= ds@);
            }
            return Some(ds);
        }
        let ghost suf = v@.skip(cur as int);
        match p_day_block(v, cur) {
            None => {
                return None;
            },
            Some((d, j)) => {
                proof {
                    assert(v@.skip(j as int).len() < suf.len());
                    let sub2 = spec_parse_days(v@.skip(j as int));
                    match sub2 {
                        Some(t) => {
                            assert(spec_parse_days(suf) == Some(seq![d] + t));
                            assert forall|t0: Seq<Day>| ds@ + (seq![d] + t0) =~= ds@.push(d)
                                + t0 by {}
                        },
                        None => {},
                    }
                }
                ds.push(d);
                cur = j;
            },
        }
    }
}

/// Parse a saved document into a record, without validating bounds.
fn p_state(v: &Vec<char>) -> (r: Option<State>)
    ensures
        match r {
            Some(st) => spec_parse_state(v@) == Some(st@),
            None => spec_parse_state(v@) is None,
        },
{
    proof {
        assert(v@.skip(0) =~= v@);
    }
    let j1 = match p_lit(v, 0, "year = ") {
        Some(j) => j,
        None => {
            return None;
        },
    };
    let (y, j2) = match p_uint(v, j1) {
        Some(p) => p,
        None => {
            return None;
        },
    };
    let j3 = match p_lit(v, j2, "\nday = ") {
        Some(j) => j,
        None => {
            return None;
        },
    };
    let (d, j4) = match p_uint(v, j3) {
        Some(p) => p,
        None => {
            return None;
        },
    };
    let j5 = match p_lit(v, j4, "\n") {
        Some(j) => j,
        None => {
            return None;
        },
    };
    match p_lit(v, j5, "session_token = \"") {
        Some(j6) => {
            let (t, j7) = match p_qstr(v, j6) {
                Some(p) => p,
                None => {
                    return None;
                },
            };
            let j8 = match p_lit(v, j7, "\n") {
                Some(j) => j,
                None => {
                    return None;
                },
            };
            let days = match p_days(v, j8) {
                Some(ds) => ds,
                None => {
                    return None;
                },
            };
            Some(State { year: y, day: d, session_token: Some(t), days })
        },
        None => {
            let days = match p_days(v, j5) {
                Some(ds) => ds,
                None => {
                    return None;
                },
            };
            Some(State { year: y, day: d, session_token: None, days })
        },
    }
}

impl State {
    /// Read a record back from its saved document. Empty text yields the
    /// default record; malformed text fails with `SerializationError`; text
    /// whose bounds are off fails with `ValidationError` naming the field.
    pub fn from_text(s: &str) -> (r: Result<State, Error>)
        ensures
            s@.len() == 0 ==> (r matches Ok(st) && st@ == spec_default_model()),
            s@.len() > 0 ==> match spec_parse_state(s@) {
                None => r matches Err(e) && e == Error::SerializationError,
                Some(m) => match spec_validate(m) {
                    None => r matches Ok(st) && st@ == m,
                    Some(fv) => r matches Err(Error::ValidationError { field, value }) && field@
                        == fv.0 && value == fv.1,
                },
            },
    {
        if s.unicode_len() == 0 {
            return Ok(State::default());
        }
        let chars = str_to_chars(s);
        match p_state(&chars) {
            None => Err(Error::SerializationError),
            Some(st) => match st.validate() {
                Ok(()) => Ok(st),
                Err(e) => Err(e),
            },
        }
    }
}

/// Reading a quoted string back from its escaped form recovers it exactly
/// and leaves exactly what follows the closing quote.
pub proof fn lemma_qstr_roundtrip(t: Seq<char>, rest: Seq<char>)
    ensures
        spec_parse_qstr(spec_escape(t) + seq!['"'] + rest) == Some((t, rest)),
    decreases t.len(),
{
    let s = spec_escape(t) + seq!['"'] + rest;
    if t.len() == 0 {
        assert(spec_escape(t) == Seq::<char>::empty());
        assert(s =~= seq!['"'] + rest);
        assert(s[0] == '"');
        assert(s.skip(1) =~= rest);
        assert(Seq::<char>::empty() =~= t);
    } else {
        let c = t[0];
        let t1 = t.drop_first();
        assert(spec_escape(t) == spec_esc_char(c) + spec_escape(t1));
        lemma_qstr_roundtrip(t1, rest);
        let s1 = spec_escape(t1) + seq!['"'] + rest;
        if c == '\\' || c == '"' || c == '\n' || c == '\r' || c == '\t' {
            let x = if c == '\\' {
                '\\'
            } else if c == '"' {
                '"'
            } else if c == '\n' {
                'n'
            } else if c == '\r' {
                'r'
            } else {
                't'
            };
            assert(spec_esc_char(c) =~= seq!['\\', x]);
            assert(s =~= seq!['\\', x] + s1);
            assert(s[0] == '\\');
            assert(s[1] == x);
            assert(spec_unesc(x) == Some(c));
            assert(s.skip(2) =~= s1);
            assert(seq![c] + t1 =~= t);
        } else {
            assert(spec_esc_char(c) =~= seq![c]);
            assert(s =~= seq![c] + s1);
            assert(s[0] == c);
            assert(s.skip(1) =~= s1);
            assert(seq![c] + t1 =~= t);
        }
    }
}

/// Reading a stage name back recovers the stage and leaves exactly what
/// follows the name.
pub proof fn lemma_stage_roundtrip(st: Stage, rest: Seq<char>)
    ensures
        spec_parse_stage(spec_stage_name(st) + rest) == Some((st, rest)),
{
    reveal_strlit("first");
    reveal_strlit("second");
    reveal_strlit("complete");
    let s = spec_stage_name(st) + rest;
    match st {
        Stage::First => {
            lemma_parse_lit_concat("first"@, rest);
        },
        Stage::Second => {
            assert(s[0] == 's');
            if "first"@.len() <= s.len() {
                assert(s.take("first"@.len() as int)[0] == 's');
                assert(s.take("first"@.len() as int) != "first"@);
            }
            assert(spec_parse_lit(s, "first"@) is None);
            lemma_parse_lit_concat("second"@, rest);
        },
        Stage::Complete => {
            assert(s[0] == 'c');
            if "first"@.len() <= s.len() {
                assert(s.take("first"@.len() as int)[0] == 'c');
                assert(s.take("first"@.len() as int) != "first"@);
            }
            assert(spec_parse_lit(s, "first"@) is None);
            if "second"@.len() <= s.len() {
                assert(s.take("second"@.len() as int)[0] == 'c');
                assert(s.take("second"@.len() as int) != "second"@);
            }
            assert(spec_parse_lit(s, "second"@) is None);
            lemma_parse_lit_concat("complete"@, rest);
        },
    }
}

/// Reading a `[[days]]` block back recovers the entry and leaves exactly
/// what follows the block; the block is non-empty and opens with a newline.
pub proof fn lemma_day_block_roundtrip(d: Day, rest: Seq<char>)
    ensures
        spec_parse_day_block(spec_day_block(d) + rest) == Some((d, rest)),
        spec_day_block(d).len() > 0,
        (spec_day_block(d) + rest)[0] == '\n',
{
    reveal_strlit("\n[[days]]\nyear = ");
    reveal_strlit("\nday = ");
    reveal_strlit("\nstage = \"");
    reveal_strlit("\"\n");
    let l1 = "\n[[days]]\nyear = "@;
    let l2 = "\nday = "@;
    let l3 = "\nstage = \""@;
    let l4 = "\"\n"@;
    let name = spec_stage_name(d.stage);
    let s = spec_day_block(d) + rest;
    let x5 = name + (l4 + rest);
    let x4 = l3 + x5;
    let x3 = spec_dec(d.day as nat) + x4;
    let x2 = l2 + x3;
    let x1 = spec_dec(d.year as nat) + x2;
    assert(s =~= l1 + x1);
    lemma_parse_lit_concat(l1, x1);
    assert(x2[0] == '\n');
    assert(!is_digit('\n'));
    lemma_parse_uint_concat(d.year as nat, x2);
    lemma_parse_lit_concat(l2, x3);
    assert(x4[0] == '\n');
    lemma_parse_uint_concat(d.day as nat, x4);
    lemma_parse_lit_concat(l3, x5);
    lemma_stage_roundtrip(d.stage, l4 + rest);
    lemma_parse_lit_concat(l4, rest);
    assert(s[0] == l1[0]);
}

/// A non-empty list of blocks yields non-empty text that opens with a
/// newline.
pub proof fn lemma_days_text_shape(days: Seq<Day>)
    ensures
        days.len() > 0 ==> spec_days_text(days).len() > 0 && spec_days_text(days)[0] == '\n',
{
    if days.len() > 0 {
        let tail = spec_days_text(days.drop_first());
        lemma_day_block_roundtrip(days[0], tail);
        assert(spec_days_text(days) == spec_day_block(days[0]) + tail);
    }
}

/// Reading the block list back recovers the entries in order.
pub proof fn lemma_days_roundtrip(days: Seq<Day>)
    ensures
        spec_parse_days(spec_days_text(days)) == Some(days),
    decreases days.len(),
{
    if days.len() == 0 {
        assert(spec_days_text(days) == Seq::<char>::empty());
    } else {
        let d0 = days[0];
        let tail = spec_days_text(days.drop_first());
        lemma_day_block_roundtrip(d0, tail);
        lemma_days_roundtrip(days.drop_first());
        let s = spec_days_text(days);
        assert(s == spec_day_block(d0) + tail);
        assert(s.len() > 0);
        assert(tail.len() < s.len());
        assert(seq![d0] + days.drop_first() =~= days);
    }
}

/// Reading a whole saved document back recovers the record exactly.
pub proof fn lemma_text_roundtrip(m: StateModel)
    ensures
        spec_parse_state(spec_state_text(m)) == Some(m),
{
    reveal_strlit("year = ");
    reveal_strlit("\nday = ");
    reveal_strlit("\n");
    reveal_strlit("session_token = \"");
    let l1 = "year = "@;
    let l2 = "\nday = "@;
    let l3 = "\n"@;
    let lt = "session_token = \""@;
    let tokpart = spec_token_line(m.token);
    let daypart = spec_days_text(m.days);
    let s = spec_state_text(m);
    let x5 = tokpart + daypart;
    let x4 = l3 + x5;
    let x3 = spec_dec(m.day as nat) + x4;
    let x2 = l2 + x3;
    let x1 = spec_dec(m.year as nat) + x2;
    assert(s =~= l1 + x1);
    lemma_parse_lit_concat(l1, x1);
    assert(x2[0] == '\n');
    assert(!is_digit('\n'));
    lemma_parse_uint_concat(m.year as nat, x2);
    lemma_parse_lit_concat(l2, x3);
    assert(x4[0] == '\n');
    lemma_parse_uint_concat(m.day as nat, x4);
    lemma_parse_lit_concat(l3, x5);
    lemma_days_roundtrip(m.days);
    match m.token {
        Some(t) => {
            reveal_strlit("\"\n");
            let y1 = spec_escape(t) + (seq!['"'] + (l3 + daypart));
            assert(x5 =~= lt + y1);
            lemma_parse_lit_concat(lt, y1);
            lemma_qstr_roundtrip(t, l3 + daypart);
            assert(y1 =~= spec_escape(t) + seq!['"'] + (l3 + daypart));
            lemma_parse_lit_concat(l3, daypart);
        },
        None => {
            assert(x5 =~= daypart);
            lemma_days_text_shape(m.days);
            if m.days.len() == 0 {
                assert(x5.len() == 0);
                assert(spec_parse_lit(x5, lt) is None);
            } else {
                assert(x5[0] == '\n');
                assert(lt[0] == 's');
                if lt.len() <= x5.len() {
                    assert(x5.take(lt.len() as int)[0] == '\n');
                    assert(x5.take(lt.len() as int) != lt);
                }
                assert(spec_parse_lit(x5, lt) is None);
            }
        },
    }
}

/// Law: a record saved and loaded comes back unchanged. For every valid
/// record the saved document is non-empty, parses back to the very same
/// record, and that record passes validation — so loading what was saved
/// returns the original.
pub proof fn lemma_save_load_roundtrip(m: StateModel)
    requires
        valid_model(m),
    ensures
        spec_state_text(m).len() > 0,
        spec_parse_state(spec_state_text(m)) == Some(m),
        spec_validate(m) is None,
{
    lemma_text_roundtrip(m);
    reveal_strlit("year = ");
}

fn append_escaped(out: &mut String, t: &str)
    ensures
        final(out)@ == old(out)@ + spec_escape(t@),
{
    let chars = str_to_chars(t);
    let ghost out0 = out@;
    let mut i: usize = 0;
    proof {
        assert(out@ =~= out0 + spec_escape(t@.take(0)));
    }
    while i < chars.len()
        invariant
            i <= chars@.len(),
            chars@ == t@,
            out@ == out0 + spec_escape(t@.take(i as int)),
        decreases chars@.len() - i,
    {
        let c = chars[i];
        if c == '\\' {
            out.append("\\\\");
            proof {
                reveal_strlit("\\\\");
                assert("\\\\"@ =~= spec_esc_char(c));
            }
        } else if c == '"' {
            out.append("\\\"");
            proof {
                reveal_strlit("\\\"");
                assert("\\\""@ =~= spec_esc_char(c));
            }
        } else if c == '\n' {
            out.append("\\n");
            proof {
                reveal_strlit("\\n");
                assert("\\n"@ =~= spec_esc_char(c));
            }
        } else if c == '\r' {
            out.append("\\r");
            proof {
                reveal_strlit("\\r");
                assert("\\r"@ =~= spec_esc_char(c));
            }
        } else if c == '\t' {
            out.append("\\t");
            proof {
                reveal_strlit("\\t");
                assert("\\t"@ =~= spec_esc_char(c));
            }
        } else {
            push_char(out, c);
            proof {
                assert((out0 + spec_escape(t@.take(i as int))).push(c) =~= out0 + (spec_escape(
                    t@.take(i as int),
                ) + spec_esc_char(c)));
            }
        }
        proof {
            lemma_escape_push(t@.take(i as int), t@[i as int]);
            assert(t@.take(i as int).push(t@[i as int]) =~= t@.take(i + 1 as int));
            assert(out0 + spec_escape(t@.take(i as int)) + spec_esc_char(c) =~= out0 + (spec_escape(
                t@.take(i as int),
            ) + spec_esc_char(c)));
        }
        i = i + 1;
    }
    proof {
        assert(t@.take(t@.len() as int) =~= t@);
    }
}

impl State {
    /// The document this record is saved as.
    pub fn to_text(&self) -> (r: String)
        ensures
            r@ == spec_state_text(self@),
    {
        let mut out = String::from_str("year = ");
        let y = u64_to_string(self.year as u64);
        out.append(y.as_str());
        out.append("\nday = ");
        let d = u64_to_string(self.day as u64);
        out.append(d.as_str());
        out.append("\n");
        match &self.session_token {
            Some(t) => {
                out.append("session_token = \"");
                append_escaped(&mut out, t.as_str());
                out.append("\"\n");
            },
            None => {},
        }
        let ghost head = out@;
        proof {
            assert(head =~= "year = "@ + spec_dec(self@.year as nat) + "\nday = "@ + spec_dec(
                self@.day as nat,
            ) + "\n"@ + spec_token_line(self@.token));
            assert(out@ =~= head + spec_days_text(self.days@.take(0)));
        }
        let mut i: usize = 0;
        while i < self.days.len()
            invariant
                i <= self.days@.len(),
                head == "year = "@ + spec_dec(self@.year as nat) + "\nday = "@ + spec_dec(
                    self@.day as nat,
                ) + "\n"@ + spec_token_line(self@.token),
                out@ == head + spec_days_text(self.days@.take(i as int)),
            decreases self.days@.len() - i,
        {
            let e = self.days[i];
            out.append("\n[[days]]\nyear = ");
            let ey = u64_to_string(e.year as u64);
            out.append(ey.as_str());
            out.append("\nday = ");
            let ed = u64_to_string(e.day as u64);
            out.append(ed.as_str());
            out.append("\nstage = \"");
            match e.stage {
                Stage::First => out.append("first"),
                Stage::Second => out.append("second"),
                Stage::Complete => out.append("complete"),
            }
            out.append("\"\n");
            proof {
                let pre = head + spec_days_text(self.days@.take(i as int));
                assert(out@ =~= pre + spec_day_block(self.days@[i as int]));
                lemma_days_text_push(self.days@.take(i as int), self.days@[i as int]);
                assert(self.days@.take(i as int).push(self.days@[i as int]) =~= self.days@.take(
                    i + 1 as int,
                ));
                assert(pre + spec_day_block(self.days@[i as int]) =~= head + spec_days_text(
                    self.days@.take(i + 1 as int),
                ));
            }
            i = i + 1;
        }
        proof {
            assert(self.days@.take(self.days@.len() as int) =~= self.days@);
            assert(out@ =~= spec_state_text(self@));
        }
        out
    }
}

} // verus!
