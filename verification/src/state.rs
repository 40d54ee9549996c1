//! Persistent progress record: the selected puzzle, the session token, and
//! the per-puzzle completion stage, with bounds validation.

use vstd::prelude::*;
use vstd::multiset::Multiset;
use vstd::string::StringExecFns;
use crate::error::Error;
use crate::text::{spec_dec, spec_pad2, u64_to_string, pad2_string};

verus! {

/// Completion stage of one puzzle: both parts pending, one part solved, or done.
#[derive(Clone, Copy, PartialEq, Eq, Structural, Debug)]
pub enum Stage {
    First,
    Second,
    Complete,
}

/// The stage that follows `s` after one confirmed correct answer.
pub open spec fn spec_advance(s: Stage) -> Stage {
    match s {
        Stage::First => Stage::Second,
        Stage::Second => Stage::Complete,
        Stage::Complete => Stage::Complete,
    }
}

impl Stage {
    /// Move one step along First -> Second -> Complete; Complete is absorbing.
    pub fn advance(&mut self)
        ensures
            *final(self) == spec_advance(*old(self)),
    {
        *self = match *self {
            Stage::First => Stage::Second,
            Stage::Second => Stage::Complete,
            Stage::Complete => Stage::Complete,
        };
    }
}

/// The stage order is strict, one-directional and free of skips: Complete is
/// reached only from Second or Complete itself, advancing at Complete changes
/// nothing, and no single step jumps from First to Complete.
pub proof fn lemma_stage_order()
    ensures
        spec_advance(Stage::First) == Stage::Second,
        spec_advance(Stage::Second) == Stage::Complete,
        spec_advance(Stage::Complete) == Stage::Complete,
        forall|s: Stage| spec_advance(s) == Stage::Complete ==> s != Stage::First,
{
}

/// Tracked progress for one puzzle.
#[derive(Clone, Copy, PartialEq, Eq, Structural, Debug)]
pub struct Day {
    pub year: u32,
    pub day: u32,
    pub stage: Stage,
}

/// The persistent record: current selection, optional session token, and
/// per-puzzle progress entries.
#[derive(Debug, PartialEq, Eq)]
pub struct State {
    pub year: u32,
    pub day: u32,
    pub session_token: Option<String>,
    pub days: Vec<Day>,
}

/// Mathematical model of a persistent record.
pub struct StateModel {
    pub year: u32,
    pub day: u32,
    pub token: Option<Seq<char>>,
    pub days: Seq<Day>,
}

impl View for State {
    type V = StateModel;

    open spec fn view(&self) -> StateModel {
        StateModel {
            year: self.year,
            day: self.day,
            token: match self.session_token {
                Some(t) => Some(t@),
                None => None,
            },
            days: self.days@,
        }
    }
}

/// The record a fresh installation starts from.
pub open spec fn spec_default_model() -> StateModel {
    StateModel { year: 2015, day: 1, token: None, days: Seq::empty() }
}

impl Default for State {
    /// The default selection: the first day of the first served year, no
    /// token, no progress.
    fn default() -> (r: Self)
        ensures
            r@ == spec_default_model(),
    {
        let r = State { year: 2015, day: 1, session_token: None, days: Vec::new() };
        proof {
            assert(r@.days =~= spec_default_model().days);
        }
        r
    }
}

/// Years the website serves.
pub open spec fn valid_year(y: u32) -> bool {
    y >= 2015
}

/// Calendar days a puzzle can fall on.
pub open spec fn valid_day(d: u32) -> bool {
    1 <= d <= 25
}

/// The field name and value of the first out-of-bounds entry among the
/// progress records, scanned in order, year before day.
pub open spec fn spec_validate_days(days: Seq<Day>) -> Option<(Seq<char>, u32)>
    decreases days.len(),
{
    if days.len() == 0 {
        None
    } else if !valid_year(days[0].year) {
        Some(("year"@, days[0].year))
    } else if !valid_day(days[0].day) {
        Some(("day"@, days[0].day))
    } else {
        spec_validate_days(days.drop_first())
    }
}

/// The field name and value of the first bounds violation in the record:
/// the selection first (year before day), then each progress entry in order.
pub open spec fn spec_validate(m: StateModel) -> Option<(Seq<char>, u32)> {
    if !valid_year(m.year) {
        Some(("year"@, m.year))
    } else if !valid_day(m.day) {
        Some(("day"@, m.day))
    } else {
        spec_validate_days(m.days)
    }
}

/// A record every part of which is in bounds.
pub open spec fn valid_model(m: StateModel) -> bool {
    spec_validate(m) is None
}

/// Every progress entry is in bounds.
pub open spec fn all_days_in_bounds(days: Seq<Day>) -> bool {
    forall|i: int|
        0 <= i < days.len() ==> valid_year(#[trigger] days[i].year) && valid_day(days[i].day)
}

proof fn lemma_validate_days_none(days: Seq<Day>)
    ensures
        spec_validate_days(days) is None <==> all_days_in_bounds(days),
    decreases days.len(),
{
    if days.len() > 0 && valid_year(days[0].year) && valid_day(days[0].day) {
        lemma_validate_days_none(days.drop_first());
        let tail = days.drop_first();
        if spec_validate_days(days) is None {
            assert(all_days_in_bounds(tail));
            assert(all_days_in_bounds(days)) by {
                assert forall|i: int|
                    0 <= i < days.len() implies valid_year(#[trigger] days[i].year) && valid_day(
                    days[i].day,
                ) by {
                    if i >= 1 {
                        assert(all_days_in_bounds(tail));
                        assert(0 <= i - 1 < tail.len());
                        assert(tail[i - 1] == days[i]);
                        assert(valid_year(tail[i - 1].year) && valid_day(tail[i - 1].day));
                    }
                }
            }
        }
        if all_days_in_bounds(days) {
            assert(all_days_in_bounds(tail) == (forall|i: int|
                0 <= i < tail.len() ==> valid_year(#[trigger] tail[i].year) && valid_day(
                    tail[i].day,
                )));
            if !all_days_in_bounds(tail) {
                let w = choose|w: int|
                    0 <= w < tail.len() && !(valid_year(#[trigger] tail[w].year) && valid_day(
                        tail[w].day,
                    ));
                assert(tail[w] == days[w + 1]);
                assert(valid_year(days[w + 1].year) && valid_day(days[w + 1].day));
                assert(false);
            }
            assert(spec_validate_days(tail) is None);
            assert(spec_validate_days(days) is None);
        }
    } else if days.len() > 0 {
        assert(!all_days_in_bounds(days));
    }
}

/// Validation succeeds exactly on the records the bounds allow: the
/// selection in range and every progress entry in range.
pub proof fn lemma_valid_model_means_bounds(m: StateModel)
    ensures
        valid_model(m) <==> (valid_year(m.year) && valid_day(m.day) && all_days_in_bounds(m.days)),
{
    lemma_validate_days_none(m.days);
}

impl State {
    /// Check every bound: the selection and each progress entry; the error
    /// names the first offending field and its value.
    pub fn validate(&self) -> (r: Result<(), Error>)
        ensures
            match spec_validate(self@) {
                None => r is Ok,
                Some(fv) => r matches Err(Error::ValidationError { field, value }) && field@
                    == fv.0 && value == fv.1,
            },
    {
        if self.year < 2015 {
            return Err(
                Error::ValidationError { field: String::from_str("year"), value: self.year },
            );
        }
        if self.day < 1 || self.day > 25 {
            return Err(Error::ValidationError { field: String::from_str("day"), value: self.day });
        }
        let mut i: usize = 0;
        proof {
            assert(self.days@.skip(0) =~= self.days@);
        }
        while i < self.days.len()
            invariant
                i <= self.days@.len(),
                spec_validate(self@) == spec_validate_days(self.days@.skip(i as int)),
            decreases self.days@.len() - i,
        {
            let d = self.days[i];
            proof {
                assert(self.days@.skip(i as int)[0] == self.days@[i as int]);
                assert(self.days@.skip(i as int).drop_first() =~= self.days@.skip(i + 1 as int));
            }
            if d.year < 2015 {
                return Err(
                    Error::ValidationError { field: String::from_str("year"), value: d.year },
                );
            }
            if d.day < 1 || d.day > 25 {
                return Err(
                    Error::ValidationError { field: String::from_str("day"), value: d.day },
                );
            }
            i = i + 1;
        }
        proof {
            assert(self.days@.skip(self.days@.len() as int) =~= Seq::<Day>::empty());
        }
        Ok(())
    }

    /// The stored session token, or the error telling the user to set one.
    pub fn session_token(&self) -> (r: Result<&str, Error>)
        ensures
            match self.session_token {
                Some(t) => r matches Ok(s) && s@ == t@,
                None => r matches Err(e) && e == Error::MissingToken,
            },
    {
        match &self.session_token {
            Some(t) => Ok(t.as_str()),
            None => Err(Error::MissingToken),
        }
    }
}

/// Index of the first progress entry for `(y, d)`, or `-1` when none exists.
pub open spec fn first_idx(days: Seq<Day>, y: u32, d: u32) -> int
    decreases days.len(),
{
    if days.len() == 0 {
        -1
    } else if days[0].year == y && days[0].day == d {
        0
    } else {
        let r = first_idx(days.drop_first(), y, d);
        if r < 0 {
            -1
        } else {
            1 + r
        }
    }
}

/// A matching position before which nothing matches is the first index.
pub proof fn lemma_first_idx_is(days: Seq<Day>, y: u32, d: u32, i: int)
    requires
        0 <= i < days.len(),
        days[i].year == y && days[i].day == d,
        forall|j: int| 0 <= j < i ==> !(days[j].year == y && #[trigger] days[j].day == d),
    ensures
        first_idx(days, y, d) == i,
    decreases days.len(),
{
    if i > 0 {
        assert(!(days[0].year == y && days[0].day == d));
        assert(days.drop_first()[i - 1] == days[i]);
        assert forall|j: int|
            0 <= j < i - 1 implies !(days.drop_first()[j].year == y
            && #[trigger] days.drop_first()[j].day == d) by {
            assert(days.drop_first()[j] == days[j + 1]);
        }
        lemma_first_idx_is(days.drop_first(), y, d, i - 1);
    }
}

/// When nothing matches, there is no first index.
pub proof fn lemma_first_idx_none(days: Seq<Day>, y: u32, d: u32)
    requires
        forall|j: int| 0 <= j < days.len() ==> !(days[j].year == y && #[trigger] days[j].day == d),
    ensures
        first_idx(days, y, d) == -1,
    decreases days.len(),
{
    if days.len() > 0 {
        assert forall|j: int|
            0 <= j < days.drop_first().len() implies !(days.drop_first()[j].year == y
            && #[trigger] days.drop_first()[j].day == d) by {
            assert(days.drop_first()[j] == days[j + 1]);
        }
        lemma_first_idx_none(days.drop_first(), y, d);
    }
}

impl State {
    /// The position of the progress entry for the current selection,
    /// creating it at `Stage::First` when absent; everything else in the
    /// record is untouched.
    pub fn progress_for_current(&mut self) -> (i: usize)
        ensures
            final(self).year == old(self).year,
            final(self).day == old(self).day,
            final(self).session_token == old(self).session_token,
            ({
                let idx = first_idx(old(self).days@, old(self).year, old(self).day);
                if idx >= 0 {
                    final(self).days@ == old(self).days@ && i == idx
                } else {
                    final(self).days@ == old(self).days@.push(
                        Day { year: old(self).year, day: old(self).day, stage: Stage::First },
                    ) && i == old(self).days@.len()
                }
            }),
            i < final(self).days@.len(),
            final(self).days@[i as int].year == old(self).year,
            final(self).days@[i as int].day == old(self).day,
    {
        let y = self.year;
        let d = self.day;
        let mut i: usize = 0;
        while i < self.days.len()
            invariant
                *self == *old(self),
                y == old(self).year,
                d == old(self).day,
                i <= self.days@.len(),
                forall|j: int|
                    0 <= j < i ==> !(self.days@[j].year == y && #[trigger] self.days@[j].day == d),
            decreases self.days@.len() - i,
        {
            let e = self.days[i];
            if e.year == y && e.day == d {
                proof {
                    lemma_first_idx_is(self.days@, y, d, i as int);
                }
                return i;
            }
            i = i + 1;
        }
        proof {
            lemma_first_idx_none(self.days@, y, d);
        }
        let n = self.days.len();
        self.days.push(Day { year: y, day: d, stage: Stage::First });
        n
    }
}

/// The pair an input command works on: both given, the day against the
/// selected year, or the selection as it stands.
pub open spec fn spec_selection(m: StateModel, year_arg: Option<u32>, day_arg: Option<u32>) -> (
    u32,
    u32,
) {
    match (year_arg, day_arg) {
        (Some(y), Some(d)) => (y, d),
        (None, Some(d)) => (m.year, d),
        _ => (m.year, m.day),
    }
}

impl State {
    /// Resolve which puzzle an input command works on.
    pub fn selection_for(&self, year_arg: Option<u32>, day_arg: Option<u32>) -> (r: (u32, u32))
        ensures
            r == spec_selection(self@, year_arg, day_arg),
    {
        match (year_arg, day_arg) {
            (Some(y), Some(d)) => (y, d),
            (None, Some(d)) => (self.year, d),
            _ => (self.year, self.day),
        }
    }
}

/// Whether `a` sorts strictly before `b`: by year, then by day.
pub open spec fn day_lt(a: Day, b: Day) -> bool {
    a.year < b.year || (a.year == b.year && a.day < b.day)
}

/// `d` placed into `s` before the first entry it sorts strictly before.
pub open spec fn spec_insert_day(d: Day, s: Seq<Day>) -> Seq<Day>
    decreases s.len(),
{
    if s.len() == 0 {
        seq![d]
    } else if day_lt(d, s[0]) {
        seq![d] + s
    } else {
        seq![s[0]] + spec_insert_day(d, s.drop_first())
    }
}

pub open spec fn spec_sort_from(acc: Seq<Day>, s: Seq<Day>) -> Seq<Day>
    decreases s.len(),
{
    if s.len() == 0 {
        acc
    } else {
        spec_sort_from(spec_insert_day(s[0], acc), s.drop_first())
    }
}

/// The entries ordered by (year, day), equal keys keeping their order.
pub open spec fn spec_sorted_days(s: Seq<Day>) -> Seq<Day> {
    spec_sort_from(Seq::empty(), s)
}

/// Ordered by (year, day): no later entry sorts strictly before an earlier
/// one.
pub open spec fn sorted_by_key(s: Seq<Day>) -> bool {
    forall|a: int, b: int| 0 <= a < b < s.len() ==> !day_lt(s[b], s[a])
}

proof fn lemma_insert_day_keeps(d: Day, s: Seq<Day>)
    requires
        sorted_by_key(s),
    ensures
        sorted_by_key(spec_insert_day(d, s)),
        spec_insert_day(d, s).to_multiset() == s.to_multiset().insert(d),
        spec_insert_day(d, s).len() == s.len() + 1,
        forall|i: int|
            0 <= i < spec_insert_day(d, s).len() ==> #[trigger] spec_insert_day(d, s)[i] == d
                || s.contains(spec_insert_day(d, s)[i]),
    decreases s.len(),
{
    broadcast use vstd::seq_lib::group_to_multiset_ensures;
    broadcast use vstd::multiset::group_multiset_axioms;

    let r = spec_insert_day(d, s);
    if s.len() == 0 {
        assert(r =~= Seq::<Day>::empty().push(d));
        assert(Seq::<Day>::empty().to_multiset() =~= Multiset::<Day>::empty());
        assert(r.to_multiset() =~= s.to_multiset().insert(d));
    } else if day_lt(d, s[0]) {
        assert(r == seq![d] + s);
        vstd::seq_lib::lemma_multiset_commutative(seq![d], s);
        assert(seq![d] =~= Seq::<Day>::empty().push(d));
        assert(seq![d].to_multiset() =~= Multiset::<Day>::empty().insert(d));
        assert(r.to_multiset() =~= s.to_multiset().insert(d));
        assert forall|a: int, b: int| 0 <= a < b < r.len() implies !day_lt(r[b], r[a]) by {
            if a == 0 {
                assert(r[b] == s[b - 1]);
                if b >= 2 {
                    assert(!day_lt(s[b - 1], s[0]));
                }
            } else {
                assert(r[a] == s[a - 1] && r[b] == s[b - 1]);
            }
        }
        assert forall|i: int| 0 <= i < r.len() implies #[trigger] r[i] == d || s.contains(
            r[i],
        ) by {
            if i >= 1 {
                assert(r[i] == s[i - 1]);
            }
        }
    } else {
        let s1 = s.drop_first();
        assert(sorted_by_key(s1)) by {
            assert forall|a: int, b: int| 0 <= a < b < s1.len() implies !day_lt(
                s1[b],
                s1[a],
            ) by {
                assert(s1[a] == s[a + 1] && s1[b] == s[b + 1]);
                assert(!day_lt(s[b + 1], s[a + 1]));
            }
        }
        lemma_insert_day_keeps(d, s1);
        let r1 = spec_insert_day(d, s1);
        assert(r == seq![s[0]] + r1);
        vstd::seq_lib::lemma_multiset_commutative(seq![s[0]], r1);
        assert(seq![s[0]] =~= Seq::<Day>::empty().push(s[0]));
        assert(seq![s[0]].to_multiset() =~= Multiset::<Day>::empty().insert(s[0]));
        assert(s =~= seq![s[0]] + s1);
        vstd::seq_lib::lemma_multiset_commutative(seq![s[0]], s1);
        assert(r.to_multiset() =~= s.to_multiset().insert(d));
        assert forall|i: int| 0 <= i < r.len() implies #[trigger] r[i] == d || s.contains(
            r[i],
        ) by {
            if i == 0 {
                assert(s.contains(s[0])) by {
                    assert(s[0] == s[0]);
                }
            } else {
                assert(r[i] == r1[i - 1]);
                if r1[i - 1] != d {
                    assert(s1.contains(r1[i - 1]));
                    let w = choose|w: int| 0 <= w < s1.len() && s1[w] == r1[i - 1];
                    assert(s[w + 1] == s1[w]);
                }
            }
        }
        assert forall|a: int, b: int| 0 <= a < b < r.len() implies !day_lt(r[b], r[a]) by {
            if a == 0 {
                assert(r[b] == r1[b - 1]);
                if r1[b - 1] == d {
                    assert(!day_lt(d, s[0]));
                } else {
                    assert(s1.contains(r1[b - 1]));
                    let w = choose|w: int| 0 <= w < s1.len() && s1[w] == r1[b - 1];
                    assert(s[w + 1] == s1[w]);
                    assert(!day_lt(s[w + 1], s[0]));
                }
            } else {
                assert(r[a] == r1[a - 1] && r[b] == r1[b - 1]);
                assert(!day_lt(r1[b - 1], r1[a - 1]));
            }
        }
    }
}

proof fn lemma_sort_from_keeps(acc: Seq<Day>, s: Seq<Day>)
    requires
        sorted_by_key(acc),
    ensures
        sorted_by_key(spec_sort_from(acc, s)),
        spec_sort_from(acc, s).to_multiset() == acc.to_multiset().add(s.to_multiset()),
    decreases s.len(),
{
    broadcast use vstd::seq_lib::group_to_multiset_ensures;
    broadcast use vstd::multiset::group_multiset_axioms;

    if s.len() == 0 {
        assert(s.to_multiset() =~= Multiset::<Day>::empty());
        assert(acc.to_multiset().add(s.to_multiset()) =~= acc.to_multiset());
    } else {
        lemma_insert_day_keeps(s[0], acc);
        let acc1 = spec_insert_day(s[0], acc);
        lemma_sort_from_keeps(acc1, s.drop_first());
        assert(s =~= seq![s[0]] + s.drop_first());
        vstd::seq_lib::lemma_multiset_commutative(seq![s[0]], s.drop_first());
        assert(seq![s[0]] =~= Seq::<Day>::empty().push(s[0]));
        assert(seq![s[0]].to_multiset() =~= Multiset::<Day>::empty().insert(s[0]));
        assert(acc1.to_multiset().add(s.drop_first().to_multiset()) =~= acc.to_multiset().add(
            s.to_multiset(),
        ));
    }
}

/// Law: the status listing's sorted view is ordered by (year, day) and holds
/// exactly the progress entries, each as often as it is tracked.
pub proof fn lemma_sorted_days_correct(s: Seq<Day>)
    ensures
        sorted_by_key(spec_sorted_days(s)),
        spec_sorted_days(s).to_multiset() == s.to_multiset(),
{
    broadcast use vstd::multiset::group_multiset_axioms;

    lemma_sort_from_keeps(Seq::empty(), s);
    assert(Seq::<Day>::empty().to_multiset() =~= Multiset::<Day>::empty()) by {
        broadcast use vstd::seq_lib::group_to_multiset_ensures;

    }
    assert(Multiset::<Day>::empty().add(s.to_multiset()) =~= s.to_multiset());
}

fn day_lt_exec(a: Day, b: Day) -> (r: bool)
    ensures
        r == day_lt(a, b),
{
    a.year < b.year || (a.year == b.year && a.day < b.day)
}

fn insert_day(d: Day, v: Vec<Day>) -> (r: Vec<Day>)
    ensures
        r@ == spec_insert_day(d, v@),
    decreases v@.len(),
{
    if v.len() == 0 {
        let mut r = v;
        r.push(d);
        proof {
            assert(r@ =~= seq![d]);
        }
        r
    } else if day_lt_exec(d, v[0]) {
        let mut r = v;
        let ghost v0 = r@;
        r.insert(0, d);
        proof {
            assert(r@ =~= seq![d] + v0);
        }
        r
    } else {
        let mut v = v;
        let ghost v0 = v@;
        let h = v.remove(0);
        proof {
            assert(v@ =~= v0.drop_first());
            assert(h == v0[0]);
        }
        let mut r = insert_day(d, v);
        let ghost r0 = r@;
        r.insert(0, h);
        proof {
            assert(r@ =~= seq![v0[0]] + r0);
        }
        r
    }
}

impl State {
    /// The progress entries ordered by (year, day).
    pub fn sorted_days(&self) -> (r: Vec<Day>)
        ensures
            r@ == spec_sorted_days(self.days@),
    {
        let mut acc: Vec<Day> = Vec::new();
        let mut i: usize = 0;
        proof {
            assert(self.days@.skip(0) =~= self.days@);
            assert(acc@ =~= Seq::<Day>::empty());
        }
        while i < self.days.len()
            invariant
                i <= self.days@.len(),
                spec_sort_from(acc@, self.days@.skip(i as int)) == spec_sorted_days(self.days@),
            decreases self.days@.len() - i,
        {
            proof {
                assert(self.days@.skip(i as int)[0] == self.days@[i as int]);
                assert(self.days@.skip(i as int).drop_first() =~= self.days@.skip(i + 1 as int));
            }
            acc = insert_day(self.days[i], acc);
            i = i + 1;
        }
        proof {
            assert(self.days@.skip(self.days@.len() as int) =~= Seq::<Day>::empty());
        }
        acc
    }
}

/// The two-character symbol a stage is shown as.
pub open spec fn spec_stage_symbol(s: Stage) -> Seq<char> {
    match s {
        Stage::First => "__"@,
        Stage::Second => "*_"@,
        Stage::Complete => "**"@,
    }
}

/// The line shown for one progress entry.
pub open spec fn spec_day_line(d: Day) -> Seq<char> {
    "     "@ + spec_pad2(d.day as nat) + " "@ + spec_stage_symbol(d.stage)
}

/// The grouped listing of sorted entries: a year heading wherever the year
/// changes, then one line per entry.
pub open spec fn spec_group_lines(s: Seq<Day>, prev: Option<u32>) -> Seq<Seq<char>>
    decreases s.len(),
{
    if s.len() == 0 {
        Seq::empty()
    } else {
        (if prev != Some(s[0].year) {
            seq![spec_dec(s[0].year as nat)]
        } else {
            Seq::empty()
        }) + seq![spec_day_line(s[0])] + spec_group_lines(s.drop_first(), Some(s[0].year))
    }
}

/// The heading line naming the current selection.
pub open spec fn spec_selected_line(m: StateModel) -> Seq<char> {
    "selected: "@ + spec_dec(m.year as nat) + "/"@ + spec_pad2(m.day as nat)
}

/// The full status report: the selection heading, and — when any progress
/// is tracked — a blank line followed by the grouped listing.
pub open spec fn spec_status_lines(m: StateModel) -> Seq<Seq<char>> {
    if m.days.len() == 0 {
        seq![spec_selected_line(m)]
    } else {
        seq![spec_selected_line(m), Seq::<char>::empty()] + spec_group_lines(
            spec_sorted_days(m.days),
            None,
        )
    }
}

/// The character view of a list of lines.
pub open spec fn strings_view(v: Seq<String>) -> Seq<Seq<char>> {
    v.map_values(|s: String| s@)
}

impl State {
    /// The status report, one string per line, colors left to the caller.
    pub fn status_lines(&self) -> (r: Vec<String>)
        ensures
            strings_view(r@) == spec_status_lines(self@),
    {
        let mut lines: Vec<String> = Vec::new();
        let mut sel = String::from_str("selected: ");
        let y = u64_to_string(self.year as u64);
        sel.append(y.as_str());
        sel.append("/");
        let d = pad2_string(self.day as u64);
        sel.append(d.as_str());
        proof {
            assert(sel@ == spec_selected_line(self@));
        }
        lines.push(sel);
        if self.days.len() == 0 {
            proof {
                assert(strings_view(lines@) =~= spec_status_lines(self@));
            }
            return lines;
        }
        lines.push(String::new());
        let sorted = self.sorted_days();
        let ghost sortedv = sorted@;
        let mut prev: Option<u32> = None;
        let mut i: usize = 0;
        proof {
            assert(sortedv.skip(0) =~= sortedv);
            assert(strings_view(lines@) =~= seq![
                spec_selected_line(self@),
                Seq::<char>::empty(),
            ]);
            assert(spec_status_lines(self@) =~= strings_view(lines@) + spec_group_lines(
                sortedv.skip(0),
                None,
            ));
        }
        while i < sorted.len()
            invariant
                i <= sorted@.len(),
                sortedv == sorted@,
                spec_status_lines(self@) == strings_view(lines@) + spec_group_lines(
                    sortedv.skip(i as int),
                    prev,
                ),
            decreases sorted@.len() - i,
        {
            let e = sorted[i];
            let ghost lines0 = lines@;
            let is_new_year = match prev {
                None => true,
                Some(py) => py != e.year,
            };
            if is_new_year {
                lines.push(u64_to_string(e.year as u64));
            }
            let mut line = String::from_str("     ");
            let pd = pad2_string(e.day as u64);
            line.append(pd.as_str());
            line.append(" ");
            match e.stage {
                Stage::First => line.append("__"),
                Stage::Second => line.append("*_"),
                Stage::Complete => line.append("**"),
            }
            proof {
                assert(line@ == spec_day_line(e));
            }
            lines.push(line);
            proof {
                let suf = sortedv.skip(i as int);
                assert(suf[0] == e);
                assert(suf.drop_first() =~= sortedv.skip(i + 1 as int));
                let head: Seq<Seq<char>> = if prev != Some(e.year) {
                    seq![spec_dec(e.year as nat)]
                } else {
                    Seq::<Seq<char>>::empty()
                };
                assert(strings_view(lines@) =~= strings_view(lines0) + head + seq![
                    spec_day_line(e),
                ]);
                assert(strings_view(lines0) + (head + seq![spec_day_line(e)] + spec_group_lines(
                    sortedv.skip(i + 1 as int),
                    Some(e.year),
                )) =~= strings_view(lines@) + spec_group_lines(
                    sortedv.skip(i + 1 as int),
                    Some(e.year),
                ));
            }
            prev = Some(e.year);
            i = i + 1;
        }
        proof {
            assert(sortedv.skip(sortedv.len() as int) =~= Seq::<Day>::empty());
            assert(spec_group_lines(Seq::<Day>::empty(), prev) =~= Seq::<Seq<char>>::empty());
            assert(strings_view(lines@) + Seq::<Seq<char>>::empty() =~= strings_view(lines@));
        }
        lines
    }
}

} // verus!
