//! The input cache: one stored content per (year, day), looked up before
//! any network fetch and filled by an explicit write. The mapping it holds
//! is the model; the file behind each entry lives outside the library under
//! the deterministic name [`cache_file_name`] gives.

use vstd::prelude::*;
use vstd::string::StringExecFns;
use crate::text::{spec_dec, spec_pad2, u64_to_string, pad2_string};

verus! {

/// The file a puzzle's input is cached in, relative to the cache directory:
/// the year, an underscore, the zero-padded two-digit day, `.txt`.
pub open spec fn spec_cache_file_name(year: u32, day: u32) -> Seq<char> {
    spec_dec(year as nat) + "_"@ + spec_pad2(day as nat) + ".txt"@
}

/// The cache file name for a puzzle.
pub fn cache_file_name(year: u32, day: u32) -> (r: String)
    ensures
        r@ == spec_cache_file_name(year, day),
{
    let mut out = u64_to_string(year as u64);
    out.append("_");
    let d = pad2_string(day as u64);
    out.append(d.as_str());
    out.append(".txt");
    out
}

/// A lookup's result: a readable hit carrying the content, or a miss
/// carrying the file name the writer should fill.
pub enum Entry {
    Cached(String),
    Missing(String),
}

struct Slot {
    year: u32,
    day: u32,
    content: String,
}

/// The key a slot is stored under.
spec fn slot_key(s: Slot) -> (u32, u32) {
    (s.year, s.day)
}

/// The mapping a list of slots holds; with unique keys, exactly one slot
/// backs each key.
spec fn slots_map(s: Seq<Slot>) -> Map<(u32, u32), Seq<char>>
    decreases s.len(),
{
    if s.len() == 0 {
        Map::empty()
    } else {
        slots_map(s.drop_last()).insert(slot_key(s.last()), s.last().content@)
    }
}

spec fn unique_keys(s: Seq<Slot>) -> bool {
    forall|a: int, b: int|
        0 <= a < b < s.len() ==> #[trigger] slot_key(s[a]) != #[trigger] slot_key(s[b])
}

proof fn lemma_slots_map_get(s: Seq<Slot>, i: int)
    requires
        0 <= i < s.len(),
        forall|j: int| 0 <= j < s.len() && j != i ==> #[trigger] slot_key(s[j]) != slot_key(s[i]),
    ensures
        slots_map(s).contains_key(slot_key(s[i])),
        slots_map(s)[slot_key(s[i])] == s[i].content@,
    decreases s.len(),
{
    if i == s.len() - 1 {
        assert(s.last() == s[i]);
    } else {
        assert(slot_key(s.last()) != slot_key(s[i]));
        assert(s.drop_last()[i] == s[i]);
        assert forall|j: int|
            0 <= j < s.drop_last().len() && j != i implies #[trigger] slot_key(s.drop_last()[j])
            != slot_key(s.drop_last()[i]) by {
            assert(s.drop_last()[j] == s[j]);
        }
        lemma_slots_map_get(s.drop_last(), i);
    }
}

proof fn lemma_slots_map_absent(s: Seq<Slot>, k: (u32, u32))
    requires
        forall|j: int| 0 <= j < s.len() ==> #[trigger] slot_key(s[j]) != k,
    ensures
        !slots_map(s).contains_key(k),
    decreases s.len(),
{
    if s.len() > 0 {
        assert(slot_key(s.last()) != k);
        assert forall|j: int|
            0 <= j < s.drop_last().len() implies #[trigger] slot_key(s.drop_last()[j]) != k by {
            assert(s.drop_last()[j] == s[j]);
        }
        lemma_slots_map_absent(s.drop_last(), k);
    }
}

proof fn lemma_slots_map_update(s: Seq<Slot>, i: int, slot: Slot)
    requires
        0 <= i < s.len(),
        slot_key(slot) == slot_key(s[i]),
        unique_keys(s),
    ensures
        slots_map(s.update(i, slot)) == slots_map(s).insert(slot_key(slot), slot.content@),
    decreases s.len(),
{
    let t = s.update(i, slot);
    if i == s.len() - 1 {
        assert(t.drop_last() =~= s.drop_last());
        assert(t.last() == slot);
        assert(slots_map(s.drop_last()).insert(slot_key(slot), slot.content@) =~= slots_map(
            s,
        ).insert(slot_key(slot), slot.content@));
    } else {
        assert(t.drop_last() =~= s.drop_last().update(i, slot));
        assert(t.last() == s.last());
        assert(s.drop_last()[i] == s[i]);
        assert(unique_keys(s.drop_last())) by {
            assert forall|a: int, b: int|
                0 <= a < b < s.drop_last().len() implies #[trigger] slot_key(s.drop_last()[a])
                != #[trigger] slot_key(s.drop_last()[b]) by {
                assert(s.drop_last()[a] == s[a]);
                assert(s.drop_last()[b] == s[b]);
            }
        }
        lemma_slots_map_update(s.drop_last(), i, slot);
        assert(slot_key(s.last()) != slot_key(slot)) by {
            assert(slot_key(s[i]) != slot_key(s[s.len() - 1]));
        }
        assert(slots_map(s.drop_last()).insert(slot_key(slot), slot.content@).insert(
            slot_key(s.last()),
            s.last().content@,
        ) =~= slots_map(s.drop_last()).insert(slot_key(s.last()), s.last().content@).insert(
            slot_key(slot),
            slot.content@,
        ));
    }
}

/// The in-memory cache index: one slot per (year, day).
pub struct InputCache {
    slots: Vec<Slot>,
}

impl View for InputCache {
    type V = Map<(u32, u32), Seq<char>>;

    closed spec fn view(&self) -> Map<(u32, u32), Seq<char>> {
        slots_map(self.slots@)
    }
}

impl InputCache {
    /// Every key is stored at most once.
    pub closed spec fn wf(&self) -> bool {
        unique_keys(self.slots@)
    }

    /// An empty cache.
    pub fn new() -> (c: InputCache)
        ensures
            c.wf(),
            c@ == Map::<(u32, u32), Seq<char>>::empty(),
    {
        let c = InputCache { slots: Vec::new() };
        proof {
            assert(c@ =~= Map::<(u32, u32), Seq<char>>::empty());
        }
        c
    }

    /// Look up a puzzle's input: `Cached` with the stored content on a hit,
    /// `Missing` with the deterministic file name to fill on a miss.
    pub fn fetch(&self, year: u32, day: u32) -> (e: Entry)
        requires
            self.wf(),
        ensures
            match e {
                Entry::Cached(c) => self@.contains_key((year, day)) && c@ == self@[(year, day)],
                Entry::Missing(p) => !self@.contains_key((year, day)) && p@
                    == spec_cache_file_name(year, day),
            },
    {
        let mut i: usize = 0;
        while i < self.slots.len()
            invariant
                self.wf(),
                i <= self.slots@.len(),
                forall|j: int| 0 <= j < i ==> #[trigger] slot_key(self.slots@[j]) != (year, day),
            decreases self.slots@.len() - i,
        {
            if self.slots[i].year == year && self.slots[i].day == day {
                proof {
                    assert(slot_key(self.slots@[i as int]) == (year, day));
                    assert forall|j: int|
                        0 <= j < self.slots@.len() && j != i implies #[trigger] slot_key(
                        self.slots@[j],
                    ) != slot_key(self.slots@[i as int]) by {
                        if j < i {
                        } else {
                            assert(slot_key(self.slots@[i as int]) != slot_key(self.slots@[j]));
                        }
                    }
                    lemma_slots_map_get(self.slots@, i as int);
                }
                return Entry::Cached(self.slots[i].content.clone());
            }
            i = i + 1;
        }
        proof {
            lemma_slots_map_absent(self.slots@, (year, day));
        }
        Entry::Missing(cache_file_name(year, day))
    }

    /// Store (or overwrite) the content for a puzzle, bypassing hit logic.
    pub fn force_write(&mut self, year: u32, day: u32, content: &str)
        requires
            old(self).wf(),
        ensures
            final(self).wf(),
            final(self)@ == old(self)@.insert((year, day), content@),
    {
        let mut i: usize = 0;
        while i < self.slots.len()
            invariant
                *self == *old(self),
                self.wf(),
                i <= self.slots@.len(),
                forall|j: int| 0 <= j < i ==> #[trigger] slot_key(self.slots@[j]) != (year, day),
            decreases self.slots@.len() - i,
        {
            if self.slots[i].year == year && self.slots[i].day == day {
                let slot = Slot { year, day, content: String::from_str(content) };
                proof {
                    assert(slot_key(self.slots@[i as int]) == (year, day));
                    lemma_slots_map_update(self.slots@, i as int, slot);
                }
                let ghost s0 = self.slots@;
                self.slots.set(i, slot);
                proof {
                    assert forall|a: int, b: int|
                        0 <= a < b < self.slots@.len() implies #[trigger] slot_key(self.slots@[a])
                        != #[trigger] slot_key(self.slots@[b]) by {
                        assert(slot_key(s0[a]) != slot_key(s0[b]));
                        assert(slot_key(self.slots@[a]) == slot_key(s0[a]));
                        assert(slot_key(self.slots@[b]) == slot_key(s0[b]));
                    }
                }
                return ;
            }
            i = i + 1;
        }
        proof {
            lemma_slots_map_absent(self.slots@, (year, day));
        }
        let slot = Slot { year, day, content: String::from_str(content) };
        let ghost s0 = self.slots@;
        self.slots.push(slot);
        proof {
            assert(self.slots@.drop_last() =~= s0);
            assert(self.slots@.last() == slot);
            assert forall|a: int, b: int|
                0 <= a < b < self.slots@.len() implies #[trigger] slot_key(self.slots@[a])
                != #[trigger] slot_key(self.slots@[b]) by {
                if b < self.slots@.len() - 1 {
                    assert(slot_key(s0[a]) != slot_key(s0[b]));
                } else {
                    assert(slot_key(self.slots@[a]) == slot_key(s0[a]));
                    assert(slot_key(s0[a]) != (year, day));
                }
            }
        }
    }
}

/// Law: a lookup misses exactly when nothing is stored for the pair, and
/// after a write for a pair a lookup for the same pair is a hit carrying the
/// very content written, whatever was stored before.
pub proof fn lemma_fetch_after_write(
    m: Map<(u32, u32), Seq<char>>,
    year: u32,
    day: u32,
    content: Seq<char>,
)
    ensures
        m.insert((year, day), content).contains_key((year, day)),
        m.insert((year, day), content)[(year, day)] == content,
{
}

} // verus!
