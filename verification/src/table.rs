//! The live voices of the synthesizer: at most one voice per note number.
//!
//! The table is a map from note number to voice. It is kept as a dense list,
//! so that one pass over it takes time in proportion to the number of live
//! voices, and no pass allocates.

use crate::fixed::{lemma_scaled_bounds, scale, scaled, ONE};
use crate::oscillator::{lemma_saw_sample_bounds, saw_sample, Oscillator};
use crate::voice::{lemma_current_amplitude_bounds, lemma_voice_updated_wf, Voice, VoiceView};
use vstd::prelude::*;
use vstd::set_lib::{lemma_int_range, lemma_len_subset, set_int_range};

verus! {

/// The number of note numbers: notes run from 0 to 127.
pub const NOTE_COUNT: usize = 128;

/// A note number and the voice that sounds it.
#[derive(Clone, Copy, Debug)]
struct Slot {
    note: u8,
    voice: Voice,
}

/// The live voices, by note number.
pub struct VoiceTable {
    slots: Vec<Slot>,
}

/// What one voice adds to the mix at a sample rate in hertz: the oscillator's
/// sample at the voice's phase, times the voice's sounding amplitude.
pub open spec fn contribution(v: VoiceView, rate: int) -> int {
    scaled(saw_sample(v.phase, rate), v.current_amplitude())
}

/// The sum of the contributions of the voices on the notes below `upto`.
pub open spec fn mix_sum_below(voices: Map<int, VoiceView>, rate: int, upto: int) -> int
    decreases upto,
{
    if upto <= 0 {
        0
    } else {
        mix_sum_below(voices, rate, upto - 1) + if voices.contains_key(upto - 1) {
            contribution(voices[upto - 1], rate)
        } else {
            0
        }
    }
}

/// The sum of the contributions of all voices.
pub open spec fn mix_sum(voices: Map<int, VoiceView>, rate: int) -> int {
    mix_sum_below(voices, rate, NOTE_COUNT as int)
}

/// The voices after the time `dt`: every voice is updated, and those that are
/// no longer active are gone.
pub open spec fn advanced(voices: Map<int, VoiceView>, dt: int) -> Map<int, VoiceView> {
    Map::new(
        |n: int| voices.contains_key(n) && voices[n].updated(dt).is_active(),
        |n: int| voices[n].updated(dt),
    )
}

/// Every note is a note number and every voice is well-formed.
pub open spec fn voices_wf(voices: Map<int, VoiceView>) -> bool {
    forall|n: int| #[trigger]
        voices.contains_key(n) ==> 0 <= n < NOTE_COUNT && voices[n].wf()
}

/// A contribution is a level between −1 and 1.
pub proof fn lemma_contribution_bounds(v: VoiceView, rate: int)
    requires
        v.wf(),
        0 < rate,
    ensures
        -ONE <= contribution(v, rate) <= ONE,
{
    lemma_saw_sample_bounds(v.phase, rate);
    lemma_current_amplitude_bounds(v);
    lemma_scaled_bounds(saw_sample(v.phase, rate), v.current_amplitude());
}

/// Updating keeps the voices well-formed.
pub proof fn lemma_advanced_wf(voices: Map<int, VoiceView>, dt: int)
    requires
        voices_wf(voices),
        0 <= dt,
    ensures
        voices_wf(advanced(voices, dt)),
{
    assert forall|n: int| #[trigger] advanced(voices, dt).contains_key(n) implies 0 <= n
        < NOTE_COUNT && advanced(voices, dt)[n].wf() by {
        assert(voices.contains_key(n));
        lemma_voice_updated_wf(voices[n], dt);
    }
}

/// The notes below `upto` that have a voice.
spec fn notes_below(voices: Map<int, VoiceView>, upto: int) -> Set<int> {
    Set::new(|n: int| voices.contains_key(n) && n < upto)
}

/// Voices that all contribute `s` sum to `s` times their number, on the notes
/// below `upto`.
proof fn lemma_mix_sum_identical_below(voices: Map<int, VoiceView>, rate: int, s: int, upto: int)
    requires
        voices_wf(voices),
        forall|n: int| #[trigger] voices.contains_key(n) ==> contribution(voices[n], rate) == s,
        0 <= upto,
    ensures
        notes_below(voices, upto).finite(),
        mix_sum_below(voices, rate, upto) == notes_below(voices, upto).len() * s,
    decreases upto,
{
    if upto == 0 {
        assert(notes_below(voices, upto) =~= Set::empty());
    } else {
        lemma_mix_sum_identical_below(voices, rate, s, upto - 1);
        let lower = notes_below(voices, upto - 1);
        if voices.contains_key(upto - 1) {
            assert(notes_below(voices, upto) =~= lower.insert(upto - 1));
            assert((lower.len() + 1) * s == lower.len() * s + s) by (nonlinear_arith);
        } else {
            assert(notes_below(voices, upto) =~= lower);
        }
    }
}

/// Voices that all contribute `s` sum to `s` times their number.
pub proof fn lemma_mix_sum_identical(voices: Map<int, VoiceView>, rate: int, s: int)
    requires
        voices_wf(voices),
        forall|n: int| #[trigger] voices.contains_key(n) ==> contribution(voices[n], rate) == s,
    ensures
        mix_sum(voices, rate) == voices.len() * s,
{
    lemma_mix_sum_identical_below(voices, rate, s, NOTE_COUNT as int);
    assert(notes_below(voices, NOTE_COUNT as int) =~= voices.dom());
}

/// One list entry: a note and the view of its voice.
type Entry = (int, VoiceView);

/// The entries of a list of slots.
spec fn entries(slots: Seq<Slot>) -> Seq<Entry> {
    slots.map_values(|s: Slot| (s.note as int, s.voice@))
}

/// The map that a list of entries stands for.
spec fn table_of(e: Seq<Entry>) -> Map<int, VoiceView>
    decreases e.len(),
{
    if e.len() == 0 {
        Map::empty()
    } else {
        table_of(e.drop_last()).insert(e.last().0, e.last().1)
    }
}

/// No note occurs twice in the list.
spec fn distinct(e: Seq<Entry>) -> bool
    decreases e.len(),
{
    e.len() == 0 || (distinct(e.drop_last()) && !table_of(e.drop_last()).contains_key(e.last().0))
}

/// The sum of the contributions of the listed voices.
spec fn entries_sum(e: Seq<Entry>, rate: int) -> int
    decreases e.len(),
{
    if e.len() == 0 {
        0
    } else {
        entries_sum(e.drop_last(), rate) + contribution(e.last().1, rate)
    }
}

/// The list after the time `dt`, in the same order, without the voices that
/// are no longer active.
spec fn survivors(e: Seq<Entry>, dt: int) -> Seq<Entry>
    decreases e.len(),
{
    if e.len() == 0 {
        Seq::empty()
    } else {
        let rest = survivors(e.drop_last(), dt);
        let voice = e.last().1.updated(dt);
        if voice.is_active() {
            rest.push((e.last().0, voice))
        } else {
            rest
        }
    }
}

/// A note that no entry has is not in the map.
proof fn lemma_absent(e: Seq<Entry>, note: int)
    requires
        forall|i: int| 0 <= i < e.len() ==> (#[trigger] e[i]).0 != note,
    ensures
        !table_of(e).contains_key(note),
    decreases e.len(),
{
    if e.len() > 0 {
        let rest = e.drop_last();
        assert forall|i: int| 0 <= i < rest.len() implies (#[trigger] rest[i]).0 != note by {
            assert(rest[i] == e[i]);
        }
        lemma_absent(rest, note);
        assert(e.last() == e[e.len() - 1]);
    }
}

/// Every entry of a list without repeats is in the map, under its note.
proof fn lemma_lookup(e: Seq<Entry>, i: int)
    requires
        distinct(e),
        0 <= i < e.len(),
    ensures
        table_of(e).contains_key(e[i].0),
        table_of(e)[e[i].0] == e[i].1,
    decreases e.len(),
{
    let rest = e.drop_last();
    if i < e.len() - 1 {
        lemma_lookup(rest, i);
        assert(rest[i] == e[i]);
    }
}

/// Appending an entry inserts it into the map.
proof fn lemma_push(e: Seq<Entry>, x: Entry)
    ensures
        table_of(e.push(x)) == table_of(e).insert(x.0, x.1),
        distinct(e.push(x)) == (distinct(e) && !table_of(e).contains_key(x.0)),
        forall|rate: int| #[trigger]
            entries_sum(e.push(x), rate) == entries_sum(e, rate) + contribution(x.1, rate),
{
    assert(e.push(x).drop_last() =~= e);
}

/// Replacing the voice of one entry replaces it in the map.
proof fn lemma_replace(e: Seq<Entry>, i: int, voice: VoiceView)
    requires
        distinct(e),
        0 <= i < e.len(),
    ensures
        table_of(e.update(i, (e[i].0, voice))) == table_of(e).insert(e[i].0, voice),
        distinct(e.update(i, (e[i].0, voice))),
    decreases e.len(),
{
    let changed = e.update(i, (e[i].0, voice));
    let rest = e.drop_last();
    if i == e.len() - 1 {
        assert(changed.drop_last() =~= rest);
        assert(changed.last() == (e[i].0, voice));
        assert(table_of(changed) =~= table_of(e).insert(e[i].0, voice));
    } else {
        assert(rest[i] == e[i]);
        lemma_replace(rest, i, voice);
        lemma_lookup(rest, i);
        assert(changed.drop_last() =~= rest.update(i, (e[i].0, voice)));
        assert(changed.last() == e.last());
        assert(e.last().0 != e[i].0);
        assert(table_of(changed) =~= table_of(e).insert(e[i].0, voice));
    }
}

/// A list without repeats has as many entries as its map has notes.
proof fn lemma_count(e: Seq<Entry>)
    requires
        distinct(e),
    ensures
        table_of(e).dom().finite(),
        table_of(e).dom().len() == e.len(),
    decreases e.len(),
{
    if e.len() > 0 {
        lemma_count(e.drop_last());
    }
}

/// Adding a voice on a free note adds its contribution to the sum.
proof fn lemma_mix_sum_insert(
    voices: Map<int, VoiceView>,
    note: int,
    voice: VoiceView,
    rate: int,
    upto: int,
)
    requires
        !voices.contains_key(note),
    ensures
        mix_sum_below(voices.insert(note, voice), rate, upto) == mix_sum_below(voices, rate, upto)
            + if 0 <= note < upto {
            contribution(voice, rate)
        } else {
            0
        },
    decreases upto,
{
    if upto > 0 {
        lemma_mix_sum_insert(voices, note, voice, rate, upto - 1);
    }
}

/// The sum over a list without repeats is the sum over its map.
proof fn lemma_sum(e: Seq<Entry>, rate: int)
    requires
        distinct(e),
        voices_wf(table_of(e)),
    ensures
        entries_sum(e, rate) == mix_sum(table_of(e), rate),
    decreases e.len(),
{
    if e.len() == 0 {
        lemma_mix_sum_empty(rate, NOTE_COUNT as int);
    } else {
        let rest = e.drop_last();
        let x = e.last();
        assert(table_of(e).contains_key(x.0));
        assert forall|n: int| #[trigger] table_of(rest).contains_key(n) implies 0 <= n
            < NOTE_COUNT && table_of(rest)[n].wf() by {
            assert(table_of(e).contains_key(n));
        }
        lemma_sum(rest, rate);
        lemma_mix_sum_insert(table_of(rest), x.0, x.1, rate, NOTE_COUNT as int);
    }
}

/// The sum over no voices is 0.
proof fn lemma_mix_sum_empty(rate: int, upto: int)
    ensures
        mix_sum_below(Map::empty(), rate, upto) == 0,
    decreases upto,
{
    if upto > 0 {
        lemma_mix_sum_empty(rate, upto - 1);
    }
}

/// The survivors of a list without repeats have no repeats, and their map is
/// the map of the list, advanced.
proof fn lemma_survivors(e: Seq<Entry>, dt: int)
    requires
        distinct(e),
    ensures
        distinct(survivors(e, dt)),
        table_of(survivors(e, dt)) == advanced(table_of(e), dt),
    decreases e.len(),
{
    if e.len() == 0 {
        assert(table_of(survivors(e, dt)) =~= advanced(table_of(e), dt));
    } else {
        let rest = e.drop_last();
        let x = e.last();
        lemma_survivors(rest, dt);
        let kept = survivors(rest, dt);
        let voice = x.1.updated(dt);
        assert(!advanced(table_of(rest), dt).contains_key(x.0));
        if voice.is_active() {
            lemma_push(kept, (x.0, voice));
        }
        assert(table_of(survivors(e, dt)) =~= advanced(table_of(e), dt));
    }
}

/// The sum over a list stays within one level per entry.
proof fn lemma_entries_sum_bounds(e: Seq<Entry>, rate: int)
    requires
        distinct(e),
        voices_wf(table_of(e)),
        0 < rate,
    ensures
        -ONE * e.len() <= entries_sum(e, rate) <= ONE * e.len(),
    decreases e.len(),
{
    if e.len() > 0 {
        let rest = e.drop_last();
        let x = e.last();
        assert(table_of(e).contains_key(x.0));
        assert forall|n: int| #[trigger] table_of(rest).contains_key(n) implies 0 <= n
            < NOTE_COUNT && table_of(rest)[n].wf() by {
            assert(table_of(e).contains_key(n));
        }
        lemma_entries_sum_bounds(rest, rate);
        lemma_contribution_bounds(x.1, rate);
    }
}

/// The sum of the contributions stays within one level per voice.
pub proof fn lemma_mix_sum_bounds(table: &VoiceTable, rate: int)
    requires
        table.wf(),
        0 < rate,
    ensures
        -ONE * table@.len() <= mix_sum(table@, rate) <= ONE * table@.len(),
{
    let e = entries(table.slots@);
    lemma_entries_sum_bounds(e, rate);
    lemma_sum(e, rate);
    lemma_count(e);
}

impl View for VoiceTable {
    type V = Map<int, VoiceView>;

    closed spec fn view(&self) -> Map<int, VoiceView> {
        table_of(entries(self.slots@))
    }
}

impl VoiceTable {
    /// The table's invariant: no note is listed twice, every note is a note
    /// number and every voice is well-formed.
    pub closed spec fn wf(&self) -> bool {
        &&& distinct(entries(self.slots@))
        &&& voices_wf(self@)
    }

    /// What the invariant says of the table as a map. There is room for one
    /// voice per note number, and no more.
    pub proof fn lemma_wf(&self)
        requires
            self.wf(),
        ensures
            voices_wf(self@),
            self@.dom().finite(),
            self@.len() <= NOTE_COUNT,
    {
        lemma_count(entries(self.slots@));
        lemma_int_range(0, NOTE_COUNT as int);
        assert(self@.dom().subset_of(set_int_range(0, NOTE_COUNT as int)));
        lemma_len_subset(self@.dom(), set_int_range(0, NOTE_COUNT as int));
    }

    /// Creates an empty table with room for every note.
    pub fn new() -> (table: Self)
        ensures
            table@ == Map::<int, VoiceView>::empty(),
            table.wf(),
    {
        let table = VoiceTable { slots: Vec::with_capacity(NOTE_COUNT) };
        assert(entries(table.slots@) =~= Seq::empty());
        table
    }

    /// The number of live voices.
    pub fn len(&self) -> (n: usize)
        requires
            self.wf(),
        ensures
            n == self@.len(),
            n <= NOTE_COUNT,
    {
        proof {
            lemma_count(entries(self.slots@));
            self.lemma_wf();
        }
        self.slots.len()
    }

    /// The place of `note` in the list, if it has a voice.
    fn find(&self, note: u8) -> (place: Option<usize>)
        requires
            self.wf(),
        ensures
            match place {
                Some(i) => i < self.slots@.len() && self.slots@[i as int].note == note
                    && self@.contains_key(note as int) && self@[note as int]
                    == self.slots@[i as int].voice@,
                None => !self@.contains_key(note as int),
            },
    {
        let ghost e = entries(self.slots@);
        let mut i: usize = 0;
        while i < self.slots.len()
            invariant
                i <= self.slots@.len(),
                e == entries(self.slots@),
                distinct(e),
                forall|k: int| 0 <= k < i ==> (#[trigger] e[k]).0 != note,
            decreases self.slots@.len() - i,
        {
            if self.slots[i].note == note {
                proof {
                    lemma_lookup(e, i as int);
                }
                return Some(i);
            }
            i += 1;
        }
        proof {
            lemma_absent(e, note as int);
        }
        None
    }

    /// The voice on `note`, if there is one.
    pub fn get(&self, note: u8) -> (voice: Option<Voice>)
        requires
            self.wf(),
        ensures
            match voice {
                Some(v) => self@.contains_key(note as int) && v@ == self@[note as int],
                None => !self@.contains_key(note as int),
            },
    {
        match self.find(note) {
            Some(i) => Some(self.slots[i].voice),
            None => None,
        }
    }

    /// Puts `voice` on `note`, in place of the voice that was there, if any.
    pub fn insert(&mut self, note: u8, voice: Voice)
        requires
            old(self).wf(),
            note < NOTE_COUNT,
            voice.wf(),
        ensures
            final(self)@ == old(self)@.insert(note as int, voice@),
            final(self).wf(),
    {
        let ghost e = entries(self.slots@);
        match self.find(note) {
            Some(i) => {
                self.slots[i] = Slot { note, voice };
                proof {
                    lemma_replace(e, i as int, voice@);
                    assert(entries(self.slots@) =~= e.update(i as int, (e[i as int].0, voice@)));
                }
            },
            None => {
                self.slots.push(Slot { note, voice });
                proof {
                    lemma_push(e, (note as int, voice@));
                    assert(entries(self.slots@) =~= e.push((note as int, voice@)));
                }
            },
        }
    }

    /// Releases the voice on `note`, if there is one, and says whether there was.
    pub fn release(&mut self, note: u8) -> (found: bool)
        requires
            old(self).wf(),
        ensures
            found == old(self)@.contains_key(note as int),
            final(self)@ == if found {
                old(self)@.insert(note as int, old(self)@[note as int].released())
            } else {
                old(self)@
            },
            final(self).wf(),
    {
        let ghost e = entries(self.slots@);
        match self.find(note) {
            Some(i) => {
                let mut voice = self.slots[i].voice;
                voice.release();
                self.slots[i] = Slot { note, voice };
                proof {
                    lemma_replace(e, i as int, voice@);
                    assert(entries(self.slots@) =~= e.update(i as int, (e[i as int].0, voice@)));
                }
                true
            },
            None => false,
        }
    }

    /// Takes one sample from every voice and moves every voice forward by
    /// `dt` picoseconds. Returns the sum of the samples; the voices that are
    /// no longer active afterwards leave the table.
    pub fn render(&mut self, oscillator: &Oscillator, dt: u64) -> (sum: i64)
        requires
            old(self).wf(),
            oscillator.wf(),
        ensures
            sum == mix_sum(old(self)@, oscillator@),
            final(self)@ == advanced(old(self)@, dt as int),
            final(self).wf(),
    {
        let ghost before = entries(self.slots@);
        let ghost rate = oscillator@;
        let n = self.slots.len();
        proof {
            self.lemma_wf();
            lemma_count(before);
        }
        let mut sum: i64 = 0;
        let mut i: usize = 0;
        let mut j: usize = 0;
        while i < n
            invariant
                j <= i <= n <= NOTE_COUNT,
                self.slots@.len() == n,
                before.len() == n,
                distinct(before),
                voices_wf(table_of(before)),
                oscillator.wf(),
                rate == oscillator@,
                entries(self.slots@).subrange(i as int, n as int) == before.subrange(
                    i as int,
                    n as int,
                ),
                entries(self.slots@).take(j as int) == survivors(before.take(i as int), dt as int),
                sum == entries_sum(before.take(i as int), rate),
                -1_000_000_000 * i <= sum <= 1_000_000_000 * i,
            decreases n - i,
        {
            let slot = self.slots[i];
            let mut voice = slot.voice;
            proof {
                assert(entries(self.slots@).subrange(i as int, n as int)[0] == before[i as int]);
                assert(before[i as int] == (slot.note as int, voice@));
                lemma_lookup(before, i as int);
                lemma_contribution_bounds(voice@, rate);
                assert(before.take(i + 1).drop_last() =~= before.take(i as int));
            }
            let sample = oscillator.generate(voice.phase());
            let amplitude = voice.current_amplitude();
            sum = sum + scale(sample, amplitude);
            voice.update(dt);
            let ghost listed = entries(self.slots@);
            if voice.is_active() {
                self.slots[j] = Slot { note: slot.note, voice };
                proof {
                    assert(entries(self.slots@) =~= listed.update(
                        j as int,
                        (slot.note as int, voice@),
                    ));
                    assert(entries(self.slots@).take(j + 1) =~= listed.take(j as int).push(
                        (slot.note as int, voice@),
                    ));
                }
                j += 1;
            }
            i += 1;
            proof {
                assert(entries(self.slots@).subrange(i as int, n as int) =~= listed.subrange(
                    i - 1,
                    n as int,
                ).subrange(1, n - i + 1));
                assert(before.subrange(i as int, n as int) =~= before.subrange(
                    i - 1,
                    n as int,
                ).subrange(1, n - i + 1));
            }
        }
        self.slots.truncate(j);
        proof {
            assert(before.take(n as int) =~= before);
            assert(entries(self.slots@) =~= survivors(before, dt as int));
            lemma_survivors(before, dt as int);
            lemma_sum(before, rate);
            lemma_advanced_wf(table_of(before), dt as int);
        }
        sum
    }
}

} // verus!
