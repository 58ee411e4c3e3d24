//! Decoding of the shared analog sense line into edge-triggered button
//! events.
//!
//! A single analog reading maps to at most one button through three
//! non-overlapping threshold bands; readings between or outside the bands
//! decode to no button.  The decoder keeps one "currently pressed" flag per
//! button and reports an event exactly when a flag goes from up to down
//! (a rising edge); holding a button emits nothing further.

use vstd::prelude::*;

verus! {

/// Lower bound (exclusive) of the band for button 2.
pub const BAND2_LO: u16 = 700;
/// Upper bound (exclusive) of the band for button 2.
pub const BAND2_HI: u16 = 1000;
/// Lower bound (exclusive) of the band for button 1.
pub const BAND1_LO: u16 = 1800;
/// Upper bound (exclusive) of the band for button 1.
pub const BAND1_HI: u16 = 2200;
/// Lower bound (exclusive) of the band for button 0.
pub const BAND0_LO: u16 = 2300;
/// Upper bound (exclusive) of the band for button 0.
pub const BAND0_HI: u16 = 2600;

/// The threshold band a raw reading falls in, as the button it selects.
/// The highest band belongs to button 0 and the lowest to button 2; this
/// ordering is a fixed physical wiring contract.
pub open spec fn band_of(reading: u16) -> Option<u8> {
    if BAND2_LO < reading && reading < BAND2_HI {
        Some(2u8)
    } else if BAND1_LO < reading && reading < BAND1_HI {
        Some(1u8)
    } else if BAND0_LO < reading && reading < BAND0_HI {
        Some(0u8)
    } else {
        None
    }
}

/// Maps one raw analog sample to the button it selects, if any.
pub fn reading_to_button(reading: u16) -> (r: Option<u8>)
    ensures
        r == band_of(reading),
{
    if reading > BAND2_LO && reading < BAND2_HI {
        Some(2)
    } else if reading > BAND1_LO && reading < BAND1_HI {
        Some(1)
    } else if reading > BAND0_LO && reading < BAND0_HI {
        Some(0)
    } else {
        None
    }
}

/// At most one pressed flag is set: the sense line reports a single value
/// per poll, so two buttons are never seen down at once.
pub open spec fn at_most_one(flags: Seq<bool>) -> bool {
    forall|i: int, j: int|
        0 <= i < flags.len() && 0 <= j < flags.len() && flags[i] && flags[j] ==> i == j
}

/// The button currently held, read off a flag vector: the first set flag.
pub open spec fn flags_band(flags: Seq<bool>) -> Option<u8> {
    if flags.len() == 3 {
        if flags[0] {
            Some(0u8)
        } else if flags[1] {
            Some(1u8)
        } else if flags[2] {
            Some(2u8)
        } else {
            None
        }
    } else {
        None
    }
}

/// The flag vector after a poll that read `reading`: exactly the band's
/// button is marked down.
pub open spec fn step_flags(reading: u16) -> Seq<bool> {
    Seq::new(3, |i: int| band_of(reading) == Some(i as u8))
}

/// The event one poll emits: the band's button, but only when its flag was
/// not already set (the rising edge).
pub open spec fn step_event(flags: Seq<bool>, reading: u16) -> Option<u8> {
    match band_of(reading) {
        Some(b) => if !flags[b as int] {
            Some(b)
        } else {
            None
        },
        None => None,
    }
}

/// A singleton or empty sequence out of one optional event.
pub open spec fn evt_seq(e: Option<u8>) -> Seq<u8> {
    match e {
        Some(x) => seq![x],
        None => Seq::empty(),
    }
}

/// All events the decoder emits over a sequence of readings, starting from
/// the given flag vector.
pub open spec fn decoder_events(flags: Seq<bool>, rs: Seq<u16>) -> Seq<u8>
    decreases rs.len(),
{
    if rs.len() == 0 {
        Seq::empty()
    } else {
        evt_seq(step_event(flags, rs[0])) + decoder_events(step_flags(rs[0]), rs.subrange(1, rs.len() as int))
    }
}

/// The edge characterization: one event, carrying the band's button, at
/// each sample whose non-empty band differs from the previous sample's
/// band (the start of each contiguous run of samples in one band), and no
/// event anywhere else.  `prev` is the band of the sample before the
/// sequence, `None` when there was none or it selected no button.
pub open spec fn edge_events(prev: Option<u8>, rs: Seq<u16>) -> Seq<u8>
    decreases rs.len(),
{
    if rs.len() == 0 {
        Seq::empty()
    } else {
        let b = band_of(rs[0]);
        let head: Seq<u8> = match b {
            Some(x) => if prev != Some(x) {
                seq![x]
            } else {
                Seq::empty()
            },
            None => Seq::empty(),
        };
        head + edge_events(b, rs.subrange(1, rs.len() as int))
    }
}

/// The pressed flags the Button Decoder keeps between polls.
pub struct ButtonState {
    pressed: Vec<bool>,
}

impl ButtonState {
    /// One flag per button, and never two buttons down at once.
    pub closed spec fn wf(self) -> bool {
        self.pressed@.len() == 3 && at_most_one(self.pressed@)
    }

    /// The flag vector itself.
    pub closed spec fn flags(self) -> Seq<bool> {
        self.pressed@
    }

    /// The button currently held, if any.
    pub closed spec fn down(self) -> Option<u8> {
        flags_band(self.pressed@)
    }

    /// A fresh decoder state: no button down.
    pub fn new() -> (s: ButtonState)
        ensures
            s.wf(),
            s.flags() == seq![false, false, false],
            s.down() == None::<u8>,
    {
        let mut pressed: Vec<bool> = Vec::new();
        pressed.push(false);
        pressed.push(false);
        pressed.push(false);
        let s = ButtonState { pressed };
        proof {
            assert(s.pressed@ =~= seq![false, false, false]);
        }
        s
    }

    /// One poll cycle: replaces the flags with the new reading's band and
    /// reports the rising edge, if there is one.
    pub fn step(&mut self, reading: u16) -> (evt: Option<u8>)
        requires
            old(self).wf(),
        ensures
            final(self).wf(),
            final(self).flags() == step_flags(reading),
            evt == step_event(old(self).flags(), reading),
    {
        let band = reading_to_button(reading);
        let mut next: Vec<bool> = Vec::new();
        next.push(match band {
            Some(b) => b == 0,
            None => false,
        });
        next.push(match band {
            Some(b) => b == 1,
            None => false,
        });
        next.push(match band {
            Some(b) => b == 2,
            None => false,
        });
        let evt = match band {
            Some(b) => {
                proof {
                    assert(band_of(reading) == Some(b));
                    assert(b == 0 || b == 1 || b == 2);
                }
                if !self.pressed[b as usize] {
                    Some(b)
                } else {
                    None
                }
            },
            None => None,
        };
        self.pressed = next;
        proof {
            assert(self.pressed@ =~= step_flags(reading));
        }
        evt
    }
}

/// Under the at-most-one invariant, a flag is set exactly when the flag
/// vector reads as that button being held.
proof fn lemma_flag_iff_band(flags: Seq<bool>, x: u8)
    requires
        flags.len() == 3,
        at_most_one(flags),
        x < 3,
    ensures
        flags[x as int] <==> flags_band(flags) == Some(x),
{
}

/// The decoder is edge-triggered at the band level: over any sequence of
/// readings it emits exactly one event per contiguous run of samples
/// landing in the same non-empty threshold band immediately following a
/// run in a different band or in no band, and no other events.
pub proof fn lemma_edge_triggered(flags: Seq<bool>, rs: Seq<u16>)
    requires
        flags.len() == 3,
        at_most_one(flags),
    ensures
        decoder_events(flags, rs) == edge_events(flags_band(flags), rs),
    decreases rs.len(),
{
    if rs.len() > 0 {
        let f2 = step_flags(rs[0]);
        assert(f2.len() == 3);
        assert(at_most_one(f2));
        assert(flags_band(f2) == band_of(rs[0]));
        lemma_edge_triggered(f2, rs.subrange(1, rs.len() as int));
        match band_of(rs[0]) {
            Some(x) => {
                lemma_flag_iff_band(flags, x);
            },
            None => {},
        }
        assert(decoder_events(flags, rs) =~= edge_events(flags_band(flags), rs));
    }
}

/// A whole run in one band emits exactly one event, when the sample before
/// it was in a different band or in none: helper for the steady part.
proof fn lemma_steady(b: u8, rs: Seq<u16>)
    requires
        forall|k: int| 0 <= k < rs.len() ==> band_of(rs[k]) == Some(b),
    ensures
        edge_events(Some(b), rs) == Seq::<u8>::empty(),
    decreases rs.len(),
{
    if rs.len() > 0 {
        assert(band_of(rs[0]) == Some(b));
        let rest = rs.subrange(1, rs.len() as int);
        assert(forall|k: int| 0 <= k < rest.len() ==> band_of(rest[k]) == Some(b));
        lemma_steady(b, rest);
        assert(edge_events(Some(b), rs) =~= Seq::<u8>::empty());
    }
}

/// A contiguous run of samples all in the band of button `b`, entered from
/// a different band (or from none), yields exactly the one event `b`.
pub proof fn lemma_one_event_per_run(prev: Option<u8>, b: u8, rs: Seq<u16>)
    requires
        rs.len() > 0,
        forall|k: int| 0 <= k < rs.len() ==> band_of(rs[k]) == Some(b),
        prev != Some(b),
    ensures
        edge_events(prev, rs) == seq![b],
{
    assert(band_of(rs[0]) == Some(b));
    let rest = rs.subrange(1, rs.len() as int);
    assert(forall|k: int| 0 <= k < rest.len() ==> band_of(rest[k]) == Some(b));
    lemma_steady(b, rest);
    assert(edge_events(prev, rs) =~= seq![b]);
}

/// Samples that select no button — a reading of zero, one below all bands,
/// one inside a gap between bands, or one above all bands — never emit an
/// event, whatever came before them.
pub proof fn lemma_silent(prev: Option<u8>, rs: Seq<u16>)
    requires
        forall|k: int| 0 <= k < rs.len() ==> band_of(rs[k]) == None::<u8>,
    ensures
        edge_events(prev, rs) == Seq::<u8>::empty(),
    decreases rs.len(),
{
    if rs.len() > 0 {
        assert(band_of(rs[0]) == None::<u8>);
        let rest = rs.subrange(1, rs.len() as int);
        assert(forall|k: int| 0 <= k < rest.len() ==> band_of(rest[k]) == None::<u8>);
        lemma_silent(None, rest);
        assert(edge_events(prev, rs) =~= Seq::<u8>::empty());
    }
}

/// A reading of zero, and any reading in the gaps between or outside the
/// three bands, selects no button at all.
pub proof fn lemma_gaps_select_nothing(r: u16)
    requires
        r <= BAND2_LO || (BAND2_HI <= r && r <= BAND1_LO) || (BAND1_HI <= r && r <= BAND0_LO)
            || BAND0_HI <= r,
    ensures
        band_of(r) == None::<u8>,
{
}

} // verus!
