use vstd::prelude::*;

verus! {

/// The mathematical content of an adjustment record: the track as a
/// character sequence together with the plain fields.
pub struct Rec {
    pub track: Seq<char>,
    pub car_model: u32,
    pub ballast_kg: Option<i32>,
    pub restrictor: Option<i32>,
}

impl Rec {
    /// A record carries an adjustment only if one of its optional
    /// fields is present.
    pub open spec fn is_adjusted(&self) -> bool {
        self.ballast_kg is Some || self.restrictor is Some
    }
}

/// One balance-of-performance adjustment: a car at a track, with an
/// optional ballast weight (kg) and an optional air restrictor (%).
/// A zero adjustment is represented as an absent field, never as a
/// stored zero.
pub struct Entry {
    pub track: String,
    pub car_model: u32,
    pub ballast_kg: Option<i32>,
    pub restrictor: Option<i32>,
}

impl View for Entry {
    type V = Rec;

    open spec fn view(&self) -> Rec {
        Rec {
            track: self.track@,
            car_model: self.car_model,
            ballast_kg: self.ballast_kg,
            restrictor: self.restrictor,
        }
    }
}

impl Entry {
    /// An entry carries an adjustment only if one of its optional
    /// fields is present.
    pub open spec fn is_adjusted(&self) -> bool {
        self@.is_adjusted()
    }
}

/// The record contents of a sequence of entries.
pub open spec fn spec_entry_views(es: Seq<Entry>) -> Seq<Rec> {
    es.map_values(|e: Entry| e@)
}

impl Clone for Entry {
    fn clone(&self) -> (r: Self)
        ensures
            r@ == self@,
    {
        Entry {
            track: self.track.clone(),
            car_model: self.car_model,
            ballast_kg: self.ballast_kg,
            restrictor: self.restrictor,
        }
    }
}

impl PartialEq for Entry {
    fn eq(&self, other: &Self) -> (r: bool) {
        self.track == other.track && self.car_model == other.car_model
            && self.ballast_kg == other.ballast_kg && self.restrictor == other.restrictor
    }
}

impl vstd::std_specs::cmp::PartialEqSpecImpl for Entry {
    open spec fn obeys_eq_spec() -> bool {
        true
    }

    open spec fn eq_spec(&self, other: &Self) -> bool {
        self@ == other@
    }
}

/// A full record set: the order is the insertion order from decoding
/// and is kept only so that output is deterministic.
pub struct BOP {
    pub entries: Vec<Entry>,
}

/// Command-line choices as plain values; the shell that parses real
/// arguments hands the core a value of this shape.
pub struct Args {
    pub ballast: Option<String>,
    pub restrictor: Option<String>,
    pub output: Option<String>,
    pub json: Option<String>,
    pub verbose: bool,
    pub list_tracks: bool,
    pub list_carmodels: bool,
}

} // verus!
