use vstd::prelude::*;

use crate::data::{Entry, Rec};
use crate::chars::{spec_trim, trim_str};
use crate::numbers::{parse_i32, spec_parse_i32};

verus! {

/// Numeric reading of a raw value cell: an empty cell counts as zero;
/// anything else must parse as a signed integer.
pub open spec fn spec_cell_int(cell: Seq<char>) -> Option<i32> {
    let t = spec_trim(cell);
    if t.len() == 0 {
        Option::Some(0i32)
    } else {
        spec_parse_i32(t)
    }
}

/// Ballast policy: zero is absent; malformed text is absent; values
/// beyond 40 kg in either direction are clamped to the nearest bound.
pub open spec fn spec_ballast_value(cell: Seq<char>) -> Option<i32> {
    match spec_cell_int(cell) {
        Option::None => Option::None,
        Option::Some(v) => if v == 0 {
            Option::None
        } else if v > 40 {
            Option::Some(40i32)
        } else if v < -40 {
            Option::Some(-40i32)
        } else {
            Option::Some(v)
        },
    }
}

/// Restrictor policy: zero is absent; malformed text is absent; a
/// negative restrictor is discarded, never clamped; values above 20%
/// are clamped to 20.
pub open spec fn spec_restrictor_value(cell: Seq<char>) -> Option<i32> {
    match spec_cell_int(cell) {
        Option::None => Option::None,
        Option::Some(v) => if v == 0 {
            Option::None
        } else if v < 0 {
            Option::None
        } else if v > 20 {
            Option::Some(20i32)
        } else {
            Option::Some(v)
        },
    }
}

/// Build a ballast record from a raw value cell for an already
/// resolved car and track; the restrictor side is left absent.
pub fn create_ballast_entry(weight_string: &str, model: u32, track: &String) -> (e: Entry)
    ensures
        e@ == (Rec {
            track: track@,
            car_model: model,
            ballast_kg: spec_ballast_value(weight_string@),
            restrictor: Option::None,
        }),
        e@.ballast_kg matches Option::Some(b) ==> -40 <= b <= 40 && b != 0,
{
    let t = trim_str(weight_string);
    let parsed: Option<i32> = if t.unicode_len() == 0 {
        Option::Some(0)
    } else {
        parse_i32(t)
    };
    let weight: Option<i32> = match parsed {
        Option::None => Option::None,
        Option::Some(v) => {
            if v == 0 {
                Option::None
            } else if v > 40 {
                Option::Some(40)
            } else if v < -40 {
                Option::Some(-40)
            } else {
                Option::Some(v)
            }
        },
    };
    Entry { track: track.clone(), car_model: model, ballast_kg: weight, restrictor: Option::None }
}

/// Build a restrictor record from a raw value cell for an already
/// resolved car and track; the ballast side is left absent.
pub fn create_restrictor_entry(restrictor_string: &str, model: u32, track: &String) -> (e: Entry)
    ensures
        e@ == (Rec {
            track: track@,
            car_model: model,
            ballast_kg: Option::None,
            restrictor: spec_restrictor_value(restrictor_string@),
        }),
        e@.restrictor matches Option::Some(p) ==> 0 < p <= 20,
{
    let t = trim_str(restrictor_string);
    let parsed: Option<i32> = if t.unicode_len() == 0 {
        Option::Some(0)
    } else {
        parse_i32(t)
    };
    let rest: Option<i32> = match parsed {
        Option::None => Option::None,
        Option::Some(v) => {
            if v == 0 {
                Option::None
            } else if v < 0 {
                Option::None
            } else if v > 20 {
                Option::Some(20)
            } else {
                Option::Some(v)
            }
        },
    };
    Entry { track: track.clone(), car_model: model, ballast_kg: Option::None, restrictor: rest }
}

} // verus!
