use vstd::prelude::*;

use crate::catalog::{cars, get_car_name_from_id, spec_car_name, spec_car_views, spec_cars,
    spec_string_views, spec_tracks, tracks};
use crate::chars::{lower_char, lower_str, push_char, spec_lower, spec_lower_char, spec_split,
    spec_str_contains, spec_trim, spec_underscore, spec_views, split_str, str_contains, str_eq,
    trim_str};
use crate::numbers::{parse_u32, spec_parse_u32};

verus! {

/// Exact-string alias substitutions for colloquial track names,
/// applied after trimming, underscoring and lowercasing.
pub open spec fn spec_alias(s: Seq<char>) -> Seq<char> {
    if s == "bathurst"@ {
        "mount_panorama"@
    } else if s == "redbull_ring"@ {
        "red_bull_ring"@
    } else if s == "nordschleife"@ {
        "nurburgring_24h"@
    } else {
        s
    }
}

/// Normal form of a raw track cell: trim, spaces to underscores,
/// lowercase, then the alias table. Lowercasing is ASCII-only:
/// letters outside ASCII are kept as they are, which matches every
/// catalog identifier, since the catalog is ASCII throughout.
pub open spec fn spec_normalize_track(s: Seq<char>) -> Seq<char> {
    spec_alias(spec_lower(spec_underscore(spec_trim(s))))
}

/// First catalog track whose lowercase form equals the normalized
/// input.
pub open spec fn spec_track_match_in(ts: Seq<Seq<char>>, s: Seq<char>) -> Option<Seq<char>>
    decreases ts.len(),
{
    if ts.len() == 0 {
        Option::None
    } else if spec_lower(ts[0]) == s {
        Option::Some(ts[0])
    } else {
        spec_track_match_in(ts.drop_first(), s)
    }
}

/// Track resolution: the canonical catalog identifier the raw cell
/// stands for, if any.
pub open spec fn spec_resolve_track(s: Seq<char>) -> Option<Seq<char>> {
    spec_track_match_in(spec_tracks(), spec_normalize_track(s))
}

/// Resolve a raw header cell to a canonical track identifier.
pub fn validate_track(track_str: &str) -> (r: Option<String>)
    ensures
        r is Some <==> spec_resolve_track(track_str@) is Some,
        r is Some ==> r.unwrap()@ == spec_resolve_track(track_str@).unwrap(),
{
    let t = trim_str(track_str);
    let len = t.unicode_len();
    let mut norm = String::new();
    let mut i: usize = 0;
    while i < len
        invariant
            0 <= i <= len == t@.len(),
            norm@ =~= spec_lower(spec_underscore(t@.subrange(0, i as int))),
        decreases len - i,
    {
        let c0 = t.get_char(i);
        let c1 = if c0 == ' ' {
            '_'
        } else {
            c0
        };
        let c = lower_char(c1);
        push_char(&mut norm, c);
        proof {
            assert(spec_lower(spec_underscore(t@.subrange(0, i + 1))) =~= spec_lower(
                spec_underscore(t@.subrange(0, i as int)),
            ).push(spec_lower_char(if t@[i as int] == ' ' {
                '_'
            } else {
                t@[i as int]
            })));
        }
        i += 1;
    }
    proof {
        assert(t@.subrange(0, len as int) =~= t@);
    }
    let aliased: String = if str_eq(norm.as_str(), "bathurst") {
        String::from_str("mount_panorama")
    } else if str_eq(norm.as_str(), "redbull_ring") {
        String::from_str("red_bull_ring")
    } else if str_eq(norm.as_str(), "nordschleife") {
        String::from_str("nurburgring_24h")
    } else {
        norm
    };
    assert(aliased@ == spec_normalize_track(track_str@));
    let ts = tracks();
    let n = ts.len();
    let mut i: usize = 0;
    proof {
        assert(spec_tracks().subrange(0, n as int) =~= spec_tracks());
    }
    while i < n
        invariant
            0 <= i <= n == ts@.len(),
            spec_string_views(ts@) == spec_tracks(),
            aliased@ == spec_normalize_track(track_str@),
            spec_resolve_track(track_str@) == spec_track_match_in(
                spec_tracks().subrange(i as int, n as int),
                aliased@,
            ),
        decreases n - i,
    {
        proof {
            let rem = spec_tracks().subrange(i as int, n as int);
            assert(rem[0] == spec_tracks()[i as int]);
            assert(rem.drop_first() =~= spec_tracks().subrange(i + 1, n as int));
            assert(spec_string_views(ts@)[i as int] == ts@[i as int]@);
        }
        let low = lower_str(ts[i].as_str());
        if str_eq(low.as_str(), aliased.as_str()) {
            return Option::Some(ts[i].clone());
        }
        i += 1;
    }
    proof {
        assert(spec_tracks().subrange(i as int, n as int).len() == 0);
    }
    Option::None
}

/// Lowercase and trim each piece; keep the non-empty results.
pub open spec fn spec_tokens_of(pieces: Seq<Seq<char>>) -> Seq<Seq<char>>
    decreases pieces.len(),
{
    if pieces.len() == 0 {
        Seq::empty()
    } else {
        let rest = spec_tokens_of(pieces.drop_last());
        let tok = spec_lower(spec_trim(pieces.last()));
        if tok.len() > 0 {
            rest.push(tok)
        } else {
            rest
        }
    }
}

/// Lowercased non-empty search tokens of a raw car cell: the cell is
/// split on spaces and each piece trimmed and lowercased (ASCII-only,
/// like the rest of the matching; the catalog names are ASCII).
pub open spec fn spec_tokens(s: Seq<char>) -> Seq<Seq<char>> {
    spec_tokens_of(spec_split(s, ' '))
}

/// A car name (already lowercased) matches when it contains every
/// token as a substring.
pub open spec fn spec_all_tokens_match(name_low: Seq<char>, toks: Seq<Seq<char>>) -> bool
    decreases toks.len(),
{
    if toks.len() == 0 {
        true
    } else {
        spec_str_contains(name_low, toks[0]) && spec_all_tokens_match(name_low, toks.drop_first())
    }
}

/// First catalog car, in curated order, whose name matches every
/// token.
pub open spec fn spec_token_match_in(cs: Seq<(u32, Seq<char>)>, toks: Seq<Seq<char>>) -> Option<
    u32,
>
    decreases cs.len(),
{
    if cs.len() == 0 {
        Option::None
    } else if spec_all_tokens_match(spec_lower(cs[0].1), toks) {
        Option::Some(cs[0].0)
    } else {
        spec_token_match_in(cs.drop_first(), toks)
    }
}

/// Car resolution: a numeric cell must be a known catalog id; any
/// other cell is resolved by token search over the curated car list.
pub open spec fn spec_resolve_car(s: Seq<char>) -> Option<u32> {
    let t = spec_trim(s);
    match spec_parse_u32(t) {
        Option::Some(id) => if spec_car_name(id) is Some {
            Option::Some(id)
        } else {
            Option::None
        },
        Option::None => {
            let toks = spec_tokens(t);
            if toks.len() == 0 {
                Option::None
            } else {
                spec_token_match_in(spec_cars(), toks)
            }
        },
    }
}

/// Does this (lowercased) name contain every token?
fn all_tokens_match(name_low: &str, toks: &Vec<String>) -> (r: bool)
    ensures
        r == spec_all_tokens_match(name_low@, spec_string_views(toks@)),
{
    let n = toks.len();
    let ghost full = spec_string_views(toks@);
    let mut j: usize = 0;
    proof {
        assert(full.subrange(0, n as int) =~= full);
    }
    while j < n
        invariant
            0 <= j <= n == toks@.len(),
            full == spec_string_views(toks@),
            spec_all_tokens_match(name_low@, full) == spec_all_tokens_match(
                name_low@,
                full.subrange(j as int, n as int),
            ),
        decreases n - j,
    {
        proof {
            let rem = full.subrange(j as int, n as int);
            assert(rem[0] == full[j as int]);
            assert(rem.drop_first() =~= full.subrange(j + 1, n as int));
        }
        if !str_contains(name_low, toks[j].as_str()) {
            return false;
        }
        j += 1;
    }
    proof {
        assert(full.subrange(j as int, n as int).len() == 0);
    }
    true
}

/// Resolve a raw first-column cell to a catalog car id.
#[verifier::loop_isolation(false)]
pub fn validate_car_model(model_str: Option<&str>) -> (r: Option<u32>)
    ensures
        match model_str {
            Option::None => r is None,
            Option::Some(text) => r == spec_resolve_car(text@),
        },
{
    let text = match model_str {
        Option::Some(t) => t,
        Option::None => {
            return Option::None;
        },
    };
    let t = trim_str(text);
    match parse_u32(t) {
        Option::Some(id) => {
            if get_car_name_from_id(id).is_some() {
                return Option::Some(id);
            } else {
                return Option::None;
            }
        },
        Option::None => {},
    }
    let raw = split_str(t, ' ');
    let m = raw.len();
    let mut toks: Vec<String> = Vec::new();
    let ghost pieces = spec_views(raw@);
    let mut j: usize = 0;
    proof {
        assert(pieces.subrange(0, 0) =~= Seq::<Seq<char>>::empty());
        assert(spec_string_views(toks@) =~= spec_tokens_of(pieces.subrange(0, 0)));
    }
    while j < m
        invariant
            0 <= j <= m == raw@.len(),
            pieces == spec_views(raw@),
            spec_string_views(toks@) == spec_tokens_of(pieces.subrange(0, j as int)),
        decreases m - j,
    {
        let tr = trim_str(raw[j]);
        proof {
            assert(pieces[j as int] == raw@[j as int]@);
            assert(pieces.subrange(0, j + 1).drop_last() =~= pieces.subrange(0, j as int));
            assert(pieces.subrange(0, j + 1).last() == pieces[j as int]);
        }
        if tr.unicode_len() > 0 {
            let low = lower_str(tr);
            proof {
                assert(low@ == spec_lower(spec_trim(pieces[j as int])));
            }
            toks.push(low);
            proof {
                assert(spec_string_views(toks@) =~= spec_tokens_of(
                    pieces.subrange(0, j as int),
                ).push(spec_lower(spec_trim(pieces[j as int]))));
            }
        } else {
            proof {
                assert(spec_lower(spec_trim(pieces[j as int])).len() == 0);
            }
        }
        j += 1;
    }
    proof {
        assert(pieces.subrange(0, m as int) =~= pieces);
        assert(spec_trim(text@) == t@);
        assert(spec_string_views(toks@) == spec_tokens(t@));
    }
    if toks.len() == 0 {
        return Option::None;
    }
    let cs = cars();
    let n = cs.len();
    let ghost tokviews = spec_string_views(toks@);
    let mut i: usize = 0;
    proof {
        assert(spec_cars().subrange(0, n as int) =~= spec_cars());
    }
    while i < n
        invariant
            0 <= i <= n == cs@.len(),
            spec_car_views(cs@) == spec_cars(),
            tokviews == spec_string_views(toks@),
            tokviews.len() > 0,
            spec_token_match_in(spec_cars(), tokviews) == spec_token_match_in(
                spec_cars().subrange(i as int, n as int),
                tokviews,
            ),
        decreases n - i,
    {
        proof {
            let rem = spec_cars().subrange(i as int, n as int);
            assert(rem[0] == spec_cars()[i as int]);
            assert(rem.drop_first() =~= spec_cars().subrange(i + 1, n as int));
            assert(spec_car_views(cs@)[i as int] == (cs@[i as int].0, cs@[i as int].1@));
        }
        let name_low = lower_str(cs[i].1.as_str());
        if all_tokens_match(name_low.as_str(), &toks) {
            proof {
                assert(spec_all_tokens_match(spec_lower(spec_cars()[i as int].1), tokviews));
            }
            return Option::Some(cs[i].0);
        }
        i += 1;
    }
    proof {
        assert(spec_cars().subrange(i as int, n as int).len() == 0);
    }
    Option::None
}

} // verus!
