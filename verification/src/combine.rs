use vstd::prelude::*;

use crate::BopType;
use crate::data::{BOP, Entry, Rec, spec_entry_views};
use crate::decode::{parse_csv, spec_decode, spec_header_ok};

verus! {

/// First index holding the given (track, car) pair, if any.
pub open spec fn spec_find_pair(rs: Seq<Rec>, track: Seq<char>, car: u32) -> Option<int>
    decreases rs.len(),
{
    if rs.len() == 0 {
        Option::None
    } else if rs[0].track == track && rs[0].car_model == car {
        Option::Some(0int)
    } else {
        match spec_find_pair(rs.drop_first(), track, car) {
            Option::None => Option::None,
            Option::Some(i) => Option::Some(i + 1),
        }
    }
}

pub proof fn lemma_find_pair_range(rs: Seq<Rec>, track: Seq<char>, car: u32)
    ensures
        match spec_find_pair(rs, track, car) {
            Option::None => forall|j: int|
                0 <= j < rs.len() ==> !((#[trigger] rs[j]).track == track && rs[j].car_model
                    == car),
            Option::Some(i) => 0 <= i < rs.len() && rs[i].track == track && rs[i].car_model == car
                && forall|j: int|
                0 <= j < i ==> !((#[trigger] rs[j]).track == track && rs[j].car_model == car),
        },
    decreases rs.len(),
{
    if rs.len() > 0 && !(rs[0].track == track && rs[0].car_model == car) {
        lemma_find_pair_range(rs.drop_first(), track, car);
        match spec_find_pair(rs, track, car) {
            Option::None => {
                assert forall|j: int| 0 <= j < rs.len() implies !((#[trigger] rs[j]).track
                    == track && rs[j].car_model == car) by {
                    if j >= 1 {
                        assert(rs[j] == rs.drop_first()[j - 1]);
                    }
                }
            },
            Option::Some(i) => {
                assert(rs[i] == rs.drop_first()[i - 1]);
                assert forall|j: int| 0 <= j < i implies !((#[trigger] rs[j]).track == track
                    && rs[j].car_model == car) by {
                    if j >= 1 {
                        assert(rs[j] == rs.drop_first()[j - 1]);
                    }
                }
            },
        }
    }
}

/// Overlay one record: the first record with the same (track, car)
/// pair takes the overlay's restrictor; with no such record the
/// overlay is appended as new.
pub open spec fn spec_merge_one(base: Seq<Rec>, item: Rec) -> Seq<Rec> {
    match spec_find_pair(base, item.track, item.car_model) {
        Option::None => base.push(item),
        Option::Some(i) => base.update(
            i,
            Rec {
                track: base[i].track,
                car_model: base[i].car_model,
                ballast_kg: base[i].ballast_kg,
                restrictor: item.restrictor,
            },
        ),
    }
}

/// Overlay a whole decoded restrictor list onto a ballast list, in
/// order.
pub open spec fn spec_merge(base: Seq<Rec>, overlay: Seq<Rec>) -> Seq<Rec>
    decreases overlay.len(),
{
    if overlay.len() == 0 {
        base
    } else {
        spec_merge(spec_merge_one(base, overlay[0]), overlay.drop_first())
    }
}

/// Merge the records of a second decode pass (a restrictor source)
/// into the records of the first: on a (track, car) match the second
/// pass's restrictor overwrites; otherwise its record is appended.
#[verifier::loop_isolation(false)]
pub fn merge_restrictor(res: &mut Vec<Entry>, overlay: Vec<Entry>)
    ensures
        spec_entry_views(final(res)@) == spec_merge(
            spec_entry_views(old(res)@),
            spec_entry_views(overlay@),
        ),
{
    let ghost ov = spec_entry_views(overlay@);
    let m = overlay.len();
    let mut k: usize = 0;
    proof {
        assert(ov.subrange(0, m as int) =~= ov);
    }
    while k < m
        invariant
            0 <= k <= m == overlay@.len(),
            spec_merge(spec_entry_views(old(res)@), ov) == spec_merge(
                spec_entry_views(res@),
                ov.subrange(k as int, m as int),
            ),
        decreases m - k,
    {
        let ghost base = spec_entry_views(res@);
        let ghost rem = ov.subrange(k as int, m as int);
        proof {
            assert(rem[0] == ov[k as int]);
            assert(ov[k as int] == overlay@[k as int]@);
            assert(rem.drop_first() =~= ov.subrange(k + 1, m as int));
        }
        let item = &overlay[k];
        let n = res.len();
        let mut index: usize = 0;
        while index < n
            invariant
                0 <= index <= n == res@.len(),
                spec_entry_views(res@) == base,
                forall|j: int|
                    0 <= j < index ==> !((#[trigger] base[j]).track == item@.track
                        && base[j].car_model == item@.car_model),
            decreases n - index,
        {
            proof {
                assert(base[index as int] == res@[index as int]@);
            }
            let ent = &res[index];
            if item.track == ent.track && item.car_model == ent.car_model {
                break ;
            }
            index += 1;
        }
        proof {
            lemma_find_pair_range(base, item@.track, item@.car_model);
        }
        if index >= res.len() {
            proof {
                assert(spec_find_pair(base, item@.track, item@.car_model) is None);
            }
            let it = overlay[k].clone();
            res.push(it);
            proof {
                assert(spec_entry_views(res@) =~= base.push(overlay@[k as int]@));
            }
        } else {
            proof {
                assert(base[index as int] == res@[index as int]@);
                assert(spec_find_pair(base, item@.track, item@.car_model) == Option::Some(
                    index as int,
                ));
            }
            let rv = overlay[k].restrictor;
            res[index].restrictor = rv;
            proof {
                assert(spec_entry_views(res@) =~= base.update(
                    index as int,
                    Rec {
                        track: base[index as int].track,
                        car_model: base[index as int].car_model,
                        ballast_kg: base[index as int].ballast_kg,
                        restrictor: overlay@[k as int]@.restrictor,
                    },
                ));
            }
        }
        k += 1;
    }
    proof {
        assert(ov.subrange(m as int, m as int).len() == 0);
    }
}

/// The meaningful part of a record set: records with at least one
/// adjustment present, in their original order.
pub open spec fn spec_filter_adjusted(rs: Seq<Rec>) -> Seq<Rec>
    decreases rs.len(),
{
    if rs.len() == 0 {
        Seq::empty()
    } else {
        let rest = spec_filter_adjusted(rs.drop_last());
        if rs.last().is_adjusted() {
            rest.push(rs.last())
        } else {
            rest
        }
    }
}

/// Drop the records that carry no adjustment at all; the rest keep
/// their order.
#[verifier::loop_isolation(false)]
pub fn filter_adjusted(entries: Vec<Entry>) -> (r: Vec<Entry>)
    ensures
        spec_entry_views(r@) == spec_filter_adjusted(spec_entry_views(entries@)),
{
    let ghost rs = spec_entry_views(entries@);
    let n = entries.len();
    let mut r: Vec<Entry> = Vec::new();
    let mut i: usize = 0;
    proof {
        assert(rs.subrange(0, 0) =~= Seq::<Rec>::empty());
        assert(spec_entry_views(r@) =~= spec_filter_adjusted(rs.subrange(0, 0)));
    }
    while i < n
        invariant
            0 <= i <= n == entries@.len(),
            spec_entry_views(r@) == spec_filter_adjusted(rs.subrange(0, i as int)),
        decreases n - i,
    {
        proof {
            assert(rs.subrange(0, i + 1).drop_last() =~= rs.subrange(0, i as int));
            assert(rs.subrange(0, i + 1).last() == rs[i as int]);
            assert(rs[i as int] == entries@[i as int]@);
        }
        let keep = entries[i].ballast_kg.is_some() || entries[i].restrictor.is_some();
        if keep {
            proof {
                assert(rs[i as int].is_adjusted());
                assert(spec_filter_adjusted(rs.subrange(0, i + 1)) == spec_filter_adjusted(
                    rs.subrange(0, i as int),
                ).push(rs[i as int]));
            }
            let e = entries[i].clone();
            r.push(e);
            proof {
                assert(spec_entry_views(r@) =~= spec_filter_adjusted(
                    rs.subrange(0, i as int),
                ).push(rs[i as int]));
            }
        } else {
            proof {
                assert(!rs[i as int].is_adjusted());
                assert(spec_filter_adjusted(rs.subrange(0, i + 1)) == spec_filter_adjusted(
                    rs.subrange(0, i as int),
                ));
            }
        }
        i += 1;
    }
    proof {
        assert(rs.subrange(0, n as int) =~= rs);
    }
    r
}

/// The record set a ballast source and an optional restrictor
/// source denote together: both decoded, the restrictor pass merged
/// onto the ballast pass, and meaningless records dropped.
pub open spec fn spec_csv_to_bop(ballast_text: Seq<char>, restrictor_text: Option<Seq<char>>) -> Seq<
    Rec,
> {
    let b = spec_decode(ballast_text, BopType::Ballast);
    let m = match restrictor_text {
        Option::Some(rt) => spec_merge(b, spec_decode(rt, BopType::Restrictor)),
        Option::None => b,
    };
    spec_filter_adjusted(m)
}

/// Decode a ballast CSV text and, when given, a restrictor CSV text,
/// merge them, and keep only the records that carry an adjustment.
/// A source whose header row is empty is a structural failure and
/// yields no result at all, not a partial one.
pub fn csv_to_bop(ballast_text: &str, restrictor_text: Option<&str>) -> (r: Option<BOP>)
    ensures
        r is Some <==> spec_header_ok(ballast_text@) && (match restrictor_text {
            Option::Some(rt) => spec_header_ok(rt@),
            Option::None => true,
        }),
        r matches Option::Some(bop) ==> spec_entry_views(bop.entries@) == spec_csv_to_bop(
            ballast_text@,
            match restrictor_text {
                Option::Some(rt) => Option::Some(rt@),
                Option::None => Option::None,
            },
        ),
{
    let (mut res, _count) = match parse_csv(ballast_text, BopType::Ballast) {
        Option::Some(p) => p,
        Option::None => {
            return Option::None;
        },
    };
    match restrictor_text {
        Option::Some(rt) => {
            match parse_csv(rt, BopType::Restrictor) {
                Option::Some((rest_res, _rcount)) => {
                    merge_restrictor(&mut res, rest_res);
                },
                Option::None => {
                    return Option::None;
                },
            }
        },
        Option::None => {},
    }
    let entries = filter_adjusted(res);
    Option::Some(BOP { entries })
}

} // verus!
