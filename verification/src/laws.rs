use vstd::prelude::*;

use crate::BopType;
use crate::chars::{lemma_lex_le_total, lemma_lex_le_trans, spec_is_ws, spec_lex_le, spec_lower,
    spec_lower_char, spec_trim, spec_trim_back, spec_trim_front, spec_underscore};
use crate::data::Rec;
use crate::decode::{spec_make_rec, spec_zip_cells};
use crate::encode::{spec_any_cell, spec_cell_nonzero, spec_lookup, spec_table_has};
use crate::normalize::{spec_ballast_value, spec_cell_int, spec_restrictor_value};
use crate::resolve::{spec_normalize_track, spec_resolve_track};

verus! {

/// Ballast policy: for every cell whose text parses to a value v,
/// the stored value is present exactly when v is non-zero, lies in
/// [-40, 40], and equals v clamped to the nearest bound.
pub proof fn lemma_ballast_policy(cell: Seq<char>)
    ensures
        spec_cell_int(cell) is None ==> spec_ballast_value(cell) is None,
        spec_cell_int(cell) matches Option::Some(v) ==> {
            &&& spec_ballast_value(cell) is Some <==> v != 0
            &&& spec_ballast_value(cell) == (if v == 0 {
                Option::None
            } else if v > 40 {
                Option::Some(40i32)
            } else if v < -40 {
                Option::Some(-40i32)
            } else {
                Option::Some(v)
            })
        },
        spec_ballast_value(cell) matches Option::Some(b) ==> -40 <= b <= 40 && b != 0,
{
}

/// Restrictor policy: a negative value is discarded outright; a
/// non-negative parsed value v is stored as min(v, 20), and is
/// present exactly when that stored value is non-zero.
pub proof fn lemma_restrictor_policy(cell: Seq<char>)
    ensures
        spec_cell_int(cell) is None ==> spec_restrictor_value(cell) is None,
        spec_cell_int(cell) matches Option::Some(v) ==> {
            &&& v < 0 ==> spec_restrictor_value(cell) is None
            &&& v >= 0 ==> {
                let stored: int = if v > 20 {
                    20int
                } else {
                    v as int
                };
                spec_restrictor_value(cell) == (if stored == 0 {
                    Option::None::<i32>
                } else {
                    Option::Some(stored as i32)
                })
            }
        },
        spec_restrictor_value(cell) matches Option::Some(p) ==> 0 < p <= 20,
{
}

/// Whatever a cell lookup returns is a member of the record set.
pub proof fn lemma_lookup_member(rs: Seq<Rec>, car: u32, track: Seq<char>)
    ensures
        spec_lookup(rs, car, track) matches Option::Some(rec) ==> rs.contains(rec)
            && rec.car_model == car && rec.track == track,
    decreases rs.len(),
{
    if rs.len() > 0 {
        if rs.last().car_model == car && rs.last().track == track {
            assert(rs[rs.len() - 1] == rs.last());
        } else {
            lemma_lookup_member(rs.drop_last(), car, track);
            if spec_lookup(rs, car, track) is Some {
                let rec = spec_lookup(rs, car, track).unwrap();
                let i = choose|i: int| 0 <= i < rs.drop_last().len() && rs.drop_last()[i] == rec;
                assert(rs[i] == rs.drop_last()[i]);
            }
        }
    }
}

proof fn lemma_row_no_restrictor(rs: Seq<Rec>, car: u32, cols: Seq<Seq<char>>)
    requires
        forall|i: int| 0 <= i < rs.len() ==> (#[trigger] rs[i]).restrictor is None,
    ensures
        !crate::encode::spec_row_any(rs, car, cols, BopType::Restrictor),
    decreases cols.len(),
{
    if cols.len() > 0 {
        lemma_row_no_restrictor(rs, car, cols.drop_last());
        lemma_lookup_member(rs, car, cols.last());
        if spec_cell_nonzero(rs, car, cols.last(), BopType::Restrictor) {
            let rec = spec_lookup(rs, car, cols.last()).unwrap();
            let i = choose|i: int| 0 <= i < rs.len() && rs[i] == rec;
            assert(rs[i].restrictor is None);
        }
    }
}

proof fn lemma_cells_no_restrictor(rs: Seq<Rec>, cars: Seq<u32>, cols: Seq<Seq<char>>)
    requires
        forall|i: int| 0 <= i < rs.len() ==> (#[trigger] rs[i]).restrictor is None,
    ensures
        !spec_any_cell(rs, cars, cols, BopType::Restrictor),
    decreases cars.len(),
{
    if cars.len() > 0 {
        lemma_cells_no_restrictor(rs, cars.drop_last(), cols);
        lemma_row_no_restrictor(rs, cars.last(), cols);
    }
}

/// A record set whose records carry no restrictor at all never
/// produces a restrictor table: every cell of that table is zero,
/// and an all-zero table is not written.
pub proof fn lemma_ballast_only_no_restrictor_artifact(rs: Seq<Rec>)
    requires
        forall|i: int| 0 <= i < rs.len() ==> (#[trigger] rs[i]).restrictor is None,
    ensures
        !spec_table_has(rs, BopType::Restrictor),
{
    lemma_cells_no_restrictor(
        rs,
        crate::encode::spec_row_cars(rs),
        crate::encode::spec_col_tracks(rs),
    );
}

proof fn lemma_trim_front_lower(s: Seq<char>)
    ensures
        spec_trim_front(spec_lower(s)) == spec_lower(spec_trim_front(s)),
    decreases s.len(),
{
    if s.len() > 0 && spec_is_ws(s[0]) {
        lemma_trim_front_lower(s.drop_first());
        assert(spec_lower(s).drop_first() =~= spec_lower(s.drop_first()));
    } else if s.len() > 0 {
        assert(!spec_is_ws(spec_lower(s)[0]));
    }
}

proof fn lemma_trim_back_lower(s: Seq<char>)
    ensures
        spec_trim_back(spec_lower(s)) == spec_lower(spec_trim_back(s)),
    decreases s.len(),
{
    if s.len() > 0 && spec_is_ws(s[s.len() - 1]) {
        lemma_trim_back_lower(s.drop_last());
        assert(spec_lower(s).drop_last() =~= spec_lower(s.drop_last()));
    } else if s.len() > 0 {
        assert(!spec_is_ws(spec_lower(s)[s.len() - 1]));
    }
}

/// Trimming commutes with lowercasing.
pub proof fn lemma_trim_lower(s: Seq<char>)
    ensures
        spec_trim(spec_lower(s)) == spec_lower(spec_trim(s)),
{
    lemma_trim_front_lower(s);
    lemma_trim_back_lower(spec_trim_front(s));
}

/// The normal form of a track cell is unchanged by lowercasing the
/// raw input first.
pub proof fn lemma_normalize_case_insensitive(s: Seq<char>)
    ensures
        spec_normalize_track(spec_lower(s)) == spec_normalize_track(s),
{
    lemma_trim_lower(s);
    let t = spec_trim(s);
    assert(spec_lower(spec_underscore(spec_lower(t))) =~= spec_lower(spec_underscore(t))) by {
        assert forall|j: int|
            0 <= j < t.len() implies spec_lower(spec_underscore(spec_lower(t)))[j] == spec_lower(
            spec_underscore(t),
        )[j] by {
            let c = t[j];
            assert(spec_lower_char(spec_lower_char(c)) == spec_lower_char(c));
        }
    }
}

/// Track resolution is case-insensitive: lowercasing the raw cell
/// first never changes the outcome.
pub proof fn lemma_track_resolution_case_insensitive(s: Seq<char>)
    ensures
        spec_resolve_track(spec_lower(s)) == spec_resolve_track(s),
{
    lemma_normalize_case_insensitive(s);
}

/// No column misalignment in a decoded data row: every well-headed
/// column position contributes exactly the record built from the
/// value cell at that same position, whatever became of the other
/// header cells; and every emitted record comes from such a
/// position. A failed header cell therefore never shifts values
/// into a neighbouring column.
pub proof fn lemma_no_column_misalignment(
    vals: Seq<Seq<char>>,
    cols: Seq<Option<Seq<char>>>,
    model: u32,
    kind: BopType,
)
    ensures
        forall|k: int|
            #![trigger vals[k], cols[k]]
            0 <= k < vals.len() && k < cols.len() && cols[k] is Some ==> spec_zip_cells(
                vals,
                cols,
                model,
                kind,
            ).contains(spec_make_rec(kind, vals[k], model, cols[k].unwrap())),
        forall|p: int|
            0 <= p < spec_zip_cells(vals, cols, model, kind).len() ==> exists|k: int|
                0 <= k < vals.len() && k < cols.len() && cols[k] is Some && #[trigger] spec_zip_cells(
                    vals,
                    cols,
                    model,
                    kind,
                )[p] == spec_make_rec(kind, vals[k], model, cols[k].unwrap()),
    decreases vals.len(),
{
    let out = spec_zip_cells(vals, cols, model, kind);
    if vals.len() > 0 && cols.len() > 0 {
        lemma_no_column_misalignment(vals.drop_first(), cols.drop_first(), model, kind);
        let rest = spec_zip_cells(vals.drop_first(), cols.drop_first(), model, kind);
        let off: int = match cols[0] {
            Option::Some(_) => 1,
            Option::None => 0,
        };
        assert forall|k: int|
            #![trigger vals[k], cols[k]]
            0 <= k < vals.len() && k < cols.len() && cols[k] is Some implies out.contains(
            spec_make_rec(kind, vals[k], model, cols[k].unwrap()),
        ) by {
            if k == 0 {
                assert(out[0] == spec_make_rec(kind, vals[0], model, cols[0].unwrap()));
            } else {
                assert(vals.drop_first()[k - 1] == vals[k]);
                assert(cols.drop_first()[k - 1] == cols[k]);
                assert(rest.contains(spec_make_rec(kind, vals[k], model, cols[k].unwrap())));
                let p = choose|p: int|
                    0 <= p < rest.len() && rest[p] == spec_make_rec(
                        kind,
                        vals[k],
                        model,
                        cols[k].unwrap(),
                    );
                assert(out[p + off] == rest[p]);
            }
        }
        assert forall|p: int| 0 <= p < out.len() implies exists|k: int|
            0 <= k < vals.len() && k < cols.len() && cols[k] is Some && #[trigger] out[p]
                == spec_make_rec(kind, vals[k], model, cols[k].unwrap()) by {
            if off == 1 && p == 0 {
                assert(out[0] == spec_make_rec(kind, vals[0], model, cols[0].unwrap()));
            } else {
                assert(out[p] == rest[p - off]);
                let k0 = choose|k0: int|
                    0 <= k0 < vals.drop_first().len() && k0 < cols.drop_first().len()
                        && cols.drop_first()[k0] is Some && rest[p - off] == spec_make_rec(
                        kind,
                        vals.drop_first()[k0],
                        model,
                        cols.drop_first()[k0].unwrap(),
                    );
                assert(vals.drop_first()[k0] == vals[k0 + 1]);
                assert(cols.drop_first()[k0] == cols[k0 + 1]);
            }
        }
    }
}

/// Non-decreasing lexicographic order over a list of names.
pub open spec fn spec_lex_sorted(ts: Seq<Seq<char>>) -> bool {
    forall|i: int, j: int| 0 <= i < j < ts.len() ==> spec_lex_le(#[trigger] ts[i], #[trigger] ts[j])
}

proof fn lemma_sorted_insert_sorted(t: Seq<char>, ts: Seq<Seq<char>>)
    requires
        spec_lex_sorted(ts),
    ensures
        spec_lex_sorted(crate::encode::spec_sorted_insert(t, ts)),
    decreases ts.len(),
{
    let out = crate::encode::spec_sorted_insert(t, ts);
    if ts.len() == 0 {
    } else if spec_lex_le(t, ts[0]) {
        assert forall|i: int, j: int| 0 <= i < j < out.len() implies spec_lex_le(
            #[trigger] out[i],
            #[trigger] out[j],
        ) by {
            if i == 0 {
                assert(out[j] == ts[j - 1]);
                if j == 1 {
                } else {
                    assert(spec_lex_le(ts[0], ts[j - 1]));
                    lemma_lex_le_trans(t, ts[0], ts[j - 1]);
                }
            } else {
                assert(out[i] == ts[i - 1]);
                assert(out[j] == ts[j - 1]);
            }
        }
    } else {
        assert forall|i: int, j: int|
            0 <= i < j < ts.drop_first().len() implies spec_lex_le(
            #[trigger] ts.drop_first()[i],
            #[trigger] ts.drop_first()[j],
        ) by {
            assert(ts.drop_first()[i] == ts[i + 1]);
            assert(ts.drop_first()[j] == ts[j + 1]);
        }
        lemma_sorted_insert_sorted(t, ts.drop_first());
        crate::roundtrip::lemma_sorted_insert_members(t, ts.drop_first());
        let inner = crate::encode::spec_sorted_insert(t, ts.drop_first());
        assert forall|i: int, j: int| 0 <= i < j < out.len() implies spec_lex_le(
            #[trigger] out[i],
            #[trigger] out[j],
        ) by {
            if i == 0 {
                assert(out[0] == ts[0]);
                assert(out[j] == inner[j - 1]);
                if inner[j - 1] == t {
                    lemma_lex_le_total(t, ts[0]);
                } else {
                    assert(ts.drop_first().contains(inner[j - 1]));
                    let k = choose|k: int|
                        0 <= k < ts.drop_first().len() && ts.drop_first()[k] == inner[j - 1];
                    assert(ts[k + 1] == ts.drop_first()[k]);
                    assert(spec_lex_le(ts[0], ts[k + 1]));
                }
            } else {
                assert(out[i] == inner[i - 1]);
                assert(out[j] == inner[j - 1]);
            }
        }
    }
}

proof fn lemma_sort_tracks_sorted(ts: Seq<Seq<char>>)
    ensures
        spec_lex_sorted(crate::encode::spec_sort_tracks(ts)),
    decreases ts.len(),
{
    if ts.len() > 0 {
        lemma_sort_tracks_sorted(ts.drop_last());
        lemma_sorted_insert_sorted(ts.last(), crate::encode::spec_sort_tracks(ts.drop_last()));
    }
}

/// The column order of the dense tables is lexicographic: deliberately
/// a different policy than the first-encounter row order.
pub proof fn lemma_col_tracks_sorted(rs: Seq<Rec>)
    ensures
        spec_lex_sorted(crate::encode::spec_col_tracks(rs)),
{
    lemma_sort_tracks_sorted(crate::encode::spec_track_list(rs));
}

} // verus!
