use vstd::prelude::*;

use crate::BopType;
use crate::catalog::{get_car_name_from_id, spec_car_name};
use crate::chars::{lex_le, push_char, spec_lex_le};
use crate::data::{Entry, Rec, spec_entry_views};
use crate::catalog::spec_string_views;
use crate::numbers::{fmt_i32, fmt_u64, spec_fmt_int, spec_fmt_nat};

verus! {

/// The record a dense cell shows for a (car, track) pair: the last
/// record of the set with that pair, later records overwriting
/// earlier ones.
pub open spec fn spec_lookup(rs: Seq<Rec>, car: u32, track: Seq<char>) -> Option<Rec>
    decreases rs.len(),
{
    if rs.len() == 0 {
        Option::None
    } else if rs.last().car_model == car && rs.last().track == track {
        Option::Some(rs.last())
    } else {
        spec_lookup(rs.drop_last(), car, track)
    }
}

/// Distinct car ids of a record set, in first-encounter order; this
/// is the row order of the dense tables.
pub open spec fn spec_row_cars(rs: Seq<Rec>) -> Seq<u32>
    decreases rs.len(),
{
    if rs.len() == 0 {
        Seq::empty()
    } else {
        let prev = spec_row_cars(rs.drop_last());
        if prev.contains(rs.last().car_model) {
            prev
        } else {
            prev.push(rs.last().car_model)
        }
    }
}

/// Distinct tracks of a record set, in first-encounter order.
pub open spec fn spec_track_list(rs: Seq<Rec>) -> Seq<Seq<char>>
    decreases rs.len(),
{
    if rs.len() == 0 {
        Seq::empty()
    } else {
        let prev = spec_track_list(rs.drop_last());
        if prev.contains(rs.last().track) {
            prev
        } else {
            prev.push(rs.last().track)
        }
    }
}

/// Insert into a lexicographically sorted list.
pub open spec fn spec_sorted_insert(t: Seq<char>, ts: Seq<Seq<char>>) -> Seq<Seq<char>>
    decreases ts.len(),
{
    if ts.len() == 0 {
        seq![t]
    } else if spec_lex_le(t, ts[0]) {
        seq![t] + ts
    } else {
        seq![ts[0]] + spec_sorted_insert(t, ts.drop_first())
    }
}

/// Insertion sort by the lexicographic order.
pub open spec fn spec_sort_tracks(ts: Seq<Seq<char>>) -> Seq<Seq<char>>
    decreases ts.len(),
{
    if ts.len() == 0 {
        Seq::empty()
    } else {
        spec_sorted_insert(ts.last(), spec_sort_tracks(ts.drop_last()))
    }
}

/// Column order of the dense tables: the distinct tracks, sorted
/// lexicographically (deliberately not the row ordering policy).
pub open spec fn spec_col_tracks(rs: Seq<Rec>) -> Seq<Seq<char>> {
    spec_sort_tracks(spec_track_list(rs))
}

/// The numeric value a cell shows: the looked-up record's field, or
/// zero when the record or the field is absent.
pub open spec fn spec_cell_value(rs: Seq<Rec>, car: u32, track: Seq<char>, kind: BopType) -> i32 {
    match spec_lookup(rs, car, track) {
        Option::None => 0i32,
        Option::Some(rec) => match kind {
            BopType::Ballast => match rec.ballast_kg {
                Option::Some(b) => b,
                Option::None => 0i32,
            },
            BopType::Restrictor => match rec.restrictor {
                Option::Some(p) => p,
                Option::None => 0i32,
            },
        },
    }
}

/// Whether a cell shows a non-zero value; a table is only written
/// when some cell does, so an all-zero table is skipped entirely.
pub open spec fn spec_cell_nonzero(rs: Seq<Rec>, car: u32, track: Seq<char>, kind: BopType) -> bool {
    spec_cell_value(rs, car, track, kind) != 0
}

/// The header line: a leading empty cell, then one cell per track.
pub open spec fn spec_header_line(cols: Seq<Seq<char>>) -> Seq<char>
    decreases cols.len(),
{
    if cols.len() == 0 {
        Seq::empty()
    } else {
        spec_header_line(cols.drop_last()) + seq![','] + cols.last()
    }
}

/// Row label: the catalog display name, or the stringified id for an
/// id the catalog does not know (such input is not an error).
pub open spec fn spec_label(car: u32) -> Seq<char> {
    match spec_car_name(car) {
        Option::Some(n) => n,
        Option::None => spec_fmt_nat(car as int),
    }
}

/// One data row: the label, then one formatted value per column.
pub open spec fn spec_row_line(rs: Seq<Rec>, car: u32, cols: Seq<Seq<char>>, kind: BopType) -> Seq<
    char,
>
    decreases cols.len(),
{
    if cols.len() == 0 {
        spec_label(car)
    } else {
        spec_row_line(rs, car, cols.drop_last(), kind) + seq![','] + spec_fmt_int(
            spec_cell_value(rs, car, cols.last(), kind) as int,
        )
    }
}

/// All data rows, each followed by a newline.
pub open spec fn spec_rows_text(rs: Seq<Rec>, cars: Seq<u32>, cols: Seq<Seq<char>>, kind: BopType) -> Seq<
    char,
>
    decreases cars.len(),
{
    if cars.len() == 0 {
        Seq::empty()
    } else {
        spec_rows_text(rs, cars.drop_last(), cols, kind) + spec_row_line(
            rs,
            cars.last(),
            cols,
            kind,
        ) + seq!['\n']
    }
}

/// The full table text for one adjustment kind.
pub open spec fn spec_table_text(rs: Seq<Rec>, kind: BopType) -> Seq<char> {
    spec_header_line(spec_col_tracks(rs)) + seq!['\n'] + spec_rows_text(
        rs,
        spec_row_cars(rs),
        spec_col_tracks(rs),
        kind,
    )
}

/// Does any cell of one row show a non-zero value?
pub open spec fn spec_row_any(rs: Seq<Rec>, car: u32, cols: Seq<Seq<char>>, kind: BopType) -> bool
    decreases cols.len(),
{
    if cols.len() == 0 {
        false
    } else {
        spec_row_any(rs, car, cols.drop_last(), kind) || spec_cell_nonzero(
            rs,
            car,
            cols.last(),
            kind,
        )
    }
}

/// Does any cell of the whole table show a non-zero value?
pub open spec fn spec_any_cell(rs: Seq<Rec>, cars: Seq<u32>, cols: Seq<Seq<char>>, kind: BopType) -> bool
    decreases cars.len(),
{
    if cars.len() == 0 {
        false
    } else {
        spec_any_cell(rs, cars.drop_last(), cols, kind) || spec_row_any(
            rs,
            cars.last(),
            cols,
            kind,
        )
    }
}

/// Is the table for this kind produced at all? It is exactly when
/// some cell of it is non-zero.
pub open spec fn spec_table_has(rs: Seq<Rec>, kind: BopType) -> bool {
    spec_any_cell(rs, spec_row_cars(rs), spec_col_tracks(rs), kind)
}

fn contains_u32(v: &Vec<u32>, x: u32) -> (r: bool)
    ensures
        r == v@.contains(x),
{
    let n = v.len();
    let mut i: usize = 0;
    while i < n
        invariant
            0 <= i <= n == v@.len(),
            forall|j: int| 0 <= j < i ==> v@[j] != x,
        decreases n - i,
    {
        if v[i] == x {
            return true;
        }
        i += 1;
    }
    assert(!v@.contains(x));
    false
}

fn contains_track(v: &Vec<String>, t: &String) -> (r: bool)
    ensures
        r == spec_string_views(v@).contains(t@),
{
    let n = v.len();
    let mut i: usize = 0;
    while i < n
        invariant
            0 <= i <= n == v@.len(),
            forall|j: int| 0 <= j < i ==> v@[j]@ != t@,
        decreases n - i,
    {
        if v[i] == *t {
            assert(spec_string_views(v@)[i as int] == v@[i as int]@);
            return true;
        }
        i += 1;
    }
    assert forall|j: int| 0 <= j < spec_string_views(v@).len() implies spec_string_views(v@)[j]
        != t@ by {
        assert(spec_string_views(v@)[j] == v@[j]@);
    }
    false
}

/// The distinct car ids of the entry list, first encounter first.
#[verifier::loop_isolation(false)]
pub fn row_cars(entries: &Vec<Entry>) -> (r: Vec<u32>)
    ensures
        r@ == spec_row_cars(spec_entry_views(entries@)),
{
    let ghost rs = spec_entry_views(entries@);
    let n = entries.len();
    let mut r: Vec<u32> = Vec::new();
    let mut i: usize = 0;
    proof {
        assert(rs.subrange(0, 0) =~= Seq::<Rec>::empty());
        assert(r@ =~= spec_row_cars(rs.subrange(0, 0)));
    }
    while i < n
        invariant
            0 <= i <= n == entries@.len(),
            r@ == spec_row_cars(rs.subrange(0, i as int)),
        decreases n - i,
    {
        proof {
            assert(rs.subrange(0, i + 1).drop_last() =~= rs.subrange(0, i as int));
            assert(rs.subrange(0, i + 1).last() == rs[i as int]);
            assert(rs[i as int] == entries@[i as int]@);
        }
        let car = entries[i].car_model;
        if !contains_u32(&r, car) {
            r.push(car);
        }
        i += 1;
    }
    proof {
        assert(rs.subrange(0, n as int) =~= rs);
    }
    r
}

/// The distinct tracks of the entry list, first encounter first.
#[verifier::loop_isolation(false)]
pub fn track_list(entries: &Vec<Entry>) -> (r: Vec<String>)
    ensures
        spec_string_views(r@) == spec_track_list(spec_entry_views(entries@)),
{
    let ghost rs = spec_entry_views(entries@);
    let n = entries.len();
    let mut r: Vec<String> = Vec::new();
    let mut i: usize = 0;
    proof {
        assert(rs.subrange(0, 0) =~= Seq::<Rec>::empty());
        assert(spec_string_views(r@) =~= spec_track_list(rs.subrange(0, 0)));
    }
    while i < n
        invariant
            0 <= i <= n == entries@.len(),
            spec_string_views(r@) == spec_track_list(rs.subrange(0, i as int)),
        decreases n - i,
    {
        proof {
            assert(rs.subrange(0, i + 1).drop_last() =~= rs.subrange(0, i as int));
            assert(rs.subrange(0, i + 1).last() == rs[i as int]);
            assert(rs[i as int] == entries@[i as int]@);
        }
        if !contains_track(&r, &entries[i].track) {
            let t = entries[i].track.clone();
            r.push(t);
            proof {
                assert(spec_string_views(r@) =~= spec_track_list(rs.subrange(0, i as int)).push(
                    rs[i as int].track,
                ));
            }
        }
        i += 1;
    }
    proof {
        assert(rs.subrange(0, n as int) =~= rs);
    }
    r
}

proof fn lemma_sorted_insert_at(t: Seq<char>, ts: Seq<Seq<char>>, idx: int)
    requires
        0 <= idx <= ts.len(),
        forall|j: int| 0 <= j < idx ==> !spec_lex_le(t, #[trigger] ts[j]),
        idx < ts.len() ==> spec_lex_le(t, ts[idx]),
    ensures
        spec_sorted_insert(t, ts) == ts.subrange(0, idx) + seq![t] + ts.subrange(
            idx,
            ts.len() as int,
        ),
    decreases idx,
{
    if ts.len() == 0 {
        assert(spec_sorted_insert(t, ts) =~= ts.subrange(0, 0) + seq![t] + ts.subrange(0, 0));
    } else if idx == 0 {
        assert(seq![t] + ts =~= ts.subrange(0, 0) + seq![t] + ts.subrange(0, ts.len() as int));
    } else {
        assert forall|j: int| 0 <= j < idx - 1 implies !spec_lex_le(
            t,
            #[trigger] ts.drop_first()[j],
        ) by {
            assert(ts.drop_first()[j] == ts[j + 1]);
        }
        assert(idx - 1 < ts.drop_first().len() ==> ts.drop_first()[idx - 1] == ts[idx]);
        lemma_sorted_insert_at(t, ts.drop_first(), idx - 1);
        assert(ts.drop_first().subrange(0, idx - 1) =~= ts.subrange(1, idx));
        assert(ts.drop_first().subrange(idx - 1, ts.len() - 1) =~= ts.subrange(
            idx,
            ts.len() as int,
        ));
        assert(seq![ts[0]] + (ts.subrange(1, idx) + seq![t] + ts.subrange(idx, ts.len() as int))
            =~= ts.subrange(0, idx) + seq![t] + ts.subrange(idx, ts.len() as int));
    }
}

/// Insert a track into an already sorted column list.
#[verifier::loop_isolation(false)]
fn sorted_insert(r: &mut Vec<String>, t: String)
    ensures
        spec_string_views(final(r)@) == spec_sorted_insert(t@, spec_string_views(old(r)@)),
{
    let ghost ts = spec_string_views(r@);
    let n = r.len();
    let mut idx: usize = 0;
    while idx < n && !lex_le(t.as_str(), r[idx].as_str())
        invariant
            0 <= idx <= n == r@.len(),
            r@ == old(r)@,
            forall|j: int| 0 <= j < idx ==> !spec_lex_le(t@, #[trigger] ts[j]),
        decreases n - idx,
    {
        proof {
            assert(ts[idx as int] == r@[idx as int]@);
        }
        idx += 1;
    }
    proof {
        assert(idx < n ==> ts[idx as int] == r@[idx as int]@);
        lemma_sorted_insert_at(t@, ts, idx as int);
    }
    r.insert(idx, t);
    proof {
        assert(spec_string_views(r@) =~= ts.subrange(0, idx as int) + seq![t@] + ts.subrange(
            idx as int,
            ts.len() as int,
        ));
    }
}

/// Sort the distinct tracks lexicographically.
#[verifier::loop_isolation(false)]
pub fn sort_tracks(ts: Vec<String>) -> (r: Vec<String>)
    ensures
        spec_string_views(r@) == spec_sort_tracks(spec_string_views(ts@)),
{
    let ghost full = spec_string_views(ts@);
    let n = ts.len();
    let mut r: Vec<String> = Vec::new();
    let mut i: usize = 0;
    proof {
        assert(full.subrange(0, 0) =~= Seq::<Seq<char>>::empty());
        assert(spec_string_views(r@) =~= spec_sort_tracks(full.subrange(0, 0)));
    }
    while i < n
        invariant
            0 <= i <= n == ts@.len(),
            spec_string_views(r@) == spec_sort_tracks(full.subrange(0, i as int)),
        decreases n - i,
    {
        proof {
            assert(full.subrange(0, i + 1).drop_last() =~= full.subrange(0, i as int));
            assert(full.subrange(0, i + 1).last() == full[i as int]);
            assert(full[i as int] == ts@[i as int]@);
        }
        let t = ts[i].clone();
        sorted_insert(&mut r, t);
        i += 1;
    }
    proof {
        assert(full.subrange(0, n as int) =~= full);
    }
    r
}

/// The value one cell shows.
#[verifier::loop_isolation(false)]
fn cell_value(entries: &Vec<Entry>, car: u32, track: &String, kind: BopType) -> (r: i32)
    ensures
        r == spec_cell_value(spec_entry_views(entries@), car, track@, kind),
{
    let ghost rs = spec_entry_views(entries@);
    let mut idx = entries.len();
    proof {
        assert(rs.subrange(0, idx as int) =~= rs);
    }
    while idx > 0
        invariant
            0 <= idx <= entries@.len(),
            spec_lookup(rs, car, track@) == spec_lookup(rs.subrange(0, idx as int), car, track@),
        decreases idx,
    {
        proof {
            let sub = rs.subrange(0, idx as int);
            assert(sub.last() == rs[idx - 1]);
            assert(rs[idx - 1] == entries@[idx - 1]@);
            assert(sub.drop_last() =~= rs.subrange(0, idx - 1));
        }
        let e = &entries[idx - 1];
        if e.car_model == car && e.track == *track {
            let val: i32 = match kind {
                BopType::Ballast => match e.ballast_kg {
                    Option::Some(b) => b,
                    Option::None => 0,
                },
                BopType::Restrictor => match e.restrictor {
                    Option::Some(p) => p,
                    Option::None => 0,
                },
            };
            return val;
        }
        idx -= 1;
    }
    proof {
        assert(rs.subrange(0, 0) =~= Seq::<Rec>::empty());
    }
    0
}

/// Render the dense table of one kind; also reports whether any cell
/// of it is non-zero, which decides whether the table is written.
#[verifier::loop_isolation(false)]
pub fn render_table(entries: &Vec<Entry>, cars: &Vec<u32>, cols: &Vec<String>, kind: BopType) -> (r:
    (String, bool))
    requires
        cars@ == spec_row_cars(spec_entry_views(entries@)),
        spec_string_views(cols@) == spec_col_tracks(spec_entry_views(entries@)),
    ensures
        r.0@ == spec_table_text(spec_entry_views(entries@), kind),
        r.1 == spec_table_has(spec_entry_views(entries@), kind),
{
    let ghost rs = spec_entry_views(entries@);
    let ghost colviews = spec_string_views(cols@);
    let mut out = String::new();
    let ncols = cols.len();
    let mut c: usize = 0;
    proof {
        assert(colviews.subrange(0, 0) =~= Seq::<Seq<char>>::empty());
        assert(out@ =~= spec_header_line(colviews.subrange(0, 0)));
    }
    while c < ncols
        invariant
            0 <= c <= ncols == cols@.len(),
            out@ == spec_header_line(colviews.subrange(0, c as int)),
        decreases ncols - c,
    {
        proof {
            assert(colviews.subrange(0, c + 1).drop_last() =~= colviews.subrange(0, c as int));
            assert(colviews.subrange(0, c + 1).last() == colviews[c as int]);
            assert(colviews[c as int] == cols@[c as int]@);
        }
        push_char(&mut out, ',');
        out.append(cols[c].as_str());
        proof {
            assert(out@ =~= spec_header_line(colviews.subrange(0, c as int)) + seq![',']
                + colviews[c as int]);
        }
        c += 1;
    }
    push_char(&mut out, '\n');
    proof {
        assert(colviews.subrange(0, ncols as int) =~= colviews);
        assert(out@ =~= spec_header_line(colviews) + seq!['\n']);
    }
    let ghost headtext = spec_header_line(colviews) + seq!['\n'];

    let mut contains_anything = false;
    let ncars = cars.len();
    let mut ri: usize = 0;
    proof {
        assert(cars@.subrange(0, 0) =~= Seq::<u32>::empty());
        assert(spec_rows_text(rs, cars@.subrange(0, 0), colviews, kind) =~= Seq::<char>::empty());
        assert(out@ =~= headtext + spec_rows_text(rs, cars@.subrange(0, 0), colviews, kind));
    }
    while ri < ncars
        invariant
            0 <= ri <= ncars == cars@.len(),
            out@ == headtext + spec_rows_text(rs, cars@.subrange(0, ri as int), colviews, kind),
            contains_anything == spec_any_cell(rs, cars@.subrange(0, ri as int), colviews, kind),
        decreases ncars - ri,
    {
        let ghost rowsdone = spec_rows_text(rs, cars@.subrange(0, ri as int), colviews, kind);
        let ghost anydone = spec_any_cell(rs, cars@.subrange(0, ri as int), colviews, kind);
        proof {
            assert(cars@.subrange(0, ri + 1).drop_last() =~= cars@.subrange(0, ri as int));
            assert(cars@.subrange(0, ri + 1).last() == cars@[ri as int]);
        }
        let car = cars[ri];
        match get_car_name_from_id(car) {
            Option::Some(name) => {
                out.append(name.as_str());
            },
            Option::None => {
                let digits = fmt_u64(car as u64);
                out.append(digits.as_str());
            },
        }
        proof {
            assert(out@ =~= headtext + rowsdone + spec_label(cars@[ri as int]));
            assert(spec_row_line(rs, cars@[ri as int], colviews.subrange(0, 0), kind)
                == spec_label(cars@[ri as int]));
            assert(spec_row_any(rs, cars@[ri as int], colviews.subrange(0, 0), kind) == false);
        }
        let mut ci: usize = 0;
        while ci < ncols
            invariant
                0 <= ci <= ncols,
                out@ == headtext + rowsdone + spec_row_line(
                    rs,
                    cars@[ri as int],
                    colviews.subrange(0, ci as int),
                    kind,
                ),
                contains_anything == (anydone || spec_row_any(
                    rs,
                    cars@[ri as int],
                    colviews.subrange(0, ci as int),
                    kind,
                )),
            decreases ncols - ci,
        {
            proof {
                assert(colviews.subrange(0, ci + 1).drop_last() =~= colviews.subrange(
                    0,
                    ci as int,
                ));
                assert(colviews.subrange(0, ci + 1).last() == colviews[ci as int]);
                assert(colviews[ci as int] == cols@[ci as int]@);
            }
            let val = cell_value(entries, car, &cols[ci], kind);
            push_char(&mut out, ',');
            let digits = fmt_i32(val);
            out.append(digits.as_str());
            if val != 0 {
                contains_anything = true;
            }
            proof {
                assert(out@ =~= headtext + rowsdone + (spec_row_line(
                    rs,
                    cars@[ri as int],
                    colviews.subrange(0, ci as int),
                    kind,
                ) + seq![','] + spec_fmt_int(
                    spec_cell_value(rs, cars@[ri as int], colviews[ci as int], kind) as int,
                )));
            }
            ci += 1;
        }
        push_char(&mut out, '\n');
        proof {
            assert(colviews.subrange(0, ncols as int) =~= colviews);
            assert(out@ =~= headtext + (rowsdone + spec_row_line(
                rs,
                cars@[ri as int],
                colviews,
                kind,
            ) + seq!['\n']));
        }
        ri += 1;
    }
    proof {
        assert(cars@.subrange(0, ncars as int) =~= cars@);
    }
    (out, contains_anything)
}

/// The rendered CSV tables of a record set; an all-zero table is not
/// produced.
pub struct CsvTables {
    pub ballast: Option<String>,
    pub restrictor: Option<String>,
}

/// Pivot a sparse record set into its dense CSV tables. Each table
/// is produced exactly when some cell of it is non-zero, judged
/// independently per table, so an all-zero table yields no artifact.
pub fn bop2csv(entries: &Vec<Entry>) -> (r: CsvTables)
    ensures
        r.ballast is Some <==> spec_table_has(spec_entry_views(entries@), BopType::Ballast),
        r.ballast is Some ==> r.ballast.unwrap()@ == spec_table_text(
            spec_entry_views(entries@),
            BopType::Ballast,
        ),
        r.restrictor is Some <==> spec_table_has(spec_entry_views(entries@), BopType::Restrictor),
        r.restrictor is Some ==> r.restrictor.unwrap()@ == spec_table_text(
            spec_entry_views(entries@),
            BopType::Restrictor,
        ),
{
    let cars = row_cars(entries);
    let cols = sort_tracks(track_list(entries));
    let (btext, bhas) = render_table(entries, &cars, &cols, BopType::Ballast);
    let (rtext, rhas) = render_table(entries, &cars, &cols, BopType::Restrictor);
    CsvTables {
        ballast: if bhas {
            Option::Some(btext)
        } else {
            Option::None
        },
        restrictor: if rhas {
            Option::Some(rtext)
        } else {
            Option::None
        },
    }
}

} // verus!
