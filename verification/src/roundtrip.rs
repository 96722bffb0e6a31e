use vstd::prelude::*;

use crate::BopType;
use crate::catalog::spec_car_name;
use crate::chars::{lemma_find_at, lemma_find_none, lemma_find_range, spec_find, spec_is_ws,
    spec_split, spec_trim, spec_trim_back, spec_trim_front};
use crate::data::Rec;
use crate::decode::{spec_decode, spec_decode_row, spec_decode_rows, spec_header_cols,
    spec_is_blank_row, spec_make_rec, spec_resolve_cols, spec_zip_cells};
use crate::encode::{spec_cell_value, spec_col_tracks, spec_header_line, spec_label, spec_lookup,
    spec_row_cars, spec_row_line, spec_rows_text, spec_table_text};
use crate::laws::lemma_lookup_member;
use crate::numbers::{lemma_fmt_int_clean, lemma_parse_fmt_i32, spec_fmt_int, spec_is_digit};
use crate::combine::spec_csv_to_bop;
use crate::normalize::{spec_ballast_value, spec_cell_int, spec_restrictor_value};
use crate::resolve::{spec_resolve_car, spec_resolve_track};

verus! {

/// Trimming a sequence whose ends are not whitespace changes
/// nothing.
pub proof fn lemma_trim_identity(s: Seq<char>)
    requires
        s.len() > 0 ==> !spec_is_ws(s[0]) && !spec_is_ws(s[s.len() - 1]),
    ensures
        spec_trim(s) == s,
{
    assert(spec_trim_front(s) == s);
    assert(spec_trim_back(s) == s);
}

/// Splitting `x + sep + y` where `y` holds no separator appends `y`
/// as one more piece after the pieces of `x`.
pub proof fn lemma_split_append(x: Seq<char>, y: Seq<char>, sep: char)
    requires
        forall|j: int| 0 <= j < y.len() ==> #[trigger] y[j] != sep,
    ensures
        spec_split(x + seq![sep] + y, sep) == spec_split(x, sep) + seq![y],
    decreases x.len(),
{
    let whole = x + seq![sep] + y;
    lemma_find_range(x, sep);
    match spec_find(x, sep) {
        Option::None => {
            assert forall|j: int| 0 <= j < x.len() implies whole[j] != sep by {
                assert(whole[j] == x[j]);
            }
            assert(whole[x.len() as int] == sep);
            lemma_find_at(whole, sep, x.len() as int);
            assert(whole.subrange(0, x.len() as int) =~= x);
            assert(whole.subrange(x.len() as int + 1, whole.len() as int) =~= y);
            lemma_find_none(y, sep);
            assert(spec_split(y, sep) == seq![y]);
            assert(spec_split(whole, sep) == seq![x] + seq![y]);
            assert(spec_split(x, sep) == seq![x]);
        },
        Option::Some(i) => {
            assert forall|j: int| 0 <= j < i implies whole[j] != sep by {
                assert(whole[j] == x[j]);
            }
            assert(whole[i] == x[i]);
            lemma_find_at(whole, sep, i);
            let xrest = x.subrange(i + 1, x.len() as int);
            lemma_split_append(xrest, y, sep);
            assert(whole.subrange(0, i) =~= x.subrange(0, i));
            assert(whole.subrange(i + 1, whole.len() as int) =~= xrest + seq![sep] + y);
            assert(spec_split(whole, sep) == seq![x.subrange(0, i)] + (spec_split(xrest, sep)
                + seq![y]));
            assert(seq![x.subrange(0, i)] + (spec_split(xrest, sep) + seq![y]) =~= (seq![
                x.subrange(0, i),
            ] + spec_split(xrest, sep)) + seq![y]);
        },
    }
}

/// A formatted integer is non-empty, has no separator or whitespace
/// anywhere, and reads back as the value it was made from.
pub proof fn lemma_fmt_cell_clean(v: i32)
    ensures
        spec_fmt_int(v as int).len() > 0,
        forall|j: int|
            0 <= j < spec_fmt_int(v as int).len() ==> {
                &&& #[trigger] spec_fmt_int(v as int)[j] != ','
                &&& spec_fmt_int(v as int)[j] != '\n'
                &&& !spec_is_ws(spec_fmt_int(v as int)[j])
            },
        spec_trim(spec_fmt_int(v as int)) == spec_fmt_int(v as int),
{
    lemma_fmt_int_clean(v as int);
    let s = spec_fmt_int(v as int);
    assert forall|j: int| 0 <= j < s.len() implies {
        &&& #[trigger] s[j] != ','
        &&& s[j] != '\n'
        &&& !spec_is_ws(s[j])
    } by {
        assert(s[j] == '-' || spec_is_digit(s[j]));
    }
    lemma_trim_identity(s);
}

/// Reading a rendered ballast cell back through the value policy
/// gives the value exactly, zero standing for absent.
pub proof fn lemma_ballast_cell_round_trip(v: i32)
    requires
        -40 <= v <= 40,
    ensures
        spec_ballast_value(spec_fmt_int(v as int)) == (if v == 0 {
            Option::None::<i32>
        } else {
            Option::Some(v)
        }),
{
    lemma_fmt_cell_clean(v);
    lemma_parse_fmt_i32(v);
    assert(spec_cell_int(spec_fmt_int(v as int)) == Option::Some(v));
}

/// Reading a rendered restrictor cell back through the value policy
/// gives the value exactly, zero standing for absent.
pub proof fn lemma_restrictor_cell_round_trip(v: i32)
    requires
        0 <= v <= 20,
    ensures
        spec_restrictor_value(spec_fmt_int(v as int)) == (if v == 0 {
            Option::None::<i32>
        } else {
            Option::Some(v)
        }),
{
    lemma_fmt_cell_clean(v);
    lemma_parse_fmt_i32(v);
    assert(spec_cell_int(spec_fmt_int(v as int)) == Option::Some(v));
}

/// A canonical identifier as it appears in a rendered table: it is
/// non-empty, has no separator of either kind anywhere, and no
/// whitespace at its ends.
pub open spec fn spec_clean_ident(s: Seq<char>) -> bool {
    &&& s.len() > 0
    &&& !spec_is_ws(s[0])
    &&& !spec_is_ws(s[s.len() - 1])
    &&& forall|j: int| 0 <= j < s.len() ==> #[trigger] s[j] != ',' && s[j] != '\n'
}

/// A canonical record: its track is a canonical identifier that
/// resolves to itself, its car id has a catalog display name that
/// resolves back to the id, its values lie in the declared ranges
/// with zero stored as absent, and it carries an adjustment.
pub open spec fn spec_canonical_rec(r: Rec) -> bool {
    &&& spec_clean_ident(r.track)
    &&& spec_resolve_track(r.track) == Option::Some(r.track)
    &&& spec_car_name(r.car_model) is Some
    &&& spec_clean_ident(spec_car_name(r.car_model).unwrap())
    &&& spec_resolve_car(spec_car_name(r.car_model).unwrap()) == Option::Some(r.car_model)
    &&& match r.ballast_kg {
        Option::Some(b) => -40 <= b <= 40 && b != 0,
        Option::None => true,
    }
    &&& match r.restrictor {
        Option::Some(p) => 0 < p <= 20,
        Option::None => true,
    }
    &&& r.is_adjusted()
}

/// A canonical record set: every record canonical, and no two
/// records for the same (track, car) pair.
pub open spec fn spec_canonical(rs: Seq<Rec>) -> bool {
    &&& forall|i: int| 0 <= i < rs.len() ==> spec_canonical_rec(#[trigger] rs[i])
    &&& forall|i: int, j: int|
        0 <= i < j < rs.len() ==> !(rs[i].track == rs[j].track && rs[i].car_model
            == rs[j].car_model)
}

/// Splitting `x + sep + y` where `x` holds no separator peels `x`
/// off as the first piece.
pub proof fn lemma_split_prepend(x: Seq<char>, y: Seq<char>, sep: char)
    requires
        forall|j: int| 0 <= j < x.len() ==> #[trigger] x[j] != sep,
    ensures
        spec_split(x + seq![sep] + y, sep) == seq![x] + spec_split(y, sep),
{
    let whole = x + seq![sep] + y;
    assert forall|j: int| 0 <= j < x.len() implies whole[j] != sep by {
        assert(whole[j] == x[j]);
    }
    assert(whole[x.len() as int] == sep);
    lemma_find_at(whole, sep, x.len() as int);
    assert(whole.subrange(0, x.len() as int) =~= x);
    assert(whole.subrange(x.len() as int + 1, whole.len() as int) =~= y);
}

/// The columns wrapped as successful resolutions, in order.
pub open spec fn spec_all_some(cols: Seq<Seq<char>>) -> Seq<Option<Seq<char>>>
    decreases cols.len(),
{
    if cols.len() == 0 {
        Seq::empty()
    } else {
        seq![Option::Some(cols[0])] + spec_all_some(cols.drop_first())
    }
}

proof fn lemma_all_some_snoc(cols: Seq<Seq<char>>, t: Seq<char>)
    ensures
        spec_all_some(cols.push(t)) == spec_all_some(cols).push(Option::Some(t)),
    decreases cols.len(),
{
    let whole = cols.push(t);
    if cols.len() == 0 {
        assert(whole[0] == t);
        assert(whole.drop_first() =~= Seq::<Seq<char>>::empty());
        assert(spec_all_some(whole) == seq![Option::Some(t)] + spec_all_some(
            whole.drop_first(),
        ));
        assert(spec_all_some(whole.drop_first()) =~= Seq::<Option<Seq<char>>>::empty());
        assert(spec_all_some(cols) =~= Seq::<Option<Seq<char>>>::empty());
        assert(seq![Option::Some(t)] + Seq::<Option<Seq<char>>>::empty() =~= Seq::<
            Option<Seq<char>>,
        >::empty().push(Option::Some(t)));
    } else {
        lemma_all_some_snoc(cols.drop_first(), t);
        assert(whole[0] == cols[0]);
        assert(whole.drop_first() =~= cols.drop_first().push(t));
        assert(seq![Option::Some(cols[0])] + spec_all_some(cols.drop_first()).push(
            Option::Some(t),
        ) =~= (seq![Option::Some(cols[0])] + spec_all_some(cols.drop_first())).push(
            Option::Some(t),
        ));
    }
}

/// Header columns that resolve to themselves come back unchanged
/// from header-cell resolution.
proof fn lemma_resolve_cols_identity(cols: Seq<Seq<char>>)
    requires
        forall|c: int|
            0 <= c < cols.len() ==> spec_resolve_track(#[trigger] cols[c]) == Option::Some(
                cols[c],
            ),
    ensures
        spec_resolve_cols(cols) == spec_all_some(cols),
    decreases cols.len(),
{
    if cols.len() > 0 {
        assert forall|c: int|
            0 <= c < cols.drop_last().len() implies spec_resolve_track(
            #[trigger] cols.drop_last()[c],
        ) == Option::Some(cols.drop_last()[c]) by {
            assert(cols.drop_last()[c] == cols[c]);
        }
        lemma_resolve_cols_identity(cols.drop_last());
        lemma_all_some_snoc(cols.drop_last(), cols.last());
        assert(cols.drop_last().push(cols.last()) =~= cols);
    }
}

/// Every character of a header line is a comma or a character of one
/// of its columns; its first character is a comma.
proof fn lemma_header_line_chars(cols: Seq<Seq<char>>)
    requires
        forall|c: int| 0 <= c < cols.len() ==> spec_clean_ident(#[trigger] cols[c]),
    ensures
        forall|j: int|
            0 <= j < spec_header_line(cols).len() ==> #[trigger] spec_header_line(cols)[j]
                != '\n',
        cols.len() > 0 ==> spec_header_line(cols).len() > 0 && spec_header_line(cols)[0] == ','
            && !spec_is_ws(spec_header_line(cols).last()),
    decreases cols.len(),
{
    if cols.len() > 0 {
        assert forall|c: int|
            0 <= c < cols.drop_last().len() implies spec_clean_ident(
            #[trigger] cols.drop_last()[c],
        ) by {
            assert(cols.drop_last()[c] == cols[c]);
        }
        lemma_header_line_chars(cols.drop_last());
        let h = spec_header_line(cols);
        let prev = spec_header_line(cols.drop_last());
        let lastcol = cols.last();
        assert(spec_clean_ident(lastcol));
        assert forall|j: int| 0 <= j < h.len() implies #[trigger] h[j] != '\n' by {
            if j < prev.len() {
                assert(h[j] == prev[j]);
            } else if j == prev.len() {
                assert(h[j] == ',');
            } else {
                assert(h[j] == lastcol[j - prev.len() - 1]);
            }
        }
        assert(h.last() == lastcol[lastcol.len() - 1]);
        if cols.len() == 1 {
            assert(h[0] == ',');
        } else {
            assert(h[0] == prev[0]);
        }
    }
}

/// Splitting a header line on commas yields the empty first cell and
/// then the columns.
proof fn lemma_header_line_split(cols: Seq<Seq<char>>)
    requires
        forall|c: int| 0 <= c < cols.len() ==> spec_clean_ident(#[trigger] cols[c]),
    ensures
        spec_split(spec_header_line(cols), ',') == seq![Seq::<char>::empty()] + cols,
    decreases cols.len(),
{
    if cols.len() == 0 {
        assert(spec_header_line(cols).len() == 0);
        assert(spec_split(spec_header_line(cols), ',') == seq![spec_header_line(cols)]);
        assert(seq![spec_header_line(cols)] =~= seq![Seq::<char>::empty()] + cols);
    } else {
        assert forall|c: int|
            0 <= c < cols.drop_last().len() implies spec_clean_ident(
            #[trigger] cols.drop_last()[c],
        ) by {
            assert(cols.drop_last()[c] == cols[c]);
        }
        lemma_header_line_split(cols.drop_last());
        let lastcol = cols.last();
        assert(spec_clean_ident(lastcol));
        assert forall|j: int| 0 <= j < lastcol.len() implies #[trigger] lastcol[j] != ',' by {}
        lemma_split_append(spec_header_line(cols.drop_last()), lastcol, ',');
        assert((seq![Seq::<char>::empty()] + cols.drop_last()) + seq![lastcol] =~= seq![
            Seq::<char>::empty(),
        ] + cols);
    }
}

/// The record a dense cell denotes once decoded: the looked-up
/// record's field of the table's kind, nothing else.
pub open spec fn spec_cell_rec(rs: Seq<Rec>, car: u32, t: Seq<char>, kind: BopType) -> Rec {
    match kind {
        BopType::Ballast => Rec {
            track: t,
            car_model: car,
            ballast_kg: match spec_lookup(rs, car, t) {
                Option::Some(rec) => rec.ballast_kg,
                Option::None => Option::None,
            },
            restrictor: Option::None,
        },
        BopType::Restrictor => Rec {
            track: t,
            car_model: car,
            ballast_kg: Option::None,
            restrictor: match spec_lookup(rs, car, t) {
                Option::Some(rec) => rec.restrictor,
                Option::None => Option::None,
            },
        },
    }
}

/// One decoded row of the dense grid.
pub open spec fn spec_grid_row(rs: Seq<Rec>, car: u32, cols: Seq<Seq<char>>, kind: BopType) -> Seq<
    Rec,
>
    decreases cols.len(),
{
    if cols.len() == 0 {
        Seq::empty()
    } else {
        seq![spec_cell_rec(rs, car, cols[0], kind)] + spec_grid_row(
            rs,
            car,
            cols.drop_first(),
            kind,
        )
    }
}

/// The whole decoded grid, row-major.
pub open spec fn spec_grid(rs: Seq<Rec>, cars: Seq<u32>, cols: Seq<Seq<char>>, kind: BopType) -> Seq<
    Rec,
>
    decreases cars.len(),
{
    if cars.len() == 0 {
        Seq::empty()
    } else {
        spec_grid_row(rs, cars[0], cols, kind) + spec_grid(rs, cars.drop_first(), cols, kind)
    }
}

/// The rendered value cells of one row, in column order.
pub open spec fn spec_val_cells(rs: Seq<Rec>, car: u32, cols: Seq<Seq<char>>, kind: BopType) -> Seq<
    Seq<char>,
>
    decreases cols.len(),
{
    if cols.len() == 0 {
        Seq::empty()
    } else {
        seq![spec_fmt_int(spec_cell_value(rs, car, cols[0], kind) as int)] + spec_val_cells(
            rs,
            car,
            cols.drop_first(),
            kind,
        )
    }
}

/// The rendered lines of the data rows, in row order.
pub open spec fn spec_data_lines(rs: Seq<Rec>, cars: Seq<u32>, cols: Seq<Seq<char>>, kind: BopType) -> Seq<
    Seq<char>,
>
    decreases cars.len(),
{
    if cars.len() == 0 {
        Seq::empty()
    } else {
        seq![spec_row_line(rs, cars[0], cols, kind)] + spec_data_lines(
            rs,
            cars.drop_first(),
            cols,
            kind,
        )
    }
}

proof fn lemma_val_cells_snoc(rs: Seq<Rec>, car: u32, cols: Seq<Seq<char>>, t: Seq<char>, kind: BopType)
    ensures
        spec_val_cells(rs, car, cols.push(t), kind) == spec_val_cells(rs, car, cols, kind).push(
            spec_fmt_int(spec_cell_value(rs, car, t, kind) as int),
        ),
    decreases cols.len(),
{
    let whole = cols.push(t);
    let cell = spec_fmt_int(spec_cell_value(rs, car, t, kind) as int);
    if cols.len() == 0 {
        assert(whole[0] == t);
        assert(whole.drop_first() =~= Seq::<Seq<char>>::empty());
        assert(spec_val_cells(rs, car, whole.drop_first(), kind) =~= Seq::<Seq<char>>::empty());
        assert(seq![cell] + Seq::<Seq<char>>::empty() =~= Seq::<Seq<char>>::empty().push(cell));
        assert(spec_val_cells(rs, car, cols, kind) =~= Seq::<Seq<char>>::empty());
    } else {
        lemma_val_cells_snoc(rs, car, cols.drop_first(), t, kind);
        assert(whole[0] == cols[0]);
        assert(whole.drop_first() =~= cols.drop_first().push(t));
        let head = seq![spec_fmt_int(spec_cell_value(rs, car, cols[0], kind) as int)];
        assert(head + spec_val_cells(rs, car, cols.drop_first(), kind).push(cell) =~= (head
            + spec_val_cells(rs, car, cols.drop_first(), kind)).push(cell));
    }
}

/// Character facts about one rendered data row: it never holds a
/// newline, starts with the label's first character, and ends in a
/// non-space character.
proof fn lemma_row_line_chars(rs: Seq<Rec>, car: u32, cols: Seq<Seq<char>>, kind: BopType)
    requires
        spec_clean_ident(spec_label(car)),
    ensures
        spec_row_line(rs, car, cols, kind).len() > 0,
        spec_row_line(rs, car, cols, kind)[0] == spec_label(car)[0],
        !spec_is_ws(spec_row_line(rs, car, cols, kind).last()),
        forall|j: int|
            0 <= j < spec_row_line(rs, car, cols, kind).len()
                ==> #[trigger] spec_row_line(rs, car, cols, kind)[j] != '\n',
    decreases cols.len(),
{
    if cols.len() == 0 {
        assert(spec_row_line(rs, car, cols, kind) == spec_label(car));
    } else {
        lemma_row_line_chars(rs, car, cols.drop_last(), kind);
        let line = spec_row_line(rs, car, cols, kind);
        let prev = spec_row_line(rs, car, cols.drop_last(), kind);
        let v = spec_cell_value(rs, car, cols.last(), kind);
        lemma_fmt_cell_clean(v);
        let cell = spec_fmt_int(v as int);
        assert(line[0] == prev[0]);
        assert(line.last() == cell[cell.len() - 1]);
        assert forall|j: int| 0 <= j < line.len() implies #[trigger] line[j] != '\n' by {
            if j < prev.len() {
                assert(line[j] == prev[j]);
            } else if j == prev.len() {
                assert(line[j] == ',');
            } else {
                assert(line[j] == cell[j - prev.len() - 1]);
            }
        }
    }
}

/// Splitting a rendered data row on commas yields the label and then
/// the value cells.
proof fn lemma_row_line_split(rs: Seq<Rec>, car: u32, cols: Seq<Seq<char>>, kind: BopType)
    requires
        spec_clean_ident(spec_label(car)),
    ensures
        spec_split(spec_row_line(rs, car, cols, kind), ',') == seq![spec_label(car)]
            + spec_val_cells(rs, car, cols, kind),
    decreases cols.len(),
{
    if cols.len() == 0 {
        let lab = spec_label(car);
        assert forall|j: int| 0 <= j < lab.len() implies lab[j] != ',' by {}
        lemma_find_none(lab, ',');
        assert(spec_split(lab, ',') == seq![lab]);
        assert(seq![lab] =~= seq![lab] + spec_val_cells(rs, car, cols, kind));
    } else {
        lemma_row_line_split(rs, car, cols.drop_last(), kind);
        let v = spec_cell_value(rs, car, cols.last(), kind);
        lemma_fmt_cell_clean(v);
        let cell = spec_fmt_int(v as int);
        lemma_split_append(spec_row_line(rs, car, cols.drop_last(), kind), cell, ',');
        lemma_val_cells_snoc(rs, car, cols.drop_last(), cols.last(), kind);
        assert(cols.drop_last().push(cols.last()) =~= cols);
        assert((seq![spec_label(car)] + spec_val_cells(rs, car, cols.drop_last(), kind)) + seq![
            cell,
        ] =~= seq![spec_label(car)] + spec_val_cells(rs, car, cols.drop_last(), kind).push(
            cell,
        ));
    }
}

/// Zipping the rendered value cells back against their columns gives
/// exactly the grid row.
proof fn lemma_zip_grid(rs: Seq<Rec>, car: u32, cols: Seq<Seq<char>>, kind: BopType)
    requires
        spec_canonical(rs),
    ensures
        spec_zip_cells(
            spec_val_cells(rs, car, cols, kind),
            spec_all_some(cols),
            car,
            kind,
        ) == spec_grid_row(rs, car, cols, kind),
    decreases cols.len(),
{
    let vals = spec_val_cells(rs, car, cols, kind);
    let copts = spec_all_some(cols);
    if cols.len() == 0 {
        assert(vals.len() == 0);
        assert(spec_zip_cells(vals, copts, car, kind) =~= Seq::<Rec>::empty());
        assert(spec_grid_row(rs, car, cols, kind) =~= Seq::<Rec>::empty());
    } else {
        lemma_zip_grid(rs, car, cols.drop_first(), kind);
        let t = cols[0];
        let v = spec_cell_value(rs, car, t, kind);
        let cell = spec_fmt_int(v as int);
        assert(vals[0] == cell);
        assert(copts[0] == Option::Some(t));
        assert(vals.drop_first() =~= spec_val_cells(rs, car, cols.drop_first(), kind));
        assert(copts.drop_first() =~= spec_all_some(cols.drop_first()));
        lemma_lookup_member(rs, car, t);
        match spec_lookup(rs, car, t) {
            Option::Some(rec) => {
                let i = choose|i: int| 0 <= i < rs.len() && rs[i] == rec;
                assert(spec_canonical_rec(rs[i]));
            },
            Option::None => {},
        }
        match kind {
            BopType::Ballast => {
                assert(-40 <= v <= 40);
                lemma_ballast_cell_round_trip(v);
                assert(spec_make_rec(kind, cell, car, t) == spec_cell_rec(rs, car, t, kind));
            },
            BopType::Restrictor => {
                assert(0 <= v <= 20);
                lemma_restrictor_cell_round_trip(v);
                assert(spec_make_rec(kind, cell, car, t) == spec_cell_rec(rs, car, t, kind));
            },
        }
        assert(spec_zip_cells(vals, copts, car, kind) == seq![
            spec_cell_rec(rs, car, t, kind),
        ] + spec_grid_row(rs, car, cols.drop_first(), kind));
    }
}

/// Decoding one rendered data row yields its grid row.
proof fn lemma_decode_one_row(rs: Seq<Rec>, car: u32, cols: Seq<Seq<char>>, kind: BopType)
    requires
        spec_canonical(rs),
        spec_clean_ident(spec_label(car)),
        spec_resolve_car(spec_label(car)) == Option::Some(car),
    ensures
        spec_decode_row(
            spec_row_line(rs, car, cols, kind),
            spec_all_some(cols),
            kind,
        ) == spec_grid_row(rs, car, cols, kind),
{
    let line = spec_row_line(rs, car, cols, kind);
    lemma_row_line_chars(rs, car, cols, kind);
    lemma_trim_identity(line);
    lemma_row_line_split(rs, car, cols, kind);
    let cells = spec_split(spec_trim(line), ',');
    assert(cells[0] == spec_label(car));
    assert(cells.drop_first() =~= spec_val_cells(rs, car, cols, kind));
    lemma_zip_grid(rs, car, cols, kind);
}

/// The back-recursive rows text equals its first row followed by
/// the rows text of the rest.
proof fn lemma_rows_text_cons(rs: Seq<Rec>, cars: Seq<u32>, cols: Seq<Seq<char>>, kind: BopType)
    requires
        cars.len() > 0,
    ensures
        spec_rows_text(rs, cars, cols, kind) == spec_row_line(rs, cars[0], cols, kind) + seq![
            '\n',
        ] + spec_rows_text(rs, cars.drop_first(), cols, kind),
    decreases cars.len(),
{
    if cars.len() == 1 {
        assert(cars.drop_last() =~= Seq::<u32>::empty());
        assert(cars.drop_first() =~= Seq::<u32>::empty());
        assert(spec_rows_text(rs, cars.drop_last(), cols, kind) =~= Seq::<char>::empty());
        assert(spec_rows_text(rs, cars.drop_first(), cols, kind) =~= Seq::<char>::empty());
        assert(cars.last() == cars[0]);
        assert(Seq::<char>::empty() + spec_row_line(rs, cars[0], cols, kind) + seq!['\n']
            =~= spec_row_line(rs, cars[0], cols, kind) + seq!['\n'] + Seq::<char>::empty());
    } else {
        lemma_rows_text_cons(rs, cars.drop_last(), cols, kind);
        assert(cars.drop_last()[0] == cars[0]);
        assert(cars.drop_last().drop_first() =~= cars.drop_first().drop_last());
        assert(cars.drop_first().last() == cars.last());
        assert(spec_rows_text(rs, cars.drop_first(), cols, kind) == spec_rows_text(
            rs,
            cars.drop_first().drop_last(),
            cols,
            kind,
        ) + spec_row_line(rs, cars.last(), cols, kind) + seq!['\n']);
        let row0 = spec_row_line(rs, cars[0], cols, kind);
        let mid = spec_rows_text(rs, cars.drop_first().drop_last(), cols, kind);
        let lastrow = spec_row_line(rs, cars.last(), cols, kind);
        assert((row0 + seq!['\n'] + mid) + lastrow + seq!['\n'] =~= row0 + seq!['\n'] + (mid
            + lastrow + seq!['\n']));
    }
}

/// Splitting the rows text on newlines yields the data lines and a
/// final empty piece.
proof fn lemma_rows_text_split(rs: Seq<Rec>, cars: Seq<u32>, cols: Seq<Seq<char>>, kind: BopType)
    requires
        forall|r: int| 0 <= r < cars.len() ==> spec_clean_ident(spec_label(#[trigger] cars[r])),
    ensures
        spec_split(spec_rows_text(rs, cars, cols, kind), '\n') == spec_data_lines(
            rs,
            cars,
            cols,
            kind,
        ) + seq![Seq::<char>::empty()],
    decreases cars.len(),
{
    if cars.len() == 0 {
        assert(spec_rows_text(rs, cars, cols, kind).len() == 0);
        assert(spec_split(spec_rows_text(rs, cars, cols, kind), '\n') == seq![
            spec_rows_text(rs, cars, cols, kind),
        ]);
        assert(seq![spec_rows_text(rs, cars, cols, kind)] =~= spec_data_lines(
            rs,
            cars,
            cols,
            kind,
        ) + seq![Seq::<char>::empty()]);
    } else {
        lemma_rows_text_cons(rs, cars, cols, kind);
        assert(spec_clean_ident(spec_label(cars[0])));
        lemma_row_line_chars(rs, cars[0], cols, kind);
        assert forall|r: int|
            0 <= r < cars.drop_first().len() implies spec_clean_ident(
            spec_label(#[trigger] cars.drop_first()[r]),
        ) by {
            assert(cars.drop_first()[r] == cars[r + 1]);
        }
        lemma_rows_text_split(rs, cars.drop_first(), cols, kind);
        lemma_split_prepend(
            spec_row_line(rs, cars[0], cols, kind),
            spec_rows_text(rs, cars.drop_first(), cols, kind),
            '\n',
        );
        assert(seq![spec_row_line(rs, cars[0], cols, kind)] + (spec_data_lines(
            rs,
            cars.drop_first(),
            cols,
            kind,
        ) + seq![Seq::<char>::empty()]) =~= spec_data_lines(rs, cars, cols, kind) + seq![
            Seq::<char>::empty(),
        ]);
    }
}

/// Decoding the data lines (and the final empty line) yields the
/// grid.
proof fn lemma_decode_data_lines(rs: Seq<Rec>, cars: Seq<u32>, cols: Seq<Seq<char>>, kind: BopType)
    requires
        spec_canonical(rs),
        forall|r: int| 0 <= r < cars.len() ==> spec_clean_ident(spec_label(#[trigger] cars[r])),
        forall|r: int|
            0 <= r < cars.len() ==> spec_resolve_car(spec_label(#[trigger] cars[r]))
                == Option::Some(cars[r]),
    ensures
        spec_decode_rows(
            spec_data_lines(rs, cars, cols, kind) + seq![Seq::<char>::empty()],
            spec_all_some(cols),
            kind,
        ) == spec_grid(rs, cars, cols, kind),
    decreases cars.len(),
{
    let copts = spec_all_some(cols);
    if cars.len() == 0 {
        let lines = spec_data_lines(rs, cars, cols, kind) + seq![Seq::<char>::empty()];
        assert(lines =~= seq![Seq::<char>::empty()]);
        assert(spec_is_blank_row(lines[0]));
        assert(lines.drop_first() =~= Seq::<Seq<char>>::empty());
        assert(Seq::<Rec>::empty() + Seq::<Rec>::empty() =~= Seq::<Rec>::empty());
        reveal_with_fuel(spec_decode_rows, 2);
        assert(spec_decode_rows(lines, copts, kind) =~= Seq::<Rec>::empty());
        assert(spec_grid(rs, cars, cols, kind) =~= Seq::<Rec>::empty());
    } else {
        assert forall|r: int|
            0 <= r < cars.drop_first().len() implies spec_clean_ident(
            spec_label(#[trigger] cars.drop_first()[r]),
        ) && spec_resolve_car(spec_label(cars.drop_first()[r])) == Option::Some(
            cars.drop_first()[r],
        ) by {
            assert(cars.drop_first()[r] == cars[r + 1]);
        }
        lemma_decode_data_lines(rs, cars.drop_first(), cols, kind);
        let lines = spec_data_lines(rs, cars, cols, kind) + seq![Seq::<char>::empty()];
        let line0 = spec_row_line(rs, cars[0], cols, kind);
        assert(lines[0] == line0);
        assert(lines.drop_first() =~= spec_data_lines(rs, cars.drop_first(), cols, kind)
            + seq![Seq::<char>::empty()]);
        assert(spec_clean_ident(spec_label(cars[0])));
        lemma_row_line_chars(rs, cars[0], cols, kind);
        assert(!spec_is_blank_row(line0)) by {
            assert(line0[0] == spec_label(cars[0])[0]);
            assert(!spec_is_ws(line0[0]) && line0[0] != ',');
        }
        lemma_decode_one_row(rs, cars[0], cols, kind);
        assert(spec_decode_rows(lines, copts, kind) == spec_grid_row(rs, cars[0], cols, kind)
            + spec_grid(rs, cars.drop_first(), cols, kind));
    }
}

/// Every member of the first-encounter track list is the track of
/// some record.
proof fn lemma_track_list_members(rs: Seq<Rec>)
    ensures
        forall|c: int|
            0 <= c < crate::encode::spec_track_list(rs).len() ==> exists|i: int|
                0 <= i < rs.len() && (#[trigger] crate::encode::spec_track_list(rs)[c])
                    == rs[i].track,
    decreases rs.len(),
{
    let tl = crate::encode::spec_track_list(rs);
    if rs.len() > 0 {
        lemma_track_list_members(rs.drop_last());
        let prev = crate::encode::spec_track_list(rs.drop_last());
        assert forall|c: int| 0 <= c < tl.len() implies exists|i: int|
            0 <= i < rs.len() && (#[trigger] tl[c]) == rs[i].track by {
            if c < prev.len() {
                assert(tl[c] == prev[c]);
                let i = choose|i: int|
                    0 <= i < rs.drop_last().len() && prev[c] == rs.drop_last()[i].track;
                assert(rs.drop_last()[i] == rs[i]);
                assert(tl[c] == rs[i].track);
            } else {
                assert(tl[c] == rs.last().track);
                assert(tl[c] == rs[rs.len() - 1].track);
            }
        }
    }
}

/// Sorted insertion keeps exactly the members.
pub proof fn lemma_sorted_insert_members(t: Seq<char>, ts: Seq<Seq<char>>)
    ensures
        forall|c: int|
            0 <= c < crate::encode::spec_sorted_insert(t, ts).len() ==> (
            #[trigger] crate::encode::spec_sorted_insert(t, ts)[c]) == t || ts.contains(
                crate::encode::spec_sorted_insert(t, ts)[c],
            ),
    decreases ts.len(),
{
    let out = crate::encode::spec_sorted_insert(t, ts);
    if ts.len() == 0 {
    } else if crate::chars::spec_lex_le(t, ts[0]) {
        assert forall|c: int| 0 <= c < out.len() implies (#[trigger] out[c]) == t
            || ts.contains(out[c]) by {
            if c >= 1 {
                assert(out[c] == ts[c - 1]);
            }
        }
    } else {
        lemma_sorted_insert_members(t, ts.drop_first());
        let inner = crate::encode::spec_sorted_insert(t, ts.drop_first());
        assert forall|c: int| 0 <= c < out.len() implies (#[trigger] out[c]) == t
            || ts.contains(out[c]) by {
            if c == 0 {
                assert(out[0] == ts[0]);
                assert(ts.contains(ts[0]));
            } else {
                assert(out[c] == inner[c - 1]);
                if inner[c - 1] != t {
                    assert(ts.drop_first().contains(inner[c - 1]));
                    let k = choose|k: int|
                        0 <= k < ts.drop_first().len() && ts.drop_first()[k] == inner[c - 1];
                    assert(ts[k + 1] == ts.drop_first()[k]);
                }
            }
        }
    }
}

/// Every sorted column is a member of the unsorted track list.
proof fn lemma_sort_tracks_members(ts: Seq<Seq<char>>)
    ensures
        forall|c: int|
            0 <= c < crate::encode::spec_sort_tracks(ts).len() ==> ts.contains(
                #[trigger] crate::encode::spec_sort_tracks(ts)[c],
            ),
    decreases ts.len(),
{
    let out = crate::encode::spec_sort_tracks(ts);
    if ts.len() > 0 {
        lemma_sort_tracks_members(ts.drop_last());
        lemma_sorted_insert_members(ts.last(), crate::encode::spec_sort_tracks(ts.drop_last()));
        let inner = crate::encode::spec_sort_tracks(ts.drop_last());
        assert forall|c: int| 0 <= c < out.len() implies ts.contains(#[trigger] out[c]) by {
            if out[c] == ts.last() {
                assert(ts[ts.len() - 1] == ts.last());
            } else {
                assert(inner.contains(out[c]));
                let k = choose|k: int| 0 <= k < inner.len() && inner[k] == out[c];
                assert(ts.drop_last().contains(inner[k]));
                let j = choose|j: int|
                    0 <= j < ts.drop_last().len() && ts.drop_last()[j] == inner[k];
                assert(ts[j] == ts.drop_last()[j]);
            }
        }
    }
}

/// Every column of a record set's tables is the track of one of its
/// records.
pub proof fn lemma_cols_are_tracks(rs: Seq<Rec>)
    ensures
        forall|c: int|
            0 <= c < spec_col_tracks(rs).len() ==> exists|i: int|
                0 <= i < rs.len() && (#[trigger] spec_col_tracks(rs)[c]) == rs[i].track,
{
    lemma_track_list_members(rs);
    lemma_sort_tracks_members(crate::encode::spec_track_list(rs));
    let tl = crate::encode::spec_track_list(rs);
    let cols = spec_col_tracks(rs);
    assert forall|c: int| 0 <= c < cols.len() implies exists|i: int|
        0 <= i < rs.len() && (#[trigger] cols[c]) == rs[i].track by {
        assert(tl.contains(cols[c]));
        let k = choose|k: int| 0 <= k < tl.len() && tl[k] == cols[c];
    }
}

/// Every row car of a record set's tables is the car of one of its
/// records.
pub proof fn lemma_row_cars_members(rs: Seq<Rec>)
    ensures
        forall|r: int|
            0 <= r < spec_row_cars(rs).len() ==> exists|i: int|
                0 <= i < rs.len() && (#[trigger] spec_row_cars(rs)[r]) == rs[i].car_model,
    decreases rs.len(),
{
    let cl = spec_row_cars(rs);
    if rs.len() > 0 {
        lemma_row_cars_members(rs.drop_last());
        let prev = spec_row_cars(rs.drop_last());
        assert forall|r: int| 0 <= r < cl.len() implies exists|i: int|
            0 <= i < rs.len() && (#[trigger] cl[r]) == rs[i].car_model by {
            if r < prev.len() {
                assert(cl[r] == prev[r]);
                let i = choose|i: int|
                    0 <= i < rs.drop_last().len() && prev[r] == rs.drop_last()[i].car_model;
                assert(rs.drop_last()[i] == rs[i]);
            } else {
                assert(cl[r] == rs.last().car_model);
                assert(cl[r] == rs[rs.len() - 1].car_model);
            }
        }
    }
}

/// Decoding the rendered table of a canonical record set yields
/// exactly the dense grid of records, row-major: the text survives
/// the trip back through line splitting, identifier resolution and
/// value parsing.
pub proof fn lemma_table_decode(rs: Seq<Rec>, kind: BopType)
    requires
        spec_canonical(rs),
    ensures
        spec_decode(spec_table_text(rs, kind), kind) == spec_grid(
            rs,
            spec_row_cars(rs),
            spec_col_tracks(rs),
            kind,
        ),
{
    let cars = spec_row_cars(rs);
    let cols = spec_col_tracks(rs);
    lemma_cols_are_tracks(rs);
    lemma_row_cars_members(rs);
    assert forall|c: int| 0 <= c < cols.len() implies spec_clean_ident(#[trigger] cols[c])
        && spec_resolve_track(cols[c]) == Option::Some(cols[c]) by {
        let i = choose|i: int| 0 <= i < rs.len() && cols[c] == rs[i].track;
        assert(spec_canonical_rec(rs[i]));
    }
    assert forall|r: int| 0 <= r < cars.len() implies spec_clean_ident(
        spec_label(#[trigger] cars[r]),
    ) && spec_resolve_car(spec_label(cars[r])) == Option::Some(cars[r]) by {
        let i = choose|i: int| 0 <= i < rs.len() && cars[r] == rs[i].car_model;
        assert(spec_canonical_rec(rs[i]));
        assert(spec_label(cars[r]) == spec_car_name(rs[i].car_model).unwrap());
    }
    let h = spec_header_line(cols);
    lemma_header_line_chars(cols);
    let body = spec_rows_text(rs, cars, cols, kind);
    let text = spec_table_text(rs, kind);
    lemma_split_prepend(h, body, '\n');
    assert(text == h + seq!['\n'] + body);
    lemma_rows_text_split(rs, cars, cols, kind);
    let lines = spec_split(text, '\n');
    assert(lines == seq![h] + (spec_data_lines(rs, cars, cols, kind) + seq![
        Seq::<char>::empty(),
    ]));
    assert(lines[0] == h);
    assert(lines.drop_first() =~= spec_data_lines(rs, cars, cols, kind) + seq![
        Seq::<char>::empty(),
    ]);
    lemma_trim_identity(h);
    lemma_header_line_split(cols);
    assert(spec_split(spec_trim(h), ',').drop_first() =~= cols);
    lemma_resolve_cols_identity(cols);
    assert(spec_header_cols(h) == spec_all_some(cols));
    lemma_decode_data_lines(rs, cars, cols, kind);
}

/// The record a (car, track) pair denotes once both tables are read
/// back and merged: both fields of the looked-up record.
pub open spec fn spec_full_cell(rs: Seq<Rec>, car: u32, t: Seq<char>) -> Rec {
    Rec {
        track: t,
        car_model: car,
        ballast_kg: match spec_lookup(rs, car, t) {
            Option::Some(rec) => rec.ballast_kg,
            Option::None => Option::None,
        },
        restrictor: match spec_lookup(rs, car, t) {
            Option::Some(rec) => rec.restrictor,
            Option::None => Option::None,
        },
    }
}

/// Two equally laid out lists merged pointwise: the ballast side
/// keeps its fields, the overlay contributes its restrictor.
pub open spec fn spec_zip_merge(b: Seq<Rec>, r: Seq<Rec>) -> Seq<Rec> {
    Seq::new(
        b.len(),
        |i: int|
            Rec {
                track: b[i].track,
                car_model: b[i].car_model,
                ballast_kg: b[i].ballast_kg,
                restrictor: r[i].restrictor,
            },
    )
}

proof fn lemma_grid_row_index(rs: Seq<Rec>, car: u32, cols: Seq<Seq<char>>, kind: BopType)
    ensures
        spec_grid_row(rs, car, cols, kind).len() == cols.len(),
        forall|c: int|
            0 <= c < cols.len() ==> #[trigger] spec_grid_row(rs, car, cols, kind)[c]
                == spec_cell_rec(rs, car, cols[c], kind),
    decreases cols.len(),
{
    if cols.len() > 0 {
        lemma_grid_row_index(rs, car, cols.drop_first(), kind);
        let row = spec_grid_row(rs, car, cols, kind);
        assert forall|c: int| 0 <= c < cols.len() implies #[trigger] row[c] == spec_cell_rec(
            rs,
            car,
            cols[c],
            kind,
        ) by {
            if c >= 1 {
                assert(row[c] == spec_grid_row(rs, car, cols.drop_first(), kind)[c - 1]);
                assert(cols.drop_first()[c - 1] == cols[c]);
            }
        }
    }
}

/// Every grid element is the cell record of its own pair; every
/// (row, column) pair is covered by some grid element.
proof fn lemma_grid_props(rs: Seq<Rec>, cars: Seq<u32>, cols: Seq<Seq<char>>, kind: BopType)
    ensures
        forall|k: int|
            0 <= k < spec_grid(rs, cars, cols, kind).len() ==> {
                let g = #[trigger] spec_grid(rs, cars, cols, kind)[k];
                &&& g == spec_cell_rec(rs, g.car_model, g.track, kind)
                &&& cars.contains(g.car_model)
                &&& cols.contains(g.track)
            },
        forall|r: int, c: int|
            #![trigger cars[r], cols[c]]
            0 <= r < cars.len() && 0 <= c < cols.len() ==> exists|k: int|
                0 <= k < spec_grid(rs, cars, cols, kind).len() && #[trigger] spec_grid(
                    rs,
                    cars,
                    cols,
                    kind,
                )[k] == spec_cell_rec(rs, cars[r], cols[c], kind),
    decreases cars.len(),
{
    if cars.len() > 0 {
        lemma_grid_props(rs, cars.drop_first(), cols, kind);
        lemma_grid_row_index(rs, cars[0], cols, kind);
        let grid = spec_grid(rs, cars, cols, kind);
        let row0 = spec_grid_row(rs, cars[0], cols, kind);
        let rest = spec_grid(rs, cars.drop_first(), cols, kind);
        assert forall|k: int| 0 <= k < grid.len() implies {
            let g = #[trigger] grid[k];
            &&& g == spec_cell_rec(rs, g.car_model, g.track, kind)
            &&& cars.contains(g.car_model)
            &&& cols.contains(g.track)
        } by {
            if k < row0.len() {
                assert(grid[k] == row0[k]);
                assert(grid[k] == spec_cell_rec(rs, cars[0], cols[k], kind));
                assert(cars.contains(cars[0]));
                assert(cols.contains(cols[k]));
            } else {
                assert(grid[k] == rest[k - row0.len()]);
                let g = grid[k];
                assert(cars.drop_first().contains(g.car_model));
                let j = choose|j: int|
                    0 <= j < cars.drop_first().len() && cars.drop_first()[j] == g.car_model;
                assert(cars[j + 1] == cars.drop_first()[j]);
            }
        }
        assert forall|r: int, c: int|
            #![trigger cars[r], cols[c]]
            0 <= r < cars.len() && 0 <= c < cols.len() implies exists|k: int|
            0 <= k < grid.len() && #[trigger] grid[k] == spec_cell_rec(
                rs,
                cars[r],
                cols[c],
                kind,
            ) by {
            if r == 0 {
                assert(grid[c] == row0[c]);
                assert(grid[c] == spec_cell_rec(rs, cars[r], cols[c], kind));
            } else {
                assert(cars.drop_first()[r - 1] == cars[r]);
                let k = choose|k: int|
                    0 <= k < rest.len() && rest[k] == spec_cell_rec(
                        rs,
                        cars.drop_first()[r - 1],
                        cols[c],
                        kind,
                    );
                assert(grid[row0.len() + k] == rest[k]);
            }
        }
    }
}

/// With distinct rows and distinct columns no two grid elements
/// carry the same (track, car) pair.
proof fn lemma_grid_pairs_distinct(rs: Seq<Rec>, cars: Seq<u32>, cols: Seq<Seq<char>>, kind: BopType)
    requires
        forall|i: int, j: int| 0 <= i < j < cars.len() ==> cars[i] != cars[j],
        forall|i: int, j: int| 0 <= i < j < cols.len() ==> cols[i] != cols[j],
    ensures
        forall|k1: int, k2: int|
            0 <= k1 < k2 < spec_grid(rs, cars, cols, kind).len() ==> !(#[trigger] spec_grid(
                rs,
                cars,
                cols,
                kind,
            )[k1].track == #[trigger] spec_grid(rs, cars, cols, kind)[k2].track && spec_grid(
                rs,
                cars,
                cols,
                kind,
            )[k1].car_model == spec_grid(rs, cars, cols, kind)[k2].car_model),
    decreases cars.len(),
{
    if cars.len() > 0 {
        assert forall|i: int, j: int|
            0 <= i < j < cars.drop_first().len() implies cars.drop_first()[i]
            != cars.drop_first()[j] by {
            assert(cars.drop_first()[i] == cars[i + 1]);
            assert(cars.drop_first()[j] == cars[j + 1]);
        }
        lemma_grid_pairs_distinct(rs, cars.drop_first(), cols, kind);
        lemma_grid_props(rs, cars.drop_first(), cols, kind);
        lemma_grid_row_index(rs, cars[0], cols, kind);
        let grid = spec_grid(rs, cars, cols, kind);
        let row0 = spec_grid_row(rs, cars[0], cols, kind);
        let rest = spec_grid(rs, cars.drop_first(), cols, kind);
        assert forall|k1: int, k2: int|
            0 <= k1 < k2 < grid.len() implies !(#[trigger] grid[k1].track
            == #[trigger] grid[k2].track && grid[k1].car_model == grid[k2].car_model) by {
            if k2 < row0.len() {
                assert(grid[k1] == row0[k1]);
                assert(grid[k2] == row0[k2]);
                assert(grid[k1].track == cols[k1]);
                assert(grid[k2].track == cols[k2]);
            } else if k1 < row0.len() {
                assert(grid[k1] == row0[k1]);
                assert(grid[k1].car_model == cars[0]);
                assert(grid[k2] == rest[k2 - row0.len()]);
                assert(cars.drop_first().contains(grid[k2].car_model));
                let j = choose|j: int|
                    0 <= j < cars.drop_first().len() && cars.drop_first()[j]
                        == grid[k2].car_model;
                assert(cars[j + 1] == cars.drop_first()[j]);
            } else {
                assert(grid[k1] == rest[k1 - row0.len()]);
                assert(grid[k2] == rest[k2 - row0.len()]);
            }
        }
    }
}

/// The two tables share one layout: element for element, the same
/// (track, car) pair.
proof fn lemma_grids_aligned(rs: Seq<Rec>, cars: Seq<u32>, cols: Seq<Seq<char>>)
    ensures
        spec_grid(rs, cars, cols, BopType::Ballast).len() == spec_grid(
            rs,
            cars,
            cols,
            BopType::Restrictor,
        ).len(),
        forall|k: int|
            0 <= k < spec_grid(rs, cars, cols, BopType::Ballast).len() ==> {
                &&& (#[trigger] spec_grid(rs, cars, cols, BopType::Ballast)[k]).track
                    == spec_grid(rs, cars, cols, BopType::Restrictor)[k].track
                &&& spec_grid(rs, cars, cols, BopType::Ballast)[k].car_model == spec_grid(
                    rs,
                    cars,
                    cols,
                    BopType::Restrictor,
                )[k].car_model
            },
    decreases cars.len(),
{
    if cars.len() > 0 {
        lemma_grids_aligned(rs, cars.drop_first(), cols);
        lemma_grid_row_index(rs, cars[0], cols, BopType::Ballast);
        lemma_grid_row_index(rs, cars[0], cols, BopType::Restrictor);
        let bg = spec_grid(rs, cars, cols, BopType::Ballast);
        let rg = spec_grid(rs, cars, cols, BopType::Restrictor);
        let brow = spec_grid_row(rs, cars[0], cols, BopType::Ballast);
        let rrow = spec_grid_row(rs, cars[0], cols, BopType::Restrictor);
        assert forall|k: int| 0 <= k < bg.len() implies {
            &&& (#[trigger] bg[k]).track == rg[k].track
            &&& bg[k].car_model == rg[k].car_model
        } by {
            if k < brow.len() {
                assert(bg[k] == brow[k]);
                assert(rg[k] == rrow[k]);
            } else {
                assert(bg[k] == spec_grid(rs, cars.drop_first(), cols, BopType::Ballast)[k
                    - brow.len()]);
                assert(rg[k] == spec_grid(rs, cars.drop_first(), cols, BopType::Restrictor)[k
                    - rrow.len()]);
            }
        }
    }
}

proof fn lemma_find_pair_first(rs: Seq<Rec>, track: Seq<char>, car: u32, k: int)
    requires
        0 <= k < rs.len(),
        rs[k].track == track && rs[k].car_model == car,
        forall|j: int| 0 <= j < k ==> !((#[trigger] rs[j]).track == track && rs[j].car_model == car),
    ensures
        crate::combine::spec_find_pair(rs, track, car) == Option::Some(k),
    decreases k,
{
    if k > 0 {
        assert forall|j: int|
            0 <= j < k - 1 implies !((#[trigger] rs.drop_first()[j]).track == track
            && rs.drop_first()[j].car_model == car) by {
            assert(rs.drop_first()[j] == rs[j + 1]);
        }
        assert(rs.drop_first()[k - 1] == rs[k]);
        lemma_find_pair_first(rs.drop_first(), track, car, k - 1);
    }
}

proof fn lemma_find_pair_absent(rs: Seq<Rec>, track: Seq<char>, car: u32)
    requires
        forall|j: int|
            0 <= j < rs.len() ==> !((#[trigger] rs[j]).track == track && rs[j].car_model == car),
    ensures
        crate::combine::spec_find_pair(rs, track, car) is None,
    decreases rs.len(),
{
    if rs.len() > 0 {
        assert forall|j: int|
            0 <= j < rs.drop_first().len() implies !((#[trigger] rs.drop_first()[j]).track
            == track && rs.drop_first()[j].car_model == car) by {
            assert(rs.drop_first()[j] == rs[j + 1]);
        }
        lemma_find_pair_absent(rs.drop_first(), track, car);
    }
}

/// Merging two equally laid out lists with distinct pairs overlays
/// the restrictor pointwise.
proof fn lemma_merge_aligned(b: Seq<Rec>, r: Seq<Rec>, k: int)
    requires
        b.len() == r.len(),
        forall|i: int|
            0 <= i < b.len() ==> (#[trigger] b[i]).track == r[i].track && b[i].car_model
                == r[i].car_model,
        forall|i: int, j: int|
            0 <= i < j < b.len() ==> !((#[trigger] b[i]).track == #[trigger] b[j].track
                && b[i].car_model == b[j].car_model),
        forall|i: int| 0 <= i < k ==> (#[trigger] b[i]).restrictor == r[i].restrictor,
        0 <= k <= r.len(),
    ensures
        crate::combine::spec_merge(b, r.skip(k)) == spec_zip_merge(b, r),
    decreases r.len() - k,
{
    if k == r.len() {
        assert(r.skip(k) =~= Seq::<Rec>::empty());
        assert(crate::combine::spec_merge(b, r.skip(k)) == b);
        assert(spec_zip_merge(b, r) =~= b);
    } else {
        let item = r[k];
        assert(r.skip(k)[0] == item);
        assert(b[k].track == item.track && b[k].car_model == item.car_model);
        assert forall|j: int|
            0 <= j < k implies !((#[trigger] b[j]).track == item.track && b[j].car_model
            == item.car_model) by {}
        lemma_find_pair_first(b, item.track, item.car_model, k);
        let b2 = crate::combine::spec_merge_one(b, item);
        assert(b2 == b.update(
            k,
            Rec {
                track: b[k].track,
                car_model: b[k].car_model,
                ballast_kg: b[k].ballast_kg,
                restrictor: item.restrictor,
            },
        ));
        assert(b2.len() == b.len());
        assert forall|i: int| 0 <= i < b2.len() implies (#[trigger] b2[i]).track == b[i].track
            && b2[i].car_model == b[i].car_model && b2[i].ballast_kg == b[i].ballast_kg by {
            if i != k {
                assert(b2[i] == b[i]);
            }
        }
        lemma_merge_aligned(b2, r, k + 1);
        assert(r.skip(k).drop_first() =~= r.skip(k + 1));
        assert(crate::combine::spec_merge(b, r.skip(k)) == crate::combine::spec_merge(
            b2,
            r.skip(k + 1),
        ));
        assert(spec_zip_merge(b2, r) =~= spec_zip_merge(b, r));
    }
}

/// Merging records whose pairs are fresh and pairwise distinct
/// appends them all.
proof fn lemma_merge_fresh(base: Seq<Rec>, ov: Seq<Rec>)
    requires
        forall|i: int, j: int|
            0 <= i < j < ov.len() ==> !((#[trigger] ov[i]).track == #[trigger] ov[j].track
                && ov[i].car_model == ov[j].car_model),
        forall|i: int, j: int|
            0 <= i < ov.len() && 0 <= j < base.len() ==> !((#[trigger] ov[i]).track == (
            #[trigger] base[j]).track && ov[i].car_model == base[j].car_model),
    ensures
        crate::combine::spec_merge(base, ov) == base + ov,
    decreases ov.len(),
{
    if ov.len() == 0 {
        assert(base + ov =~= base);
    } else {
        let item = ov[0];
        assert forall|j: int|
            0 <= j < base.len() implies !((#[trigger] base[j]).track == item.track
            && base[j].car_model == item.car_model) by {}
        lemma_find_pair_absent(base, item.track, item.car_model);
        let base2 = base.push(item);
        assert forall|i: int, j: int|
            0 <= i < ov.drop_first().len() && 0 <= j < base2.len() implies !((
            #[trigger] ov.drop_first()[i]).track == (#[trigger] base2[j]).track
            && ov.drop_first()[i].car_model == base2[j].car_model) by {
            assert(ov.drop_first()[i] == ov[i + 1]);
            if j < base.len() {
                assert(base2[j] == base[j]);
            } else {
                assert(base2[j] == item);
            }
        }
        assert forall|i: int, j: int|
            0 <= i < j < ov.drop_first().len() implies !((#[trigger] ov.drop_first()[i]).track
            == #[trigger] ov.drop_first()[j].track && ov.drop_first()[i].car_model
            == ov.drop_first()[j].car_model) by {
            assert(ov.drop_first()[i] == ov[i + 1]);
            assert(ov.drop_first()[j] == ov[j + 1]);
        }
        lemma_merge_fresh(base2, ov.drop_first());
        assert(base.push(item) + ov.drop_first() =~= base + ov);
    }
}

/// In a set with distinct pairs, a record's own pair looks up to the
/// record itself.
proof fn lemma_lookup_self(rs: Seq<Rec>, i: int)
    requires
        0 <= i < rs.len(),
        forall|a: int, b: int|
            0 <= a < b < rs.len() ==> !((#[trigger] rs[a]).track == #[trigger] rs[b].track
                && rs[a].car_model == rs[b].car_model),
    ensures
        spec_lookup(rs, rs[i].car_model, rs[i].track) == Option::Some(rs[i]),
    decreases rs.len(),
{
    if i == rs.len() - 1 {
        assert(rs.last() == rs[i]);
    } else {
        assert(rs.last() == rs[rs.len() - 1]);
        assert(!(rs[i].track == rs[rs.len() - 1].track && rs[i].car_model == rs[rs.len()
            - 1].car_model));
        assert forall|a: int, b: int|
            0 <= a < b < rs.drop_last().len() implies !((#[trigger] rs.drop_last()[a]).track
            == #[trigger] rs.drop_last()[b].track && rs.drop_last()[a].car_model
            == rs.drop_last()[b].car_model) by {
            assert(rs.drop_last()[a] == rs[a]);
            assert(rs.drop_last()[b] == rs[b]);
        }
        assert(rs.drop_last()[i] == rs[i]);
        lemma_lookup_self(rs.drop_last(), i);
    }
}

/// The row list covers every record's car.
proof fn lemma_row_cars_complete(rs: Seq<Rec>)
    ensures
        forall|i: int|
            0 <= i < rs.len() ==> spec_row_cars(rs).contains((#[trigger] rs[i]).car_model),
    decreases rs.len(),
{
    if rs.len() > 0 {
        lemma_row_cars_complete(rs.drop_last());
        let prev = spec_row_cars(rs.drop_last());
        let cur = spec_row_cars(rs);
        assert forall|i: int| 0 <= i < rs.len() implies cur.contains(
            (#[trigger] rs[i]).car_model,
        ) by {
            if i < rs.len() - 1 {
                assert(rs.drop_last()[i] == rs[i]);
                assert(prev.contains(rs[i].car_model));
                let k = choose|k: int| 0 <= k < prev.len() && prev[k] == rs[i].car_model;
                if prev.contains(rs.last().car_model) {
                    assert(cur == prev);
                } else {
                    assert(cur == prev.push(rs.last().car_model));
                    assert(cur[k] == prev[k]);
                }
            } else {
                if prev.contains(rs.last().car_model) {
                    assert(cur == prev);
                } else {
                    assert(cur == prev.push(rs.last().car_model));
                    assert(cur[cur.len() - 1] == rs.last().car_model);
                }
            }
        }
    }
}

/// The track list covers every record's track.
proof fn lemma_track_list_complete(rs: Seq<Rec>)
    ensures
        forall|i: int|
            0 <= i < rs.len() ==> crate::encode::spec_track_list(rs).contains(
                (#[trigger] rs[i]).track,
            ),
    decreases rs.len(),
{
    if rs.len() > 0 {
        lemma_track_list_complete(rs.drop_last());
        let prev = crate::encode::spec_track_list(rs.drop_last());
        let cur = crate::encode::spec_track_list(rs);
        assert forall|i: int| 0 <= i < rs.len() implies cur.contains((#[trigger] rs[i]).track) by {
            if i < rs.len() - 1 {
                assert(rs.drop_last()[i] == rs[i]);
                assert(prev.contains(rs[i].track));
                let k = choose|k: int| 0 <= k < prev.len() && prev[k] == rs[i].track;
                if prev.contains(rs.last().track) {
                    assert(cur == prev);
                } else {
                    assert(cur == prev.push(rs.last().track));
                    assert(cur[k] == prev[k]);
                }
            } else {
                if prev.contains(rs.last().track) {
                    assert(cur == prev);
                } else {
                    assert(cur == prev.push(rs.last().track));
                    assert(cur[cur.len() - 1] == rs.last().track);
                }
            }
        }
    }
}

/// Sorted insertion keeps the inserted element and everything
/// already there.
proof fn lemma_sorted_insert_complete(t: Seq<char>, ts: Seq<Seq<char>>)
    ensures
        crate::encode::spec_sorted_insert(t, ts).contains(t),
        forall|x: Seq<char>|
            ts.contains(x) ==> crate::encode::spec_sorted_insert(t, ts).contains(x),
    decreases ts.len(),
{
    let out = crate::encode::spec_sorted_insert(t, ts);
    if ts.len() == 0 {
        assert(out[0] == t);
    } else if crate::chars::spec_lex_le(t, ts[0]) {
        assert(out[0] == t);
        assert forall|x: Seq<char>| ts.contains(x) implies out.contains(x) by {
            let k = choose|k: int| 0 <= k < ts.len() && ts[k] == x;
            assert(out[k + 1] == ts[k]);
        }
    } else {
        lemma_sorted_insert_complete(t, ts.drop_first());
        let inner = crate::encode::spec_sorted_insert(t, ts.drop_first());
        let k = choose|k: int| 0 <= k < inner.len() && inner[k] == t;
        assert(out[k + 1] == inner[k]);
        assert forall|x: Seq<char>| ts.contains(x) implies out.contains(x) by {
            let j = choose|j: int| 0 <= j < ts.len() && ts[j] == x;
            if j == 0 {
                assert(out[0] == ts[0]);
            } else {
                assert(ts.drop_first()[j - 1] == ts[j]);
                assert(ts.drop_first().contains(x));
                assert(inner.contains(x));
                let m = choose|m: int| 0 <= m < inner.len() && inner[m] == x;
                assert(out[m + 1] == inner[m]);
            }
        }
    }
}

/// Sorting keeps every member.
proof fn lemma_sort_tracks_complete(ts: Seq<Seq<char>>)
    ensures
        forall|x: Seq<char>|
            ts.contains(x) ==> crate::encode::spec_sort_tracks(ts).contains(x),
    decreases ts.len(),
{
    if ts.len() > 0 {
        lemma_sort_tracks_complete(ts.drop_last());
        lemma_sorted_insert_complete(
            ts.last(),
            crate::encode::spec_sort_tracks(ts.drop_last()),
        );
        let inner = crate::encode::spec_sort_tracks(ts.drop_last());
        let out = crate::encode::spec_sort_tracks(ts);
        assert forall|x: Seq<char>| ts.contains(x) implies out.contains(x) by {
            let j = choose|j: int| 0 <= j < ts.len() && ts[j] == x;
            if j == ts.len() - 1 {
                assert(out.contains(ts.last()));
            } else {
                assert(ts.drop_last()[j] == ts[j]);
                assert(ts.drop_last().contains(x));
                assert(inner.contains(x));
            }
        }
    }
}

/// The sorted column list covers every record's track.
proof fn lemma_col_tracks_complete(rs: Seq<Rec>)
    ensures
        forall|i: int|
            0 <= i < rs.len() ==> spec_col_tracks(rs).contains((#[trigger] rs[i]).track),
{
    lemma_track_list_complete(rs);
    lemma_sort_tracks_complete(crate::encode::spec_track_list(rs));
}

/// The row list never repeats a car.
proof fn lemma_row_cars_distinct(rs: Seq<Rec>)
    ensures
        forall|i: int, j: int|
            0 <= i < j < spec_row_cars(rs).len() ==> spec_row_cars(rs)[i] != spec_row_cars(
                rs,
            )[j],
    decreases rs.len(),
{
    if rs.len() > 0 {
        lemma_row_cars_distinct(rs.drop_last());
        let prev = spec_row_cars(rs.drop_last());
        let cur = spec_row_cars(rs);
        if !prev.contains(rs.last().car_model) {
            assert forall|i: int, j: int| 0 <= i < j < cur.len() implies cur[i] != cur[j] by {
                if j < prev.len() {
                    assert(cur[i] == prev[i] && cur[j] == prev[j]);
                } else {
                    assert(cur[j] == rs.last().car_model);
                    assert(cur[i] == prev[i]);
                    assert(prev.contains(prev[i]));
                }
            }
        }
    }
}

/// The track list never repeats a track.
proof fn lemma_track_list_distinct(rs: Seq<Rec>)
    ensures
        forall|i: int, j: int|
            0 <= i < j < crate::encode::spec_track_list(rs).len()
                ==> crate::encode::spec_track_list(rs)[i] != crate::encode::spec_track_list(
                rs,
            )[j],
    decreases rs.len(),
{
    if rs.len() > 0 {
        lemma_track_list_distinct(rs.drop_last());
        let prev = crate::encode::spec_track_list(rs.drop_last());
        let cur = crate::encode::spec_track_list(rs);
        if !prev.contains(rs.last().track) {
            assert forall|i: int, j: int| 0 <= i < j < cur.len() implies cur[i] != cur[j] by {
                if j < prev.len() {
                    assert(cur[i] == prev[i] && cur[j] == prev[j]);
                } else {
                    assert(cur[j] == rs.last().track);
                    assert(cur[i] == prev[i]);
                    assert(prev.contains(prev[i]));
                }
            }
        }
    }
}

/// Sorted insertion of a fresh element keeps the list free of
/// repeats.
proof fn lemma_sorted_insert_distinct(t: Seq<char>, ts: Seq<Seq<char>>)
    requires
        forall|i: int, j: int| 0 <= i < j < ts.len() ==> ts[i] != ts[j],
        !ts.contains(t),
    ensures
        forall|i: int, j: int|
            0 <= i < j < crate::encode::spec_sorted_insert(t, ts).len()
                ==> crate::encode::spec_sorted_insert(t, ts)[i]
                != crate::encode::spec_sorted_insert(t, ts)[j],
    decreases ts.len(),
{
    let out = crate::encode::spec_sorted_insert(t, ts);
    if ts.len() == 0 {
    } else if crate::chars::spec_lex_le(t, ts[0]) {
        assert forall|i: int, j: int| 0 <= i < j < out.len() implies out[i] != out[j] by {
            if i == 0 {
                assert(out[0] == t);
                assert(out[j] == ts[j - 1]);
                assert(ts.contains(ts[j - 1]));
            } else {
                assert(out[i] == ts[i - 1] && out[j] == ts[j - 1]);
            }
        }
    } else {
        assert forall|i: int, j: int|
            0 <= i < j < ts.drop_first().len() implies ts.drop_first()[i]
            != ts.drop_first()[j] by {
            assert(ts.drop_first()[i] == ts[i + 1]);
            assert(ts.drop_first()[j] == ts[j + 1]);
        }
        assert(!ts.drop_first().contains(t)) by {
            if ts.drop_first().contains(t) {
                let k = choose|k: int| 0 <= k < ts.drop_first().len() && ts.drop_first()[k] == t;
                assert(ts[k + 1] == t);
            }
        }
        lemma_sorted_insert_distinct(t, ts.drop_first());
        lemma_sorted_insert_members(t, ts.drop_first());
        let inner = crate::encode::spec_sorted_insert(t, ts.drop_first());
        assert forall|i: int, j: int| 0 <= i < j < out.len() implies out[i] != out[j] by {
            if i == 0 {
                assert(out[0] == ts[0]);
                assert(out[j] == inner[j - 1]);
                if out[j] == t {
                    assert(ts.contains(ts[0]));
                } else {
                    assert(ts.drop_first().contains(inner[j - 1]));
                    let k = choose|k: int|
                        0 <= k < ts.drop_first().len() && ts.drop_first()[k] == inner[j - 1];
                    assert(ts[k + 1] == ts.drop_first()[k]);
                }
            } else {
                assert(out[i] == inner[i - 1] && out[j] == inner[j - 1]);
            }
        }
    }
}

/// Sorting a repeat-free list yields a repeat-free list.
proof fn lemma_sort_tracks_distinct(ts: Seq<Seq<char>>)
    requires
        forall|i: int, j: int| 0 <= i < j < ts.len() ==> ts[i] != ts[j],
    ensures
        forall|i: int, j: int|
            0 <= i < j < crate::encode::spec_sort_tracks(ts).len()
                ==> crate::encode::spec_sort_tracks(ts)[i] != crate::encode::spec_sort_tracks(
                ts,
            )[j],
    decreases ts.len(),
{
    if ts.len() > 0 {
        assert forall|i: int, j: int|
            0 <= i < j < ts.drop_last().len() implies ts.drop_last()[i] != ts.drop_last()[j] by {
            assert(ts.drop_last()[i] == ts[i]);
            assert(ts.drop_last()[j] == ts[j]);
        }
        lemma_sort_tracks_distinct(ts.drop_last());
        lemma_sort_tracks_members(ts.drop_last());
        let inner = crate::encode::spec_sort_tracks(ts.drop_last());
        assert(!inner.contains(ts.last())) by {
            if inner.contains(ts.last()) {
                let k = choose|k: int| 0 <= k < inner.len() && inner[k] == ts.last();
                assert(ts.drop_last().contains(inner[k]));
                let m = choose|m: int|
                    0 <= m < ts.drop_last().len() && ts.drop_last()[m] == inner[k];
                assert(ts[m] == ts.last());
                assert(ts[m] == ts[ts.len() - 1]);
            }
        }
        lemma_sorted_insert_distinct(ts.last(), inner);
    }
}

/// A non-zero cell at a listed (car, track) pair makes the whole
/// table non-empty.
proof fn lemma_row_any_witness(
    rs: Seq<Rec>,
    car: u32,
    cols: Seq<Seq<char>>,
    kind: BopType,
    t: Seq<char>,
)
    requires
        cols.contains(t),
        crate::encode::spec_cell_nonzero(rs, car, t, kind),
    ensures
        crate::encode::spec_row_any(rs, car, cols, kind),
    decreases cols.len(),
{
    if cols.len() > 0 {
        if cols.last() == t {
        } else {
            let k = choose|k: int| 0 <= k < cols.len() && cols[k] == t;
            assert(cols.drop_last()[k] == cols[k]);
            assert(cols.drop_last().contains(t));
            lemma_row_any_witness(rs, car, cols.drop_last(), kind, t);
        }
    }
}

proof fn lemma_any_cell_witness(
    rs: Seq<Rec>,
    cars: Seq<u32>,
    cols: Seq<Seq<char>>,
    kind: BopType,
    car: u32,
    t: Seq<char>,
)
    requires
        cars.contains(car),
        cols.contains(t),
        crate::encode::spec_cell_nonzero(rs, car, t, kind),
    ensures
        crate::encode::spec_any_cell(rs, cars, cols, kind),
    decreases cars.len(),
{
    if cars.len() > 0 {
        if cars.last() == car {
            lemma_row_any_witness(rs, car, cols, kind, t);
        } else {
            let k = choose|k: int| 0 <= k < cars.len() && cars[k] == car;
            assert(cars.drop_last()[k] == cars[k]);
            assert(cars.drop_last().contains(car));
            lemma_any_cell_witness(rs, cars.drop_last(), cols, kind, car, t);
        }
    }
}

/// A kind whose table is not produced has the field absent in every
/// record of a canonical set.
proof fn lemma_no_table_all_absent(rs: Seq<Rec>, kind: BopType)
    requires
        spec_canonical(rs),
        !crate::encode::spec_table_has(rs, kind),
    ensures
        forall|i: int|
            0 <= i < rs.len() ==> match kind {
                BopType::Ballast => (#[trigger] rs[i]).ballast_kg is None,
                BopType::Restrictor => (#[trigger] rs[i]).restrictor is None,
            },
{
    lemma_row_cars_complete(rs);
    lemma_col_tracks_complete(rs);
    assert forall|i: int| 0 <= i < rs.len() implies match kind {
        BopType::Ballast => (#[trigger] rs[i]).ballast_kg is None,
        BopType::Restrictor => (#[trigger] rs[i]).restrictor is None,
    } by {
        let present = match kind {
            BopType::Ballast => rs[i].ballast_kg is Some,
            BopType::Restrictor => rs[i].restrictor is Some,
        };
        if present {
            lemma_lookup_self(rs, i);
            assert(spec_canonical_rec(rs[i]));
            assert(crate::encode::spec_cell_nonzero(rs, rs[i].car_model, rs[i].track, kind));
            lemma_any_cell_witness(
                rs,
                spec_row_cars(rs),
                spec_col_tracks(rs),
                kind,
                rs[i].car_model,
                rs[i].track,
            );
        }
    }
}

/// Membership in the filtered set: exactly the adjusted records of
/// the original, regardless of position.
proof fn lemma_filter_adjusted_membership(s: Seq<Rec>)
    ensures
        forall|x: Rec|
            #[trigger] crate::combine::spec_filter_adjusted(s).contains(x) ==> s.contains(x)
                && x.is_adjusted(),
        forall|x: Rec|
            #[trigger] s.contains(x) && x.is_adjusted()
                ==> crate::combine::spec_filter_adjusted(s).contains(x),
    decreases s.len(),
{
    let out = crate::combine::spec_filter_adjusted(s);
    if s.len() > 0 {
        lemma_filter_adjusted_membership(s.drop_last());
        let inner = crate::combine::spec_filter_adjusted(s.drop_last());
        assert forall|x: Rec|
            #[trigger] crate::combine::spec_filter_adjusted(s).contains(x) implies s.contains(
            x,
        ) && x.is_adjusted() by {
            let k = choose|k: int| 0 <= k < out.len() && out[k] == x;
            if s.last().is_adjusted() && k == out.len() - 1 {
                assert(out == inner.push(s.last()));
                assert(out[k] == s.last());
                assert(s[s.len() - 1] == s.last());
            } else {
                if s.last().is_adjusted() {
                    assert(out == inner.push(s.last()));
                    assert(out[k] == inner[k]);
                } else {
                    assert(out == inner);
                    assert(out[k] == inner[k]);
                }
                assert(crate::combine::spec_filter_adjusted(s.drop_last()).contains(x));
                assert(s.drop_last().contains(x));
                let m = choose|m: int| 0 <= m < s.drop_last().len() && s.drop_last()[m] == x;
                assert(s[m] == s.drop_last()[m]);
            }
        }
        assert forall|x: Rec|
            #[trigger] s.contains(x) && x.is_adjusted() implies crate::combine::spec_filter_adjusted(
            s,
        ).contains(x) by {
            let m = choose|m: int| 0 <= m < s.len() && s[m] == x;
            if m == s.len() - 1 {
                assert(s.last() == x);
                assert(out == inner.push(s.last()));
                assert(out[out.len() - 1] == x);
            } else {
                assert(s.drop_last()[m] == s[m]);
                assert(s.drop_last().contains(x));
                assert(crate::combine::spec_filter_adjusted(s.drop_last()).contains(x));
                let k = choose|k: int| 0 <= k < inner.len() && inner[k] == x;
                if s.last().is_adjusted() {
                    assert(out == inner.push(s.last()));
                    assert(out[k] == inner[k]);
                } else {
                    assert(out == inner);
                }
            }
        }
    }
}

/// The shared closing step: a merged grid whose every element shows
/// both fields of its own pair, and which covers every record's
/// pair, filters down to exactly the original set.
proof fn lemma_filter_grid_set(rs: Seq<Rec>, m: Seq<Rec>)
    requires
        spec_canonical(rs),
        forall|k: int|
            0 <= k < m.len() ==> #[trigger] m[k] == spec_full_cell(
                rs,
                m[k].car_model,
                m[k].track,
            ),
        forall|i: int|
            #![trigger rs[i]]
            0 <= i < rs.len() ==> exists|k: int|
                0 <= k < m.len() && (#[trigger] m[k]).car_model == rs[i].car_model
                    && m[k].track == rs[i].track,
    ensures
        crate::combine::spec_filter_adjusted(m).to_set() == rs.to_set(),
{
    lemma_filter_adjusted_membership(m);
    let out = crate::combine::spec_filter_adjusted(m);
    assert forall|x: Rec| out.contains(x) implies rs.contains(x) by {
        assert(m.contains(x) && x.is_adjusted());
        let k = choose|k: int| 0 <= k < m.len() && m[k] == x;
        assert(x == spec_full_cell(rs, x.car_model, x.track));
        lemma_lookup_member(rs, x.car_model, x.track);
        match spec_lookup(rs, x.car_model, x.track) {
            Option::Some(rec) => {
                assert(x == rec);
            },
            Option::None => {
                assert(!x.is_adjusted());
            },
        }
    }
    assert forall|x: Rec| rs.contains(x) implies out.contains(x) by {
        let i = choose|i: int| 0 <= i < rs.len() && rs[i] == x;
        assert(0 <= i < rs.len());
        let k = choose|k: int|
            0 <= k < m.len() && (#[trigger] m[k]).car_model == rs[i].car_model && m[k].track
                == rs[i].track;
        lemma_lookup_self(rs, i);
        assert(m[k] == spec_full_cell(rs, m[k].car_model, m[k].track));
        assert(spec_full_cell(rs, x.car_model, x.track) == x);
        assert(m.contains(x));
        assert(spec_canonical_rec(rs[i]));
        assert(x.is_adjusted());
    }
    assert(out.to_set() =~= rs.to_set());
}

/// In the two-table case the merged grid shows both fields of each
/// pair.
proof fn lemma_merged_full_both(rs: Seq<Rec>)
    requires
        spec_canonical(rs),
    ensures
        ({
            let bg = spec_grid(rs, spec_row_cars(rs), spec_col_tracks(rs), BopType::Ballast);
            let rg = spec_grid(rs, spec_row_cars(rs), spec_col_tracks(rs), BopType::Restrictor);
            forall|k: int|
                0 <= k < spec_zip_merge(bg, rg).len() ==> #[trigger] spec_zip_merge(bg, rg)[k]
                    == spec_full_cell(
                    rs,
                    spec_zip_merge(bg, rg)[k].car_model,
                    spec_zip_merge(bg, rg)[k].track,
                )
        }),
{
    let cars = spec_row_cars(rs);
    let cols = spec_col_tracks(rs);
    let bg = spec_grid(rs, cars, cols, BopType::Ballast);
    let rg = spec_grid(rs, cars, cols, BopType::Restrictor);
    lemma_grid_props(rs, cars, cols, BopType::Ballast);
    lemma_grid_props(rs, cars, cols, BopType::Restrictor);
    lemma_grids_aligned(rs, cars, cols);
    let m = spec_zip_merge(bg, rg);
    assert forall|k: int| 0 <= k < m.len() implies #[trigger] m[k] == spec_full_cell(
        rs,
        m[k].car_model,
        m[k].track,
    ) by {
        assert(bg[k] == spec_cell_rec(rs, bg[k].car_model, bg[k].track, BopType::Ballast));
        assert(rg[k] == spec_cell_rec(rs, rg[k].car_model, rg[k].track, BopType::Restrictor));
    }
}

/// When the other kind's table is not produced at all, the one
/// grid already shows both fields of each pair.
proof fn lemma_merged_full_one(rs: Seq<Rec>, kind: BopType)
    requires
        spec_canonical(rs),
        !crate::encode::spec_table_has(
            rs,
            match kind {
                BopType::Ballast => BopType::Restrictor,
                BopType::Restrictor => BopType::Ballast,
            },
        ),
    ensures
        ({
            let g = spec_grid(rs, spec_row_cars(rs), spec_col_tracks(rs), kind);
            forall|k: int|
                0 <= k < g.len() ==> #[trigger] g[k] == spec_full_cell(
                    rs,
                    g[k].car_model,
                    g[k].track,
                )
        }),
{
    let cars = spec_row_cars(rs);
    let cols = spec_col_tracks(rs);
    let g = spec_grid(rs, cars, cols, kind);
    lemma_grid_props(rs, cars, cols, kind);
    let other = match kind {
        BopType::Ballast => BopType::Restrictor,
        BopType::Restrictor => BopType::Ballast,
    };
    lemma_no_table_all_absent(rs, other);
    assert forall|k: int| 0 <= k < g.len() implies #[trigger] g[k] == spec_full_cell(
        rs,
        g[k].car_model,
        g[k].track,
    ) by {
        assert(g[k] == spec_cell_rec(rs, g[k].car_model, g[k].track, kind));
        lemma_lookup_member(rs, g[k].car_model, g[k].track);
        match spec_lookup(rs, g[k].car_model, g[k].track) {
            Option::Some(rec) => {
                let i = choose|i: int| 0 <= i < rs.len() && rs[i] == rec;
                assert(0 <= i < rs.len());
                match other {
                    BopType::Ballast => {
                        assert(rs[i].ballast_kg is None);
                    },
                    BopType::Restrictor => {
                        assert(rs[i].restrictor is None);
                    },
                }
            },
            Option::None => {},
        }
    }
}

/// The grid of either kind covers the pair of every record.
proof fn lemma_grid_pair_coverage(rs: Seq<Rec>, kind: BopType)
    requires
        spec_canonical(rs),
    ensures
        ({
            let g = spec_grid(rs, spec_row_cars(rs), spec_col_tracks(rs), kind);
            forall|i: int|
                #![trigger rs[i]]
                0 <= i < rs.len() ==> exists|k: int|
                    0 <= k < g.len() && (#[trigger] g[k]).car_model == rs[i].car_model
                        && g[k].track == rs[i].track
        }),
{
    let cars = spec_row_cars(rs);
    let cols = spec_col_tracks(rs);
    let g = spec_grid(rs, cars, cols, kind);
    lemma_grid_props(rs, cars, cols, kind);
    lemma_row_cars_complete(rs);
    lemma_col_tracks_complete(rs);
    assert forall|i: int|
        #![trigger rs[i]]
        0 <= i < rs.len() implies exists|k: int|
        0 <= k < g.len() && (#[trigger] g[k]).car_model == rs[i].car_model && g[k].track
            == rs[i].track by {
        assert(cars.contains(rs[i].car_model));
        assert(cols.contains(rs[i].track));
        let rr = choose|rr: int| 0 <= rr < cars.len() && cars[rr] == rs[i].car_model;
        let cc = choose|cc: int| 0 <= cc < cols.len() && cols[cc] == rs[i].track;
        let k = choose|k: int|
            0 <= k < g.len() && #[trigger] g[k] == spec_cell_rec(rs, cars[rr], cols[cc], kind);
        assert(g[k].car_model == cars[rr] && g[k].track == cols[cc]);
    }
}

/// Round trip: render a canonical record set to its dense tables
/// (each produced only when some cell carries its field), decode
/// whatever was produced, overlay the restrictor pass onto the
/// ballast pass, and drop the records without adjustments; the
/// result is the original record set, as a set.
#[verifier::rlimit(50)]
pub proof fn lemma_csv_round_trip(rs: Seq<Rec>)
    requires
        spec_canonical(rs),
    ensures
        ({
            let b = if crate::encode::spec_table_has(rs, BopType::Ballast) {
                spec_decode(spec_table_text(rs, BopType::Ballast), BopType::Ballast)
            } else {
                Seq::<Rec>::empty()
            };
            let r = if crate::encode::spec_table_has(rs, BopType::Restrictor) {
                spec_decode(spec_table_text(rs, BopType::Restrictor), BopType::Restrictor)
            } else {
                Seq::<Rec>::empty()
            };
            crate::combine::spec_filter_adjusted(crate::combine::spec_merge(b, r)).to_set()
                == rs.to_set()
        }),
{
    let cars = spec_row_cars(rs);
    let cols = spec_col_tracks(rs);
    let hasb = crate::encode::spec_table_has(rs, BopType::Ballast);
    let hasr = crate::encode::spec_table_has(rs, BopType::Restrictor);
    let b: Seq<Rec> = if hasb {
        spec_decode(spec_table_text(rs, BopType::Ballast), BopType::Ballast)
    } else {
        Seq::empty()
    };
    let r: Seq<Rec> = if hasr {
        spec_decode(spec_table_text(rs, BopType::Restrictor), BopType::Restrictor)
    } else {
        Seq::empty()
    };
    let bg = spec_grid(rs, cars, cols, BopType::Ballast);
    let rg = spec_grid(rs, cars, cols, BopType::Restrictor);
    lemma_table_decode(rs, BopType::Ballast);
    lemma_table_decode(rs, BopType::Restrictor);
    lemma_row_cars_distinct(rs);
    lemma_track_list_distinct(rs);
    lemma_sort_tracks_distinct(crate::encode::spec_track_list(rs));
    let m = crate::combine::spec_merge(b, r);
    if hasb && hasr {
        lemma_grids_aligned(rs, cars, cols);
        lemma_grid_pairs_distinct(rs, cars, cols, BopType::Ballast);
        lemma_merge_aligned(bg, rg, 0);
        assert(rg.skip(0) =~= rg);
        assert(m == spec_zip_merge(bg, rg));
        lemma_merged_full_both(rs);
        lemma_grid_pair_coverage(rs, BopType::Ballast);
        assert forall|i: int|
            #![trigger rs[i]]
            0 <= i < rs.len() implies exists|k: int|
            0 <= k < m.len() && (#[trigger] m[k]).car_model == rs[i].car_model && m[k].track
                == rs[i].track by {
            let k = choose|k: int|
                0 <= k < bg.len() && (#[trigger] bg[k]).car_model == rs[i].car_model
                    && bg[k].track == rs[i].track;
            assert(m[k].car_model == bg[k].car_model && m[k].track == bg[k].track);
        }
        lemma_filter_grid_set(rs, m);
    } else if hasb {
        assert(m == bg);
        lemma_merged_full_one(rs, BopType::Ballast);
        lemma_grid_pair_coverage(rs, BopType::Ballast);
        lemma_filter_grid_set(rs, m);
    } else if hasr {
        lemma_grid_pairs_distinct(rs, cars, cols, BopType::Restrictor);
        lemma_merge_fresh(Seq::<Rec>::empty(), rg);
        assert(Seq::<Rec>::empty() + rg =~= rg);
        assert(m == rg);
        lemma_merged_full_one(rs, BopType::Restrictor);
        lemma_grid_pair_coverage(rs, BopType::Restrictor);
        lemma_filter_grid_set(rs, m);
    } else {
        lemma_no_table_all_absent(rs, BopType::Ballast);
        lemma_no_table_all_absent(rs, BopType::Restrictor);
        assert(rs.len() == 0) by {
            if rs.len() > 0 {
                assert(spec_canonical_rec(rs[0]));
                assert(rs[0].is_adjusted());
            }
        }
        assert(m == Seq::<Rec>::empty());
        lemma_filter_adjusted_membership(m);
        assert(crate::combine::spec_filter_adjusted(m).to_set() =~= rs.to_set()) by {
            lemma_filter_adjusted_membership(m);
            assert(forall|x: Rec| !rs.contains(x));
            assert(forall|x: Rec| !m.contains(x));
        }
    }
}

/// The same round trip phrased over the whole conversion pipeline:
/// when both tables are produced, feeding them back through the
/// decoder, the merge and the filter reproduces the set.
pub proof fn lemma_csv_to_bop_round_trip(rs: Seq<Rec>)
    requires
        spec_canonical(rs),
        crate::encode::spec_table_has(rs, BopType::Ballast),
        crate::encode::spec_table_has(rs, BopType::Restrictor),
    ensures
        spec_csv_to_bop(
            spec_table_text(rs, BopType::Ballast),
            Option::Some(spec_table_text(rs, BopType::Restrictor)),
        ).to_set() == rs.to_set(),
{
    lemma_csv_round_trip(rs);
}

} // verus!
