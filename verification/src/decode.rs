use vstd::prelude::*;

use crate::BopType;
use crate::chars::{spec_is_ws, is_ws, spec_split, spec_trim, spec_views, split_str, trim_str};
use crate::data::{Entry, Rec, spec_entry_views};
use crate::normalize::{create_ballast_entry, create_restrictor_entry, spec_ballast_value,
    spec_restrictor_value};
use crate::resolve::{spec_resolve_car, spec_resolve_track, validate_car_model, validate_track};

verus! {

/// A row is blank when it holds nothing but commas and whitespace;
/// such rows are skipped without affecting alignment.
pub open spec fn spec_is_blank_row(line: Seq<char>) -> bool
    decreases line.len(),
{
    if line.len() == 0 {
        true
    } else {
        (line[0] == ',' || spec_is_ws(line[0])) && spec_is_blank_row(line.drop_first())
    }
}

proof fn lemma_blank_row_iff(line: Seq<char>)
    ensures
        spec_is_blank_row(line) <==> (forall|j: int|
            0 <= j < line.len() ==> (#[trigger] line[j] == ',' || spec_is_ws(line[j]))),
    decreases line.len(),
{
    if line.len() > 0 {
        lemma_blank_row_iff(line.drop_first());
        if spec_is_blank_row(line) {
            assert forall|j: int| 0 <= j < line.len() implies (#[trigger] line[j] == ','
                || spec_is_ws(line[j])) by {
                if j >= 1 {
                    assert(line[j] == line.drop_first()[j - 1]);
                }
            }
        }
        if forall|j: int| 0 <= j < line.len() ==> (#[trigger] line[j] == ',' || spec_is_ws(
            line[j],
        )) {
            assert forall|j: int| 0 <= j < line.drop_first().len() implies (
            #[trigger] line.drop_first()[j] == ',' || spec_is_ws(line.drop_first()[j])) by {
                assert(line.drop_first()[j] == line[j + 1]);
            }
        }
    }
}

fn is_blank_row(line: &str) -> (r: bool)
    ensures
        r == spec_is_blank_row(line@),
{
    let len = line.unicode_len();
    let mut i: usize = 0;
    while i < len
        invariant
            0 <= i <= len == line@.len(),
            forall|j: int| 0 <= j < i ==> (#[trigger] line@[j] == ',' || spec_is_ws(line@[j])),
        decreases len - i,
    {
        let c = line.get_char(i);
        if c != ',' && !is_ws(c) {
            proof {
                lemma_blank_row_iff(line@);
            }
            return false;
        }
        i += 1;
    }
    proof {
        lemma_blank_row_iff(line@);
    }
    true
}

/// The view of each optional resolved column.
pub open spec fn spec_opt_views(cs: Seq<Option<String>>) -> Seq<Option<Seq<char>>> {
    cs.map_values(
        |o: Option<String>|
            match o {
                Option::Some(s) => Option::Some(s@),
                Option::None => Option::None,
            },
    )
}

/// Resolution of the header cells after the ignored first cell: a
/// failed cell keeps its column position as absent, so the data
/// columns stay aligned.
pub open spec fn spec_resolve_cols(cells: Seq<Seq<char>>) -> Seq<Option<Seq<char>>>
    decreases cells.len(),
{
    if cells.len() == 0 {
        Seq::empty()
    } else {
        spec_resolve_cols(cells.drop_last()).push(spec_resolve_track(cells.last()))
    }
}

/// Column list of a raw header line.
pub open spec fn spec_header_cols(header: Seq<char>) -> Seq<Option<Seq<char>>> {
    spec_resolve_cols(spec_split(spec_trim(header), ',').drop_first())
}

/// Resolve every header cell after the first, keeping failures as
/// placeholders.
#[verifier::loop_isolation(false)]
fn resolve_header(hcells: &Vec<&str>) -> (cols: Vec<Option<String>>)
    requires
        hcells@.len() >= 1,
    ensures
        spec_opt_views(cols@) == spec_resolve_cols(spec_views(hcells@).drop_first()),
{
    let ghost hviews = spec_views(hcells@);
    let mut cols: Vec<Option<String>> = Vec::new();
    let mut k: usize = 1;
    proof {
        assert(hviews.drop_first().subrange(0, 0) =~= Seq::<Seq<char>>::empty());
        assert(spec_opt_views(cols@) =~= spec_resolve_cols(hviews.drop_first().subrange(0, 0)));
    }
    while k < hcells.len()
        invariant
            1 <= k <= hcells@.len(),
            spec_opt_views(cols@) == spec_resolve_cols(hviews.drop_first().subrange(0, k - 1)),
        decreases hcells@.len() - k,
    {
        let col = validate_track(hcells[k]);
        proof {
            let pre = hviews.drop_first().subrange(0, k - 1);
            assert(hviews.drop_first().subrange(0, k as int).drop_last() =~= pre);
            assert(hviews.drop_first().subrange(0, k as int).last() == hviews[k as int]);
            assert(hviews[k as int] == hcells@[k as int]@);
        }
        cols.push(col);
        proof {
            assert(spec_opt_views(cols@) =~= spec_resolve_cols(
                hviews.drop_first().subrange(0, k - 1),
            ).push(spec_resolve_track(hviews[k as int])));
        }
        k += 1;
    }
    proof {
        assert(hviews.drop_first().subrange(0, hviews.len() - 1) =~= hviews.drop_first());
    }
    cols
}

/// The record a single value cell yields for a resolved car and
/// track.
pub open spec fn spec_make_rec(kind: BopType, cell: Seq<char>, model: u32, t: Seq<char>) -> Rec {
    match kind {
        BopType::Ballast => Rec {
            track: t,
            car_model: model,
            ballast_kg: spec_ballast_value(cell),
            restrictor: Option::None,
        },
        BopType::Restrictor => Rec {
            track: t,
            car_model: model,
            ballast_kg: Option::None,
            restrictor: spec_restrictor_value(cell),
        },
    }
}

/// Zip the value cells of a row against the column list, stopping at
/// the shorter side; cells under a failed column are discarded.
pub open spec fn spec_zip_cells(
    vals: Seq<Seq<char>>,
    cols: Seq<Option<Seq<char>>>,
    model: u32,
    kind: BopType,
) -> Seq<Rec>
    decreases vals.len(),
{
    if vals.len() == 0 || cols.len() == 0 {
        Seq::empty()
    } else {
        let rest = spec_zip_cells(vals.drop_first(), cols.drop_first(), model, kind);
        match cols[0] {
            Option::None => rest,
            Option::Some(t) => seq![spec_make_rec(kind, vals[0], model, t)] + rest,
        }
    }
}

/// Walk one data row's value cells against the column list.
#[verifier::loop_isolation(false)]
fn decode_row_cells(cells: &Vec<&str>, cols: &Vec<Option<String>>, model: u32, kind: BopType) -> (v:
    Vec<Entry>)
    requires
        cells@.len() >= 1,
    ensures
        spec_entry_views(v@) == spec_zip_cells(
            spec_views(cells@).drop_first(),
            spec_opt_views(cols@),
            model,
            kind,
        ),
{
    let ghost vals = spec_views(cells@).drop_first();
    let ghost colviews = spec_opt_views(cols@);
    let mut v: Vec<Entry> = Vec::new();
    let mut j: usize = 1;
    proof {
        assert(vals.subrange(0, vals.len() as int) =~= vals);
        assert(colviews.subrange(0, colviews.len() as int) =~= colviews);
        assert(spec_entry_views(v@) =~= Seq::<Rec>::empty());
        assert(Seq::<Rec>::empty() + spec_zip_cells(vals, colviews, model, kind)
            =~= spec_zip_cells(vals, colviews, model, kind));
    }
    while j < cells.len() && j - 1 < cols.len()
        invariant
            1 <= j <= cells@.len(),
            j - 1 <= cols@.len(),
            spec_zip_cells(vals, colviews, model, kind) == spec_entry_views(v@) + spec_zip_cells(
                vals.subrange(j - 1, vals.len() as int),
                colviews.subrange(j - 1, colviews.len() as int),
                model,
                kind,
            ),
        decreases cells@.len() - j,
    {
        let ghost done = spec_entry_views(v@);
        let ghost rvals = vals.subrange(j - 1, vals.len() as int);
        let ghost rcols = colviews.subrange(j - 1, colviews.len() as int);
        proof {
            assert(rvals[0] == vals[j - 1]);
            assert(vals[j - 1] == spec_views(cells@)[j as int]);
            assert(spec_views(cells@)[j as int] == cells@[j as int]@);
            assert(rcols[0] == colviews[j - 1]);
            assert(rvals.drop_first() =~= vals.subrange(j as int, vals.len() as int));
            assert(rcols.drop_first() =~= colviews.subrange(j as int, colviews.len() as int));
        }
        match &cols[j - 1] {
            Option::Some(track) => {
                let e = match kind {
                    BopType::Ballast => create_ballast_entry(cells[j], model, track),
                    BopType::Restrictor => create_restrictor_entry(cells[j], model, track),
                };
                proof {
                    assert(colviews[j - 1] == Option::Some(track@));
                    assert(e@ == spec_make_rec(kind, vals[j - 1], model, track@));
                }
                v.push(e);
                proof {
                    assert(spec_entry_views(v@) =~= done.push(e@));
                    assert(spec_zip_cells(rvals, rcols, model, kind) == seq![e@]
                        + spec_zip_cells(rvals.drop_first(), rcols.drop_first(), model, kind));
                    assert(done + (seq![e@] + spec_zip_cells(
                        rvals.drop_first(),
                        rcols.drop_first(),
                        model,
                        kind,
                    )) =~= done.push(e@) + spec_zip_cells(
                        rvals.drop_first(),
                        rcols.drop_first(),
                        model,
                        kind,
                    ));
                }
            },
            Option::None => {
                proof {
                    assert(colviews[j - 1] is None);
                }
            },
        }
        j += 1;
    }
    proof {
        let rvals = vals.subrange(j - 1, vals.len() as int);
        let rcols = colviews.subrange(j - 1, colviews.len() as int);
        assert(rvals.len() == 0 || rcols.len() == 0);
        assert(spec_zip_cells(rvals, rcols, model, kind) =~= Seq::<Rec>::empty());
        assert(spec_entry_views(v@) + Seq::<Rec>::empty() =~= spec_entry_views(v@));
    }
    v
}

/// The records of one data row: nothing when the car cell does not
/// resolve, else one record per well-headed column.
pub open spec fn spec_decode_row(
    line: Seq<char>,
    cols: Seq<Option<Seq<char>>>,
    kind: BopType,
) -> Seq<Rec> {
    let cells = spec_split(spec_trim(line), ',');
    match spec_resolve_car(cells[0]) {
        Option::None => Seq::empty(),
        Option::Some(model) => spec_zip_cells(cells.drop_first(), cols, model, kind),
    }
}

/// Does a data row contribute to the parsed-row count?
pub open spec fn spec_row_counted(line: Seq<char>) -> bool {
    !spec_is_blank_row(line) && spec_resolve_car(spec_split(spec_trim(line), ',')[0]) is Some
}

/// The records of all data rows, in order.
pub open spec fn spec_decode_rows(
    lines: Seq<Seq<char>>,
    cols: Seq<Option<Seq<char>>>,
    kind: BopType,
) -> Seq<Rec>
    decreases lines.len(),
{
    if lines.len() == 0 {
        Seq::empty()
    } else {
        (if spec_is_blank_row(lines[0]) {
            Seq::empty()
        } else {
            spec_decode_row(lines[0], cols, kind)
        }) + spec_decode_rows(lines.drop_first(), cols, kind)
    }
}

/// How many data rows parsed (non-blank, with a resolved car).
pub open spec fn spec_count_rows(lines: Seq<Seq<char>>) -> int
    decreases lines.len(),
{
    if lines.len() == 0 {
        0
    } else {
        (if spec_row_counted(lines[0]) {
            1int
        } else {
            0int
        }) + spec_count_rows(lines.drop_first())
    }
}

/// Decoding one more line appends that line's records.
proof fn lemma_decode_rows_snoc(
    lines: Seq<Seq<char>>,
    line: Seq<char>,
    cols: Seq<Option<Seq<char>>>,
    kind: BopType,
)
    ensures
        spec_decode_rows(lines.push(line), cols, kind) == spec_decode_rows(lines, cols, kind) + (
        if spec_is_blank_row(line) {
            Seq::<Rec>::empty()
        } else {
            spec_decode_row(line, cols, kind)
        }),
    decreases lines.len(),
{
    let whole = lines.push(line);
    let lastrec: Seq<Rec> = if spec_is_blank_row(line) {
        Seq::empty()
    } else {
        spec_decode_row(line, cols, kind)
    };
    if lines.len() == 0 {
        assert(whole[0] == line);
        assert(whole.drop_first() =~= Seq::<Seq<char>>::empty());
        assert(spec_decode_rows(whole.drop_first(), cols, kind) == Seq::<Rec>::empty());
        assert(spec_decode_rows(whole, cols, kind) == lastrec + Seq::<Rec>::empty());
        assert(lastrec + Seq::<Rec>::empty() =~= lastrec);
        assert(spec_decode_rows(lines, cols, kind) == Seq::<Rec>::empty());
        assert(Seq::<Rec>::empty() + lastrec =~= lastrec);
    } else {
        lemma_decode_rows_snoc(lines.drop_first(), line, cols, kind);
        assert(whole.drop_first() =~= lines.drop_first().push(line));
        assert(whole[0] == lines[0]);
        let head: Seq<Rec> = if spec_is_blank_row(lines[0]) {
            Seq::empty()
        } else {
            spec_decode_row(lines[0], cols, kind)
        };
        let tailrec = spec_decode_rows(lines.drop_first(), cols, kind);
        assert(spec_decode_rows(whole, cols, kind) == head + (tailrec + lastrec));
        assert(head + (tailrec + lastrec) =~= (head + tailrec) + lastrec);
    }
}

/// Counting one more line adds that line's contribution.
proof fn lemma_count_rows_snoc(lines: Seq<Seq<char>>, line: Seq<char>)
    ensures
        spec_count_rows(lines.push(line)) == spec_count_rows(lines) + (if spec_row_counted(
            line,
        ) {
            1int
        } else {
            0int
        }),
    decreases lines.len(),
{
    let whole = lines.push(line);
    if lines.len() == 0 {
        assert(whole[0] == line);
        assert(whole.drop_first() =~= Seq::<Seq<char>>::empty());
        assert(spec_count_rows(whole.drop_first()) == 0);
    } else {
        lemma_count_rows_snoc(lines.drop_first(), line);
        assert(whole.drop_first() =~= lines.drop_first().push(line));
        assert(whole[0] == lines[0]);
        assert(spec_count_rows(whole.drop_first()) == spec_count_rows(lines.drop_first()) + (
        if spec_row_counted(line) {
            1int
        } else {
            0int
        }));
    }
}

/// The full decoding of a CSV text: the first line is the header,
/// every further line a data row.
pub open spec fn spec_decode(text: Seq<char>, kind: BopType) -> Seq<Rec> {
    let lines = spec_split(text, '\n');
    spec_decode_rows(lines.drop_first(), spec_header_cols(lines[0]), kind)
}

/// A structurally usable CSV text: its header row holds at least one
/// track cell after the ignored first cell. An empty header row is a
/// structural failure, not a partial result.
pub open spec fn spec_header_ok(text: Seq<char>) -> bool {
    spec_split(spec_trim(spec_split(text, '\n')[0]), ',').len() > 1
}

/// Number of parsed data rows of a CSV text.
pub open spec fn spec_decode_count(text: Seq<char>) -> int {
    spec_count_rows(spec_split(text, '\n').drop_first())
}

/// Decode a dense CSV table into the sparse record list it denotes,
/// together with the number of data rows that parsed. An empty
/// header row fails outright; otherwise records are emitted even
/// when their value is absent, since filtering happens later.
#[verifier::loop_isolation(false)]
pub fn parse_csv(csv_text: &str, file_type: BopType) -> (r: Option<(Vec<Entry>, usize)>)
    ensures
        r is Some <==> spec_header_ok(csv_text@),
        r matches Option::Some((entries, count)) ==> {
            &&& spec_entry_views(entries@) == spec_decode(csv_text@, file_type)
            &&& count == spec_decode_count(csv_text@)
        },
{
    let lines = split_str(csv_text, '\n');
    let ghost lineviews = spec_views(lines@);
    let nlines = lines.len();
    let header = trim_str(lines[0]);
    let hcells = split_str(header, ',');
    proof {
        assert(lineviews[0] == lines@[0]@);
    }
    if hcells.len() <= 1 {
        return Option::None;
    }
    let cols = resolve_header(&hcells);
    let ghost colviews = spec_opt_views(cols@);
    proof {
        assert(lineviews[0] == lines@[0]@);
        assert(colviews == spec_header_cols(lineviews[0]));
    }

    let mut entries: Vec<Entry> = Vec::new();
    let mut count: usize = 0;
    let mut i: usize = 1;
    proof {
        assert(lineviews.drop_first().subrange(0, 0) =~= Seq::<Seq<char>>::empty());
        assert(spec_entry_views(entries@) =~= Seq::<Rec>::empty());
    }
    while i < nlines
        invariant
            1 <= i <= nlines == lines@.len(),
            spec_entry_views(entries@) == spec_decode_rows(
                lineviews.drop_first().subrange(0, i - 1),
                colviews,
                file_type,
            ),
            count == spec_count_rows(lineviews.drop_first().subrange(0, i - 1)),
            count < i,
        decreases nlines - i,
    {
        let ghost donelines = lineviews.drop_first().subrange(0, i - 1);
        let ghost doneent = spec_entry_views(entries@);
        proof {
            assert(lineviews.drop_first().subrange(0, i as int) =~= donelines.push(
                lineviews[i as int],
            ));
            assert(lineviews[i as int] == lines@[i as int]@);
            lemma_decode_rows_snoc(donelines, lineviews[i as int], colviews, file_type);
            lemma_count_rows_snoc(donelines, lineviews[i as int]);
        }
        if !is_blank_row(lines[i]) {
            let row = trim_str(lines[i]);
            let cells = split_str(row, ',');
            match validate_car_model(Some(cells[0])) {
                Option::Some(model) => {
                    count += 1;
                    let mut rowents = decode_row_cells(&cells, &cols, model, file_type);
                    proof {
                        assert(spec_views(cells@)[0] == cells@[0]@);
                        assert(spec_decode_row(lineviews[i as int], colviews, file_type)
                            == spec_entry_views(rowents@));
                        assert(spec_entry_views(entries@ + rowents@) =~= doneent
                            + spec_entry_views(rowents@));
                    }
                    entries.append(&mut rowents);
                },
                Option::None => {
                    proof {
                        assert(spec_views(cells@)[0] == cells@[0]@);
                        assert(spec_decode_row(lineviews[i as int], colviews, file_type)
                            =~= Seq::<Rec>::empty());
                        assert(doneent + Seq::<Rec>::empty() =~= doneent);
                    }
                },
            }
        } else {
            proof {
                assert(doneent + Seq::<Rec>::empty() =~= doneent);
            }
        }
        i += 1;
    }
    proof {
        assert(lineviews.drop_first().subrange(0, lineviews.len() - 1) =~= lineviews
            .drop_first());
    }
    Option::Some((entries, count))
}

} // verus!
