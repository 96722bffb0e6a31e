use bopconv::BopType;
use bopconv::catalog::get_car_name_from_id;
use bopconv::combine::{csv_to_bop, filter_adjusted, merge_restrictor};
use bopconv::data::{BOP, Entry};
use bopconv::decode::parse_csv;
use bopconv::encode::bop2csv;
use bopconv::normalize::{create_ballast_entry, create_restrictor_entry};
use bopconv::resolve::{validate_car_model, validate_track};

fn entry(track: &str, car: u32, ballast: Option<i32>, restrictor: Option<i32>) -> Entry {
    Entry { track: track.to_string(), car_model: car, ballast_kg: ballast, restrictor }
}

#[test]
fn track_alias_idempotent_case_insensitive() {
    let a = validate_track("Bathurst");
    let b = validate_track("bathurst");
    let c = validate_track("BATHURST ");
    let d = validate_track("mount_panorama");
    assert_eq!(a, Some("mount_panorama".to_string()));
    assert_eq!(b, a);
    assert_eq!(c, a);
    assert_eq!(d, a);
    // resolving a resolved identifier changes nothing further
    let again = validate_track(&a.unwrap());
    assert_eq!(again, Some("mount_panorama".to_string()));
}

#[test]
fn track_other_aliases_and_case() {
    assert_eq!(validate_track("redbull_ring"), Some("red_bull_ring".to_string()));
    assert_eq!(validate_track("nordschleife"), Some("nurburgring_24h".to_string()));
    assert_eq!(validate_track("Red Bull Ring"), Some("red_bull_ring".to_string()));
    assert_eq!(validate_track("barcelona"), Some("Barcelona".to_string()));
    assert_eq!(validate_track("SPA"), Some("Spa".to_string()));
    assert_eq!(validate_track("Nonexistent_Track"), None);
    assert_eq!(validate_track(""), None);
}

#[test]
fn car_token_resolution_first_catalog_match() {
    // catalog order is curated: the newest Audi R8 variant comes first
    assert_eq!(validate_car_model(Some("Audi R8")), Some(31));
    assert_eq!(validate_car_model(Some("Audi R8 LMS GT3 Evo 2019")), Some(19));
    assert_eq!(validate_car_model(Some("audi r8 lms gt3 2015")), Some(3));
    assert_eq!(validate_car_model(Some("BMW M4 GT3")), Some(30));
}

#[test]
fn car_numeric_resolution() {
    assert_eq!(validate_car_model(Some("30")), Some(30));
    assert_eq!(validate_car_model(Some(" 0 ")), Some(0));
    // an unknown numeric id errors loudly instead of falling back to text search
    assert_eq!(validate_car_model(Some("999")), None);
    assert_eq!(validate_car_model(Some("")), None);
    assert_eq!(validate_car_model(None), None);
    assert_eq!(validate_car_model(Some("no such car")), None);
}

#[test]
fn car_name_lookup() {
    assert_eq!(get_car_name_from_id(30), Some("BMW M4 GT3".to_string()));
    assert_eq!(get_car_name_from_id(50), Some("Alpine A110 GT4".to_string()));
    assert_eq!(get_car_name_from_id(999), None);
}

#[test]
fn ballast_values_clamped_and_zero_absent() {
    let track = "monza".to_string();
    assert_eq!(create_ballast_entry("20", 30, &track).ballast_kg, Some(20));
    assert_eq!(create_ballast_entry("-40", 30, &track).ballast_kg, Some(-40));
    assert_eq!(create_ballast_entry("41", 30, &track).ballast_kg, Some(40));
    assert_eq!(create_ballast_entry("-41", 30, &track).ballast_kg, Some(-40));
    assert_eq!(create_ballast_entry("0", 30, &track).ballast_kg, None);
    assert_eq!(create_ballast_entry("", 30, &track).ballast_kg, None);
    assert_eq!(create_ballast_entry("  ", 30, &track).ballast_kg, None);
    assert_eq!(create_ballast_entry("abc", 30, &track).ballast_kg, None);
    let e = create_ballast_entry("7", 30, &track);
    assert_eq!(e.track, "monza");
    assert_eq!(e.car_model, 30);
    assert_eq!(e.restrictor, None);
}

#[test]
fn restrictor_values_discard_negative_clamp_high() {
    let track = "monza".to_string();
    assert_eq!(create_restrictor_entry("10", 30, &track).restrictor, Some(10));
    assert_eq!(create_restrictor_entry("20", 30, &track).restrictor, Some(20));
    assert_eq!(create_restrictor_entry("21", 30, &track).restrictor, Some(20));
    assert_eq!(create_restrictor_entry("-1", 30, &track).restrictor, None);
    assert_eq!(create_restrictor_entry("0", 30, &track).restrictor, None);
    assert_eq!(create_restrictor_entry("", 30, &track).restrictor, None);
    assert_eq!(create_restrictor_entry("x", 30, &track).restrictor, None);
    assert_eq!(create_restrictor_entry("5", 30, &track).ballast_kg, None);
}

#[test]
fn malformed_header_cell_keeps_columns_aligned() {
    let csv = ",monza,Nonexistent_Track,Spa\nBMW M4 GT3,10,99,15\n";
    let (entries, count) = parse_csv(csv, BopType::Ballast).expect("header must parse");
    assert_eq!(count, 1);
    // the bad column is discarded, but the later column still lines up
    assert_eq!(entries.len(), 2);
    assert_eq!(entries[0].track, "monza");
    assert_eq!(entries[0].ballast_kg, Some(10));
    assert_eq!(entries[1].track, "Spa");
    assert_eq!(entries[1].ballast_kg, Some(15));
}

#[test]
fn parse_csv_skips_blank_lines_and_bad_rows() {
    let csv = ",monza,Spa\n,,\n   \nNo Such Car,1,2\n30,5,\n";
    let (entries, count) = parse_csv(csv, BopType::Ballast).expect("header must parse");
    assert_eq!(count, 1);
    assert_eq!(entries.len(), 2);
    assert_eq!(entries[0].track, "monza");
    assert_eq!(entries[0].car_model, 30);
    assert_eq!(entries[0].ballast_kg, Some(5));
    // the empty trailing cell parses as zero, stored as absent
    assert_eq!(entries[1].track, "Spa");
    assert_eq!(entries[1].ballast_kg, None);
}

#[test]
fn parse_csv_extra_cells_ignored() {
    let csv = ",monza\n30,5,6,7\n";
    let (entries, _) = parse_csv(csv, BopType::Ballast).expect("header must parse");
    assert_eq!(entries.len(), 1);
    assert_eq!(entries[0].ballast_kg, Some(5));
}

#[test]
fn end_to_end_single_entry_tables() {
    let entries = vec![entry("monza", 30, Some(20), None)];
    let tables = bop2csv(&entries);
    assert_eq!(tables.ballast, Some(",monza\nBMW M4 GT3,20\n".to_string()));
    // a set without restrictor adjustments yields no restrictor artifact
    assert_eq!(tables.restrictor, None);
}

#[test]
fn all_zero_ballast_table_not_produced() {
    let entries = vec![entry("monza", 30, None, Some(5))];
    let tables = bop2csv(&entries);
    assert_eq!(tables.ballast, None);
    assert_eq!(tables.restrictor, Some(",monza\nBMW M4 GT3,5\n".to_string()));
}

#[test]
fn encoder_row_and_column_order() {
    let entries = vec![
        entry("Spa", 30, Some(1), None),
        entry("monza", 7, Some(2), None),
        entry("Barcelona", 30, Some(3), None),
    ];
    let tables = bop2csv(&entries);
    // columns sorted lexicographically; rows in first-encounter order
    assert_eq!(
        tables.ballast,
        Some(",Barcelona,Spa,monza\nBMW M4 GT3,3,1,0\nBMW M6 GT3,0,0,2\n".to_string())
    );
}

#[test]
fn encoder_unknown_car_id_uses_numeric_label() {
    let entries = vec![entry("monza", 999, Some(4), None)];
    let tables = bop2csv(&entries);
    assert_eq!(tables.ballast, Some(",monza\n999,4\n".to_string()));
}

#[test]
fn merge_overlays_restrictor_on_matching_pair() {
    let mut res = vec![entry("monza", 30, Some(10), None), entry("Spa", 30, Some(5), None)];
    let overlay = vec![
        entry("monza", 30, None, Some(7)),
        entry("Zolder", 7, None, Some(3)),
    ];
    merge_restrictor(&mut res, overlay);
    assert_eq!(res.len(), 3);
    assert_eq!(res[0].ballast_kg, Some(10));
    assert_eq!(res[0].restrictor, Some(7));
    assert_eq!(res[1].restrictor, None);
    assert_eq!(res[2].track, "Zolder");
    assert_eq!(res[2].restrictor, Some(3));
}

#[test]
fn filter_drops_unadjusted() {
    let entries = vec![
        entry("monza", 30, None, None),
        entry("Spa", 30, Some(1), None),
        entry("Zolder", 7, None, Some(2)),
    ];
    let kept = filter_adjusted(entries);
    assert_eq!(kept.len(), 2);
    assert_eq!(kept[0].track, "Spa");
    assert_eq!(kept[1].track, "Zolder");
}

#[test]
fn csv_to_bop_merges_and_filters() {
    let ballast = ",monza,Spa\n30,10,0\n";
    let restrictor = ",monza\n30,4\n";
    let bop = csv_to_bop(ballast, Some(restrictor)).expect("both headers must parse");
    assert_eq!(bop.entries.len(), 1);
    assert_eq!(bop.entries[0].track, "monza");
    assert_eq!(bop.entries[0].ballast_kg, Some(10));
    assert_eq!(bop.entries[0].restrictor, Some(4));
}

#[test]
fn simple_reparse_check() {
    // encode a record set to its CSV tables, decode them again, and
    // compare the surviving records as a set
    let sample = vec![
        entry("monza", 30, Some(20), None),
        entry("Spa", 30, Some(-12), Some(3)),
        entry("mount_panorama", 31, None, Some(15)),
        entry("Barcelona", 7, Some(40), Some(20)),
    ];
    let tables = bop2csv(&sample);
    let btext = tables.ballast.expect("ballast table missing");
    let rtext = tables.restrictor.expect("restrictor table missing");

    let (mut res, _) = parse_csv(&btext, BopType::Ballast).expect("ballast table must parse");
    let (rest, _) = parse_csv(&rtext, BopType::Restrictor).expect("restrictor table must parse");
    merge_restrictor(&mut res, rest);
    let mut entries = filter_adjusted(res);

    // keep serialization-shaped structure intact
    let _bop = BOP { entries: entries.clone() };

    for e in &sample {
        assert!(entries.contains(e), "missing entry for car {} at {}", e.car_model, e.track);
        let mut index = 0;
        for item in entries.iter() {
            if e == item {
                break;
            }
            index += 1;
        }
        entries.remove(index);
    }
    assert!(entries.is_empty(), "there were more entries than there should be");
}

#[test]
fn catalog_tracks_resolve_to_themselves() {
    for t in bopconv::catalog::tracks() {
        assert_eq!(validate_track(&t), Some(t.clone()), "track {}", t);
    }
}

#[test]
fn catalog_car_names_resolve_first_match() {
    // resolution by display name returns the first catalog car whose
    // name contains every token; that is the car itself for every
    // catalog entry except one whose name is a token-subset of an
    // earlier, more specific variant
    let catalog = bopconv::catalog::cars();
    for (id, name) in &catalog {
        assert_eq!(get_car_name_from_id(*id), Some(name.clone()));
        let resolved = validate_car_model(Some(name)).expect("name must resolve");
        if resolved != *id {
            // the winner must come earlier in catalog order and its
            // name must contain every token of the query
            let qpos = catalog.iter().position(|(i, _)| i == id).unwrap();
            let wpos = catalog.iter().position(|(i, _)| *i == resolved).unwrap();
            assert!(wpos < qpos, "car {} resolved to {}", id, resolved);
            let wname = catalog[wpos].1.to_lowercase();
            for tok in name.to_lowercase().split(' ') {
                assert!(wname.contains(tok), "token {} not in {}", tok, wname);
            }
        }
    }
    // the one shadowed entry in the current catalog
    assert_eq!(
        validate_car_model(Some("Lamborghini Huaracan Super Trofeo ST GTC")),
        Some(29)
    );
}

#[test]
fn signed_and_overflowing_cells() {
    let track = "monza".to_string();
    // a leading plus parses like a machine-width parse would
    assert_eq!(create_ballast_entry("+15", 30, &track).ballast_kg, Some(15));
    assert_eq!(create_ballast_entry("-0", 30, &track).ballast_kg, None);
    // out-of-machine-range text is malformed, not clamped
    assert_eq!(create_ballast_entry("99999999999", 30, &track).ballast_kg, None);
    assert_eq!(create_restrictor_entry("+3", 30, &track).restrictor, Some(3));
}

#[test]
fn car_tokens_with_extra_spaces() {
    assert_eq!(validate_car_model(Some("  Audi   R8  ")), Some(31));
    assert_eq!(validate_car_model(Some("audi R8")), Some(31));
}

#[test]
fn parse_csv_count_reports_parsed_rows() {
    let csv = ",monza\n30,1\n7,2\nNo Such Car,3\n31,4\n";
    let (entries, count) = parse_csv(csv, BopType::Ballast).expect("header must parse");
    assert_eq!(count, 3);
    assert_eq!(entries.len(), 3);
}


#[test]
fn stored_zero_values_produce_no_all_zero_table() {
    // a JSON source may carry an explicit zero; every cell of the
    // ballast table is then zero, and an all-zero table is skipped
    let entries = vec![entry("monza", 30, Some(0), None)];
    let tables = bop2csv(&entries);
    assert_eq!(tables.ballast, None);
    assert_eq!(tables.restrictor, None);

    // judged independently per table: the restrictor side still goes out
    let entries = vec![entry("monza", 30, Some(0), Some(5))];
    let tables = bop2csv(&entries);
    assert_eq!(tables.ballast, None);
    assert_eq!(tables.restrictor, Some(",monza\nBMW M4 GT3,5\n".to_string()));
}

#[test]
fn empty_header_row_is_a_structural_failure() {
    // a header with no track cells aborts the decode outright
    assert!(parse_csv("", BopType::Ballast).is_none());
    assert!(parse_csv("no separator here\n30,5\n", BopType::Ballast).is_none());
    // one (even unresolvable) header cell is not a structural failure
    assert!(parse_csv(",\n30,5\n", BopType::Ballast).is_some());
    assert!(parse_csv(",Nonexistent_Track\n30,5\n", BopType::Ballast).is_some());
}

#[test]
fn csv_to_bop_surfaces_structural_failure() {
    assert!(csv_to_bop("", None).is_none());
    assert!(csv_to_bop(",monza\n30,5\n", Some("bad header")).is_none());
    let bop = csv_to_bop(",monza\n30,5\n", None).expect("header must parse");
    assert_eq!(bop.entries.len(), 1);
}
