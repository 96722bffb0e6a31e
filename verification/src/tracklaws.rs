use vstd::prelude::*;

use crate::chars::{spec_is_ws, spec_lower, spec_trim, spec_underscore};
use crate::catalog::spec_tracks;
use crate::resolve::{spec_alias, spec_normalize_track, spec_resolve_track, spec_track_match_in};
use crate::roundtrip::lemma_trim_identity;

verus! {

/// Whatever a successful track match returns is a catalog member.
proof fn lemma_track_match_member(ts: Seq<Seq<char>>, s: Seq<char>)
    ensures
        spec_track_match_in(ts, s) matches Option::Some(t) ==> ts.contains(t),
    decreases ts.len(),
{
    if ts.len() > 0 {
        if spec_lower(ts[0]) == s {
            assert(ts.contains(ts[0]));
        } else {
            lemma_track_match_member(ts.drop_first(), s);
            if spec_track_match_in(ts, s) is Some {
                let t = spec_track_match_in(ts, s).unwrap();
                assert(ts.drop_first().contains(t));
                let k = choose|k: int| 0 <= k < ts.drop_first().len() && ts.drop_first()[k] == t;
                assert(ts[k + 1] == ts.drop_first()[k]);
            }
        }
    }
}

proof fn lemma_track_self_0()
    ensures
        spec_resolve_track(spec_tracks()[0]) == Option::Some(spec_tracks()[0]),
{
    reveal_strlit("Barcelona");
    reveal_strlit("bathurst");
    reveal_strlit("redbull_ring");
    reveal_strlit("nordschleife");
    let t = "Barcelona"@;
    assert(t.len() == 9);
    assert(!spec_is_ws(t[0]) && !spec_is_ws(t[8]));
    lemma_trim_identity(t);
    assert(spec_underscore(t) =~= t) by {
        assert(forall|j: int| 0 <= j < 9 ==> t[j] != ' ');
    }
    let low = spec_lower(t);
    assert(low.len() == 9);
    assert(spec_alias(low) == low) by {
        assert(low.len() != "bathurst"@.len());
        assert(low.len() != "redbull_ring"@.len());
        assert(low.len() != "nordschleife"@.len());
    }
    assert(spec_normalize_track(t) == low);
    assert(spec_track_match_in(spec_tracks(), low) == Option::Some(t)) by {
        reveal_with_fuel(spec_track_match_in, 2);
        assert(spec_tracks()[0] == t);
        assert(spec_lower(spec_tracks()[0]) == low);
    }
}

proof fn lemma_track_self_1()
    ensures
        spec_resolve_track(spec_tracks()[1]) == Option::Some(spec_tracks()[1]),
{
    reveal_strlit("brands_hatch");
    reveal_strlit("Barcelona");
    reveal_strlit("bathurst");
    reveal_strlit("redbull_ring");
    reveal_strlit("nordschleife");
    let t = "brands_hatch"@;
    assert(t.len() == 12);
    assert(!spec_is_ws(t[0]) && !spec_is_ws(t[11]));
    lemma_trim_identity(t);
    assert(spec_underscore(t) =~= t) by {
        assert(forall|j: int| 0 <= j < 12 ==> t[j] != ' ');
    }
    let low = spec_lower(t);
    assert(low.len() == 12);
    assert(spec_alias(low) == low) by {
        assert(low.len() != "bathurst"@.len());
        assert(low[0] != "redbull_ring"@[0]);
        assert(low[0] != "nordschleife"@[0]);
    }
    assert(spec_normalize_track(t) == low);
    assert(spec_lower(spec_tracks()[0]).len() != low.len());
    assert(spec_track_match_in(spec_tracks(), low) == Option::Some(t)) by {
        reveal_with_fuel(spec_track_match_in, 3);
        assert(spec_lower(spec_tracks()[0]) != low);
        assert(spec_tracks()[1] == t);
        assert(spec_lower(spec_tracks()[1]) == low);
    }
}

proof fn lemma_track_self_2()
    ensures
        spec_resolve_track(spec_tracks()[2]) == Option::Some(spec_tracks()[2]),
{
    reveal_strlit("cota");
    reveal_strlit("Barcelona");
    reveal_strlit("brands_hatch");
    reveal_strlit("bathurst");
    reveal_strlit("redbull_ring");
    reveal_strlit("nordschleife");
    let t = "cota"@;
    assert(t.len() == 4);
    assert(!spec_is_ws(t[0]) && !spec_is_ws(t[3]));
    lemma_trim_identity(t);
    assert(spec_underscore(t) =~= t) by {
        assert(forall|j: int| 0 <= j < 4 ==> t[j] != ' ');
    }
    let low = spec_lower(t);
    assert(low.len() == 4);
    assert(spec_alias(low) == low) by {
        assert(low.len() != "bathurst"@.len());
        assert(low.len() != "redbull_ring"@.len());
        assert(low.len() != "nordschleife"@.len());
    }
    assert(spec_normalize_track(t) == low);
    assert(spec_lower(spec_tracks()[0]).len() != low.len());
    assert(spec_lower(spec_tracks()[1]).len() != low.len());
    assert(spec_track_match_in(spec_tracks(), low) == Option::Some(t)) by {
        reveal_with_fuel(spec_track_match_in, 4);
        assert(spec_lower(spec_tracks()[0]) != low);
        assert(spec_lower(spec_tracks()[1]) != low);
        assert(spec_tracks()[2] == t);
        assert(spec_lower(spec_tracks()[2]) == low);
    }
}

proof fn lemma_track_self_3()
    ensures
        spec_resolve_track(spec_tracks()[3]) == Option::Some(spec_tracks()[3]),
{
    reveal_strlit("donington");
    reveal_strlit("Barcelona");
    reveal_strlit("brands_hatch");
    reveal_strlit("cota");
    reveal_strlit("bathurst");
    reveal_strlit("redbull_ring");
    reveal_strlit("nordschleife");
    let t = "donington"@;
    assert(t.len() == 9);
    assert(!spec_is_ws(t[0]) && !spec_is_ws(t[8]));
    lemma_trim_identity(t);
    assert(spec_underscore(t) =~= t) by {
        assert(forall|j: int| 0 <= j < 9 ==> t[j] != ' ');
    }
    let low = spec_lower(t);
    assert(low.len() == 9);
    assert(spec_alias(low) == low) by {
        assert(low.len() != "bathurst"@.len());
        assert(low.len() != "redbull_ring"@.len());
        assert(low.len() != "nordschleife"@.len());
    }
    assert(spec_normalize_track(t) == low);
    assert(spec_lower(spec_tracks()[0])[0] != low[0]);
    assert(spec_lower(spec_tracks()[1]).len() != low.len());
    assert(spec_lower(spec_tracks()[2]).len() != low.len());
    assert(spec_track_match_in(spec_tracks(), low) == Option::Some(t)) by {
        reveal_with_fuel(spec_track_match_in, 5);
        assert(spec_lower(spec_tracks()[0]) != low);
        assert(spec_lower(spec_tracks()[1]) != low);
        assert(spec_lower(spec_tracks()[2]) != low);
        assert(spec_tracks()[3] == t);
        assert(spec_lower(spec_tracks()[3]) == low);
    }
}

proof fn lemma_track_self_4()
    ensures
        spec_resolve_track(spec_tracks()[4]) == Option::Some(spec_tracks()[4]),
{
    reveal_strlit("Hungaroring");
    reveal_strlit("Barcelona");
    reveal_strlit("brands_hatch");
    reveal_strlit("cota");
    reveal_strlit("donington");
    reveal_strlit("bathurst");
    reveal_strlit("redbull_ring");
    reveal_strlit("nordschleife");
    let t = "Hungaroring"@;
    assert(t.len() == 11);
    assert(!spec_is_ws(t[0]) && !spec_is_ws(t[10]));
    lemma_trim_identity(t);
    assert(spec_underscore(t) =~= t) by {
        assert(forall|j: int| 0 <= j < 11 ==> t[j] != ' ');
    }
    let low = spec_lower(t);
    assert(low.len() == 11);
    assert(spec_alias(low) == low) by {
        assert(low.len() != "bathurst"@.len());
        assert(low.len() != "redbull_ring"@.len());
        assert(low.len() != "nordschleife"@.len());
    }
    assert(spec_normalize_track(t) == low);
    assert(spec_lower(spec_tracks()[0]).len() != low.len());
    assert(spec_lower(spec_tracks()[1]).len() != low.len());
    assert(spec_lower(spec_tracks()[2]).len() != low.len());
    assert(spec_lower(spec_tracks()[3]).len() != low.len());
    assert(spec_track_match_in(spec_tracks(), low) == Option::Some(t)) by {
        reveal_with_fuel(spec_track_match_in, 6);
        assert(spec_lower(spec_tracks()[0]) != low);
        assert(spec_lower(spec_tracks()[1]) != low);
        assert(spec_lower(spec_tracks()[2]) != low);
        assert(spec_lower(spec_tracks()[3]) != low);
        assert(spec_tracks()[4] == t);
        assert(spec_lower(spec_tracks()[4]) == low);
    }
}

proof fn lemma_track_self_5()
    ensures
        spec_resolve_track(spec_tracks()[5]) == Option::Some(spec_tracks()[5]),
{
    reveal_strlit("Imola");
    reveal_strlit("Barcelona");
    reveal_strlit("brands_hatch");
    reveal_strlit("cota");
    reveal_strlit("donington");
    reveal_strlit("Hungaroring");
    reveal_strlit("bathurst");
    reveal_strlit("redbull_ring");
    reveal_strlit("nordschleife");
    let t = "Imola"@;
    assert(t.len() == 5);
    assert(!spec_is_ws(t[0]) && !spec_is_ws(t[4]));
    lemma_trim_identity(t);
    assert(spec_underscore(t) =~= t) by {
        assert(forall|j: int| 0 <= j < 5 ==> t[j] != ' ');
    }
    let low = spec_lower(t);
    assert(low.len() == 5);
    assert(spec_alias(low) == low) by {
        assert(low.len() != "bathurst"@.len());
        assert(low.len() != "redbull_ring"@.len());
        assert(low.len() != "nordschleife"@.len());
    }
    assert(spec_normalize_track(t) == low);
    assert(spec_lower(spec_tracks()[0]).len() != low.len());
    assert(spec_lower(spec_tracks()[1]).len() != low.len());
    assert(spec_lower(spec_tracks()[2]).len() != low.len());
    assert(spec_lower(spec_tracks()[3]).len() != low.len());
    assert(spec_lower(spec_tracks()[4]).len() != low.len());
    assert(spec_track_match_in(spec_tracks(), low) == Option::Some(t)) by {
        reveal_with_fuel(spec_track_match_in, 7);
        assert(spec_lower(spec_tracks()[0]) != low);
        assert(spec_lower(spec_tracks()[1]) != low);
        assert(spec_lower(spec_tracks()[2]) != low);
        assert(spec_lower(spec_tracks()[3]) != low);
        assert(spec_lower(spec_tracks()[4]) != low);
        assert(spec_tracks()[5] == t);
        assert(spec_lower(spec_tracks()[5]) == low);
    }
}

proof fn lemma_track_self_6()
    ensures
        spec_resolve_track(spec_tracks()[6]) == Option::Some(spec_tracks()[6]),
{
    reveal_strlit("indianapolis");
    reveal_strlit("Barcelona");
    reveal_strlit("brands_hatch");
    reveal_strlit("cota");
    reveal_strlit("donington");
    reveal_strlit("Hungaroring");
    reveal_strlit("Imola");
    reveal_strlit("bathurst");
    reveal_strlit("redbull_ring");
    reveal_strlit("nordschleife");
    let t = "indianapolis"@;
    assert(t.len() == 12);
    assert(!spec_is_ws(t[0]) && !spec_is_ws(t[11]));
    lemma_trim_identity(t);
    assert(spec_underscore(t) =~= t) by {
        assert(forall|j: int| 0 <= j < 12 ==> t[j] != ' ');
    }
    let low = spec_lower(t);
    assert(low.len() == 12);
    assert(spec_alias(low) == low) by {
        assert(low.len() != "bathurst"@.len());
        assert(low[0] != "redbull_ring"@[0]);
        assert(low[0] != "nordschleife"@[0]);
    }
    assert(spec_normalize_track(t) == low);
    assert(spec_lower(spec_tracks()[0]).len() != low.len());
    assert(spec_lower(spec_tracks()[1])[0] != low[0]);
    assert(spec_lower(spec_tracks()[2]).len() != low.len());
    assert(spec_lower(spec_tracks()[3]).len() != low.len());
    assert(spec_lower(spec_tracks()[4]).len() != low.len());
    assert(spec_lower(spec_tracks()[5]).len() != low.len());
    assert(spec_track_match_in(spec_tracks(), low) == Option::Some(t)) by {
        reveal_with_fuel(spec_track_match_in, 8);
        assert(spec_lower(spec_tracks()[0]) != low);
        assert(spec_lower(spec_tracks()[1]) != low);
        assert(spec_lower(spec_tracks()[2]) != low);
        assert(spec_lower(spec_tracks()[3]) != low);
        assert(spec_lower(spec_tracks()[4]) != low);
        assert(spec_lower(spec_tracks()[5]) != low);
        assert(spec_tracks()[6] == t);
        assert(spec_lower(spec_tracks()[6]) == low);
    }
}

proof fn lemma_track_self_7()
    ensures
        spec_resolve_track(spec_tracks()[7]) == Option::Some(spec_tracks()[7]),
{
    reveal_strlit("Kyalami");
    reveal_strlit("Barcelona");
    reveal_strlit("brands_hatch");
    reveal_strlit("cota");
    reveal_strlit("donington");
    reveal_strlit("Hungaroring");
    reveal_strlit("Imola");
    reveal_strlit("indianapolis");
    reveal_strlit("bathurst");
    reveal_strlit("redbull_ring");
    reveal_strlit("nordschleife");
    let t = "Kyalami"@;
    assert(t.len() == 7);
    assert(!spec_is_ws(t[0]) && !spec_is_ws(t[6]));
    lemma_trim_identity(t);
    assert(spec_underscore(t) =~= t) by {
        assert(forall|j: int| 0 <= j < 7 ==> t[j] != ' ');
    }
    let low = spec_lower(t);
    assert(low.len() == 7);
    assert(spec_alias(low) == low) by {
        assert(low.len() != "bathurst"@.len());
        assert(low.len() != "redbull_ring"@.len());
        assert(low.len() != "nordschleife"@.len());
    }
    assert(spec_normalize_track(t) == low);
    assert(spec_lower(spec_tracks()[0]).len() != low.len());
    assert(spec_lower(spec_tracks()[1]).len() != low.len());
    assert(spec_lower(spec_tracks()[2]).len() != low.len());
    assert(spec_lower(spec_tracks()[3]).len() != low.len());
    assert(spec_lower(spec_tracks()[4]).len() != low.len());
    assert(spec_lower(spec_tracks()[5]).len() != low.len());
    assert(spec_lower(spec_tracks()[6]).len() != low.len());
    assert(spec_track_match_in(spec_tracks(), low) == Option::Some(t)) by {
        reveal_with_fuel(spec_track_match_in, 9);
        assert(spec_lower(spec_tracks()[0]) != low);
        assert(spec_lower(spec_tracks()[1]) != low);
        assert(spec_lower(spec_tracks()[2]) != low);
        assert(spec_lower(spec_tracks()[3]) != low);
        assert(spec_lower(spec_tracks()[4]) != low);
        assert(spec_lower(spec_tracks()[5]) != low);
        assert(spec_lower(spec_tracks()[6]) != low);
        assert(spec_tracks()[7] == t);
        assert(spec_lower(spec_tracks()[7]) == low);
    }
}

proof fn lemma_track_self_8()
    ensures
        spec_resolve_track(spec_tracks()[8]) == Option::Some(spec_tracks()[8]),
{
    reveal_strlit("Laguna_Seca");
    reveal_strlit("Barcelona");
    reveal_strlit("brands_hatch");
    reveal_strlit("cota");
    reveal_strlit("donington");
    reveal_strlit("Hungaroring");
    reveal_strlit("Imola");
    reveal_strlit("indianapolis");
    reveal_strlit("Kyalami");
    reveal_strlit("bathurst");
    reveal_strlit("redbull_ring");
    reveal_strlit("nordschleife");
    let t = "Laguna_Seca"@;
    assert(t.len() == 11);
    assert(!spec_is_ws(t[0]) && !spec_is_ws(t[10]));
    lemma_trim_identity(t);
    assert(spec_underscore(t) =~= t) by {
        assert(forall|j: int| 0 <= j < 11 ==> t[j] != ' ');
    }
    let low = spec_lower(t);
    assert(low.len() == 11);
    assert(spec_alias(low) == low) by {
        assert(low.len() != "bathurst"@.len());
        assert(low.len() != "redbull_ring"@.len());
        assert(low.len() != "nordschleife"@.len());
    }
    assert(spec_normalize_track(t) == low);
    assert(spec_lower(spec_tracks()[0]).len() != low.len());
    assert(spec_lower(spec_tracks()[1]).len() != low.len());
    assert(spec_lower(spec_tracks()[2]).len() != low.len());
    assert(spec_lower(spec_tracks()[3]).len() != low.len());
    assert(spec_lower(spec_tracks()[4])[0] != low[0]);
    assert(spec_lower(spec_tracks()[5]).len() != low.len());
    assert(spec_lower(spec_tracks()[6]).len() != low.len());
    assert(spec_lower(spec_tracks()[7]).len() != low.len());
    assert(spec_track_match_in(spec_tracks(), low) == Option::Some(t)) by {
        reveal_with_fuel(spec_track_match_in, 10);
        assert(spec_lower(spec_tracks()[0]) != low);
        assert(spec_lower(spec_tracks()[1]) != low);
        assert(spec_lower(spec_tracks()[2]) != low);
        assert(spec_lower(spec_tracks()[3]) != low);
        assert(spec_lower(spec_tracks()[4]) != low);
        assert(spec_lower(spec_tracks()[5]) != low);
        assert(spec_lower(spec_tracks()[6]) != low);
        assert(spec_lower(spec_tracks()[7]) != low);
        assert(spec_tracks()[8] == t);
        assert(spec_lower(spec_tracks()[8]) == low);
    }
}

proof fn lemma_track_self_9()
    ensures
        spec_resolve_track(spec_tracks()[9]) == Option::Some(spec_tracks()[9]),
{
    reveal_strlit("misano");
    reveal_strlit("Barcelona");
    reveal_strlit("brands_hatch");
    reveal_strlit("cota");
    reveal_strlit("donington");
    reveal_strlit("Hungaroring");
    reveal_strlit("Imola");
    reveal_strlit("indianapolis");
    reveal_strlit("Kyalami");
    reveal_strlit("Laguna_Seca");
    reveal_strlit("bathurst");
    reveal_strlit("redbull_ring");
    reveal_strlit("nordschleife");
    let t = "misano"@;
    assert(t.len() == 6);
    assert(!spec_is_ws(t[0]) && !spec_is_ws(t[5]));
    lemma_trim_identity(t);
    assert(spec_underscore(t) =~= t) by {
        assert(forall|j: int| 0 <= j < 6 ==> t[j] != ' ');
    }
    let low = spec_lower(t);
    assert(low.len() == 6);
    assert(spec_alias(low) == low) by {
        assert(low.len() != "bathurst"@.len());
        assert(low.len() != "redbull_ring"@.len());
        assert(low.len() != "nordschleife"@.len());
    }
    assert(spec_normalize_track(t) == low);
    assert(spec_lower(spec_tracks()[0]).len() != low.len());
    assert(spec_lower(spec_tracks()[1]).len() != low.len());
    assert(spec_lower(spec_tracks()[2]).len() != low.len());
    assert(spec_lower(spec_tracks()[3]).len() != low.len());
    assert(spec_lower(spec_tracks()[4]).len() != low.len());
    assert(spec_lower(spec_tracks()[5]).len() != low.len());
    assert(spec_lower(spec_tracks()[6]).len() != low.len());
    assert(spec_lower(spec_tracks()[7]).len() != low.len());
    assert(spec_lower(spec_tracks()[8]).len() != low.len());
    assert(spec_track_match_in(spec_tracks(), low) == Option::Some(t)) by {
        reveal_with_fuel(spec_track_match_in, 11);
        assert(spec_lower(spec_tracks()[0]) != low);
        assert(spec_lower(spec_tracks()[1]) != low);
        assert(spec_lower(spec_tracks()[2]) != low);
        assert(spec_lower(spec_tracks()[3]) != low);
        assert(spec_lower(spec_tracks()[4]) != low);
        assert(spec_lower(spec_tracks()[5]) != low);
        assert(spec_lower(spec_tracks()[6]) != low);
        assert(spec_lower(spec_tracks()[7]) != low);
        assert(spec_lower(spec_tracks()[8]) != low);
        assert(spec_tracks()[9] == t);
        assert(spec_lower(spec_tracks()[9]) == low);
    }
}

proof fn lemma_track_self_10()
    ensures
        spec_resolve_track(spec_tracks()[10]) == Option::Some(spec_tracks()[10]),
{
    reveal_strlit("monza");
    reveal_strlit("Barcelona");
    reveal_strlit("brands_hatch");
    reveal_strlit("cota");
    reveal_strlit("donington");
    reveal_strlit("Hungaroring");
    reveal_strlit("Imola");
    reveal_strlit("indianapolis");
    reveal_strlit("Kyalami");
    reveal_strlit("Laguna_Seca");
    reveal_strlit("misano");
    reveal_strlit("bathurst");
    reveal_strlit("redbull_ring");
    reveal_strlit("nordschleife");
    let t = "monza"@;
    assert(t.len() == 5);
    assert(!spec_is_ws(t[0]) && !spec_is_ws(t[4]));
    lemma_trim_identity(t);
    assert(spec_underscore(t) =~= t) by {
        assert(forall|j: int| 0 <= j < 5 ==> t[j] != ' ');
    }
    let low = spec_lower(t);
    assert(low.len() == 5);
    assert(spec_alias(low) == low) by {
        assert(low.len() != "bathurst"@.len());
        assert(low.len() != "redbull_ring"@.len());
        assert(low.len() != "nordschleife"@.len());
    }
    assert(spec_normalize_track(t) == low);
    assert(spec_lower(spec_tracks()[0]).len() != low.len());
    assert(spec_lower(spec_tracks()[1]).len() != low.len());
    assert(spec_lower(spec_tracks()[2]).len() != low.len());
    assert(spec_lower(spec_tracks()[3]).len() != low.len());
    assert(spec_lower(spec_tracks()[4]).len() != low.len());
    assert(spec_lower(spec_tracks()[5])[0] != low[0]);
    assert(spec_lower(spec_tracks()[6]).len() != low.len());
    assert(spec_lower(spec_tracks()[7]).len() != low.len());
    assert(spec_lower(spec_tracks()[8]).len() != low.len());
    assert(spec_lower(spec_tracks()[9]).len() != low.len());
    assert(spec_track_match_in(spec_tracks(), low) == Option::Some(t)) by {
        reveal_with_fuel(spec_track_match_in, 12);
        assert(spec_lower(spec_tracks()[0]) != low);
        assert(spec_lower(spec_tracks()[1]) != low);
        assert(spec_lower(spec_tracks()[2]) != low);
        assert(spec_lower(spec_tracks()[3]) != low);
        assert(spec_lower(spec_tracks()[4]) != low);
        assert(spec_lower(spec_tracks()[5]) != low);
        assert(spec_lower(spec_tracks()[6]) != low);
        assert(spec_lower(spec_tracks()[7]) != low);
        assert(spec_lower(spec_tracks()[8]) != low);
        assert(spec_lower(spec_tracks()[9]) != low);
        assert(spec_tracks()[10] == t);
        assert(spec_lower(spec_tracks()[10]) == low);
    }
}

proof fn lemma_track_self_11()
    ensures
        spec_resolve_track(spec_tracks()[11]) == Option::Some(spec_tracks()[11]),
{
    reveal_strlit("mount_panorama");
    reveal_strlit("Barcelona");
    reveal_strlit("brands_hatch");
    reveal_strlit("cota");
    reveal_strlit("donington");
    reveal_strlit("Hungaroring");
    reveal_strlit("Imola");
    reveal_strlit("indianapolis");
    reveal_strlit("Kyalami");
    reveal_strlit("Laguna_Seca");
    reveal_strlit("misano");
    reveal_strlit("monza");
    reveal_strlit("bathurst");
    reveal_strlit("redbull_ring");
    reveal_strlit("nordschleife");
    let t = "mount_panorama"@;
    assert(t.len() == 14);
    assert(!spec_is_ws(t[0]) && !spec_is_ws(t[13]));
    lemma_trim_identity(t);
    assert(spec_underscore(t) =~= t) by {
        assert(forall|j: int| 0 <= j < 14 ==> t[j] != ' ');
    }
    let low = spec_lower(t);
    assert(low.len() == 14);
    assert(spec_alias(low) == low) by {
        assert(low.len() != "bathurst"@.len());
        assert(low.len() != "redbull_ring"@.len());
        assert(low.len() != "nordschleife"@.len());
    }
    assert(spec_normalize_track(t) == low);
    assert(spec_lower(spec_tracks()[0]).len() != low.len());
    assert(spec_lower(spec_tracks()[1]).len() != low.len());
    assert(spec_lower(spec_tracks()[2]).len() != low.len());
    assert(spec_lower(spec_tracks()[3]).len() != low.len());
    assert(spec_lower(spec_tracks()[4]).len() != low.len());
    assert(spec_lower(spec_tracks()[5]).len() != low.len());
    assert(spec_lower(spec_tracks()[6]).len() != low.len());
    assert(spec_lower(spec_tracks()[7]).len() != low.len());
    assert(spec_lower(spec_tracks()[8]).len() != low.len());
    assert(spec_lower(spec_tracks()[9]).len() != low.len());
    assert(spec_lower(spec_tracks()[10]).len() != low.len());
    assert(spec_track_match_in(spec_tracks(), low) == Option::Some(t)) by {
        reveal_with_fuel(spec_track_match_in, 13);
        assert(spec_lower(spec_tracks()[0]) != low);
        assert(spec_lower(spec_tracks()[1]) != low);
        assert(spec_lower(spec_tracks()[2]) != low);
        assert(spec_lower(spec_tracks()[3]) != low);
        assert(spec_lower(spec_tracks()[4]) != low);
        assert(spec_lower(spec_tracks()[5]) != low);
        assert(spec_lower(spec_tracks()[6]) != low);
        assert(spec_lower(spec_tracks()[7]) != low);
        assert(spec_lower(spec_tracks()[8]) != low);
        assert(spec_lower(spec_tracks()[9]) != low);
        assert(spec_lower(spec_tracks()[10]) != low);
        assert(spec_tracks()[11] == t);
        assert(spec_lower(spec_tracks()[11]) == low);
    }
}

proof fn lemma_track_self_12()
    ensures
        spec_resolve_track(spec_tracks()[12]) == Option::Some(spec_tracks()[12]),
{
    reveal_strlit("nurburgring");
    reveal_strlit("Barcelona");
    reveal_strlit("brands_hatch");
    reveal_strlit("cota");
    reveal_strlit("donington");
    reveal_strlit("Hungaroring");
    reveal_strlit("Imola");
    reveal_strlit("indianapolis");
    reveal_strlit("Kyalami");
    reveal_strlit("Laguna_Seca");
    reveal_strlit("misano");
    reveal_strlit("monza");
    reveal_strlit("mount_panorama");
    reveal_strlit("bathurst");
    reveal_strlit("redbull_ring");
    reveal_strlit("nordschleife");
    let t = "nurburgring"@;
    assert(t.len() == 11);
    assert(!spec_is_ws(t[0]) && !spec_is_ws(t[10]));
    lemma_trim_identity(t);
    assert(spec_underscore(t) =~= t) by {
        assert(forall|j: int| 0 <= j < 11 ==> t[j] != ' ');
    }
    let low = spec_lower(t);
    assert(low.len() == 11);
    assert(spec_alias(low) == low) by {
        assert(low.len() != "bathurst"@.len());
        assert(low.len() != "redbull_ring"@.len());
        assert(low.len() != "nordschleife"@.len());
    }
    assert(spec_normalize_track(t) == low);
    assert(spec_lower(spec_tracks()[0]).len() != low.len());
    assert(spec_lower(spec_tracks()[1]).len() != low.len());
    assert(spec_lower(spec_tracks()[2]).len() != low.len());
    assert(spec_lower(spec_tracks()[3]).len() != low.len());
    assert(spec_lower(spec_tracks()[4])[0] != low[0]);
    assert(spec_lower(spec_tracks()[5]).len() != low.len());
    assert(spec_lower(spec_tracks()[6]).len() != low.len());
    assert(spec_lower(spec_tracks()[7]).len() != low.len());
    assert(spec_lower(spec_tracks()[8])[0] != low[0]);
    assert(spec_lower(spec_tracks()[9]).len() != low.len());
    assert(spec_lower(spec_tracks()[10]).len() != low.len());
    assert(spec_lower(spec_tracks()[11]).len() != low.len());
    assert(spec_track_match_in(spec_tracks(), low) == Option::Some(t)) by {
        reveal_with_fuel(spec_track_match_in, 14);
        assert(spec_lower(spec_tracks()[0]) != low);
        assert(spec_lower(spec_tracks()[1]) != low);
        assert(spec_lower(spec_tracks()[2]) != low);
        assert(spec_lower(spec_tracks()[3]) != low);
        assert(spec_lower(spec_tracks()[4]) != low);
        assert(spec_lower(spec_tracks()[5]) != low);
        assert(spec_lower(spec_tracks()[6]) != low);
        assert(spec_lower(spec_tracks()[7]) != low);
        assert(spec_lower(spec_tracks()[8]) != low);
        assert(spec_lower(spec_tracks()[9]) != low);
        assert(spec_lower(spec_tracks()[10]) != low);
        assert(spec_lower(spec_tracks()[11]) != low);
        assert(spec_tracks()[12] == t);
        assert(spec_lower(spec_tracks()[12]) == low);
    }
}

proof fn lemma_track_self_13()
    ensures
        spec_resolve_track(spec_tracks()[13]) == Option::Some(spec_tracks()[13]),
{
    reveal_strlit("nurburgring_24h");
    reveal_strlit("Barcelona");
    reveal_strlit("brands_hatch");
    reveal_strlit("cota");
    reveal_strlit("donington");
    reveal_strlit("Hungaroring");
    reveal_strlit("Imola");
    reveal_strlit("indianapolis");
    reveal_strlit("Kyalami");
    reveal_strlit("Laguna_Seca");
    reveal_strlit("misano");
    reveal_strlit("monza");
    reveal_strlit("mount_panorama");
    reveal_strlit("nurburgring");
    reveal_strlit("bathurst");
    reveal_strlit("redbull_ring");
    reveal_strlit("nordschleife");
    let t = "nurburgring_24h"@;
    assert(t.len() == 15);
    assert(!spec_is_ws(t[0]) && !spec_is_ws(t[14]));
    lemma_trim_identity(t);
    assert(spec_underscore(t) =~= t) by {
        assert(forall|j: int| 0 <= j < 15 ==> t[j] != ' ');
    }
    let low = spec_lower(t);
    assert(low.len() == 15);
    assert(spec_alias(low) == low) by {
        assert(low.len() != "bathurst"@.len());
        assert(low.len() != "redbull_ring"@.len());
        assert(low.len() != "nordschleife"@.len());
    }
    assert(spec_normalize_track(t) == low);
    assert(spec_lower(spec_tracks()[0]).len() != low.len());
    assert(spec_lower(spec_tracks()[1]).len() != low.len());
    assert(spec_lower(spec_tracks()[2]).len() != low.len());
    assert(spec_lower(spec_tracks()[3]).len() != low.len());
    assert(spec_lower(spec_tracks()[4]).len() != low.len());
    assert(spec_lower(spec_tracks()[5]).len() != low.len());
    assert(spec_lower(spec_tracks()[6]).len() != low.len());
    assert(spec_lower(spec_tracks()[7]).len() != low.len());
    assert(spec_lower(spec_tracks()[8]).len() != low.len());
    assert(spec_lower(spec_tracks()[9]).len() != low.len());
    assert(spec_lower(spec_tracks()[10]).len() != low.len());
    assert(spec_lower(spec_tracks()[11]).len() != low.len());
    assert(spec_lower(spec_tracks()[12]).len() != low.len());
    assert(spec_track_match_in(spec_tracks(), low) == Option::Some(t)) by {
        reveal_with_fuel(spec_track_match_in, 15);
        assert(spec_lower(spec_tracks()[0]) != low);
        assert(spec_lower(spec_tracks()[1]) != low);
        assert(spec_lower(spec_tracks()[2]) != low);
        assert(spec_lower(spec_tracks()[3]) != low);
        assert(spec_lower(spec_tracks()[4]) != low);
        assert(spec_lower(spec_tracks()[5]) != low);
        assert(spec_lower(spec_tracks()[6]) != low);
        assert(spec_lower(spec_tracks()[7]) != low);
        assert(spec_lower(spec_tracks()[8]) != low);
        assert(spec_lower(spec_tracks()[9]) != low);
        assert(spec_lower(spec_tracks()[10]) != low);
        assert(spec_lower(spec_tracks()[11]) != low);
        assert(spec_lower(spec_tracks()[12]) != low);
        assert(spec_tracks()[13] == t);
        assert(spec_lower(spec_tracks()[13]) == low);
    }
}

proof fn lemma_track_self_14()
    ensures
        spec_resolve_track(spec_tracks()[14]) == Option::Some(spec_tracks()[14]),
{
    reveal_strlit("oulton_park");
    reveal_strlit("Barcelona");
    reveal_strlit("brands_hatch");
    reveal_strlit("cota");
    reveal_strlit("donington");
    reveal_strlit("Hungaroring");
    reveal_strlit("Imola");
    reveal_strlit("indianapolis");
    reveal_strlit("Kyalami");
    reveal_strlit("Laguna_Seca");
    reveal_strlit("misano");
    reveal_strlit("monza");
    reveal_strlit("mount_panorama");
    reveal_strlit("nurburgring");
    reveal_strlit("nurburgring_24h");
    reveal_strlit("bathurst");
    reveal_strlit("redbull_ring");
    reveal_strlit("nordschleife");
    let t = "oulton_park"@;
    assert(t.len() == 11);
    assert(!spec_is_ws(t[0]) && !spec_is_ws(t[10]));
    lemma_trim_identity(t);
    assert(spec_underscore(t) =~= t) by {
        assert(forall|j: int| 0 <= j < 11 ==> t[j] != ' ');
    }
    let low = spec_lower(t);
    assert(low.len() == 11);
    assert(spec_alias(low) == low) by {
        assert(low.len() != "bathurst"@.len());
        assert(low.len() != "redbull_ring"@.len());
        assert(low.len() != "nordschleife"@.len());
    }
    assert(spec_normalize_track(t) == low);
    assert(spec_lower(spec_tracks()[0]).len() != low.len());
    assert(spec_lower(spec_tracks()[1]).len() != low.len());
    assert(spec_lower(spec_tracks()[2]).len() != low.len());
    assert(spec_lower(spec_tracks()[3]).len() != low.len());
    assert(spec_lower(spec_tracks()[4])[0] != low[0]);
    assert(spec_lower(spec_tracks()[5]).len() != low.len());
    assert(spec_lower(spec_tracks()[6]).len() != low.len());
    assert(spec_lower(spec_tracks()[7]).len() != low.len());
    assert(spec_lower(spec_tracks()[8])[0] != low[0]);
    assert(spec_lower(spec_tracks()[9]).len() != low.len());
    assert(spec_lower(spec_tracks()[10]).len() != low.len());
    assert(spec_lower(spec_tracks()[11]).len() != low.len());
    assert(spec_lower(spec_tracks()[12])[0] != low[0]);
    assert(spec_lower(spec_tracks()[13]).len() != low.len());
    assert(spec_track_match_in(spec_tracks(), low) == Option::Some(t)) by {
        reveal_with_fuel(spec_track_match_in, 16);
        assert(spec_lower(spec_tracks()[0]) != low);
        assert(spec_lower(spec_tracks()[1]) != low);
        assert(spec_lower(spec_tracks()[2]) != low);
        assert(spec_lower(spec_tracks()[3]) != low);
        assert(spec_lower(spec_tracks()[4]) != low);
        assert(spec_lower(spec_tracks()[5]) != low);
        assert(spec_lower(spec_tracks()[6]) != low);
        assert(spec_lower(spec_tracks()[7]) != low);
        assert(spec_lower(spec_tracks()[8]) != low);
        assert(spec_lower(spec_tracks()[9]) != low);
        assert(spec_lower(spec_tracks()[10]) != low);
        assert(spec_lower(spec_tracks()[11]) != low);
        assert(spec_lower(spec_tracks()[12]) != low);
        assert(spec_lower(spec_tracks()[13]) != low);
        assert(spec_tracks()[14] == t);
        assert(spec_lower(spec_tracks()[14]) == low);
    }
}

proof fn lemma_track_self_15()
    ensures
        spec_resolve_track(spec_tracks()[15]) == Option::Some(spec_tracks()[15]),
{
    reveal_strlit("Paul_Ricard");
    reveal_strlit("Barcelona");
    reveal_strlit("brands_hatch");
    reveal_strlit("cota");
    reveal_strlit("donington");
    reveal_strlit("Hungaroring");
    reveal_strlit("Imola");
    reveal_strlit("indianapolis");
    reveal_strlit("Kyalami");
    reveal_strlit("Laguna_Seca");
    reveal_strlit("misano");
    reveal_strlit("monza");
    reveal_strlit("mount_panorama");
    reveal_strlit("nurburgring");
    reveal_strlit("nurburgring_24h");
    reveal_strlit("oulton_park");
    reveal_strlit("bathurst");
    reveal_strlit("redbull_ring");
    reveal_strlit("nordschleife");
    let t = "Paul_Ricard"@;
    assert(t.len() == 11);
    assert(!spec_is_ws(t[0]) && !spec_is_ws(t[10]));
    lemma_trim_identity(t);
    assert(spec_underscore(t) =~= t) by {
        assert(forall|j: int| 0 <= j < 11 ==> t[j] != ' ');
    }
    let low = spec_lower(t);
    assert(low.len() == 11);
    assert(spec_alias(low) == low) by {
        assert(low.len() != "bathurst"@.len());
        assert(low.len() != "redbull_ring"@.len());
        assert(low.len() != "nordschleife"@.len());
    }
    assert(spec_normalize_track(t) == low);
    assert(spec_lower(spec_tracks()[0]).len() != low.len());
    assert(spec_lower(spec_tracks()[1]).len() != low.len());
    assert(spec_lower(spec_tracks()[2]).len() != low.len());
    assert(spec_lower(spec_tracks()[3]).len() != low.len());
    assert(spec_lower(spec_tracks()[4])[0] != low[0]);
    assert(spec_lower(spec_tracks()[5]).len() != low.len());
    assert(spec_lower(spec_tracks()[6]).len() != low.len());
    assert(spec_lower(spec_tracks()[7]).len() != low.len());
    assert(spec_lower(spec_tracks()[8])[0] != low[0]);
    assert(spec_lower(spec_tracks()[9]).len() != low.len());
    assert(spec_lower(spec_tracks()[10]).len() != low.len());
    assert(spec_lower(spec_tracks()[11]).len() != low.len());
    assert(spec_lower(spec_tracks()[12])[0] != low[0]);
    assert(spec_lower(spec_tracks()[13]).len() != low.len());
    assert(spec_lower(spec_tracks()[14])[0] != low[0]);
    assert(spec_track_match_in(spec_tracks(), low) == Option::Some(t)) by {
        reveal_with_fuel(spec_track_match_in, 17);
        assert(spec_lower(spec_tracks()[0]) != low);
        assert(spec_lower(spec_tracks()[1]) != low);
        assert(spec_lower(spec_tracks()[2]) != low);
        assert(spec_lower(spec_tracks()[3]) != low);
        assert(spec_lower(spec_tracks()[4]) != low);
        assert(spec_lower(spec_tracks()[5]) != low);
        assert(spec_lower(spec_tracks()[6]) != low);
        assert(spec_lower(spec_tracks()[7]) != low);
        assert(spec_lower(spec_tracks()[8]) != low);
        assert(spec_lower(spec_tracks()[9]) != low);
        assert(spec_lower(spec_tracks()[10]) != low);
        assert(spec_lower(spec_tracks()[11]) != low);
        assert(spec_lower(spec_tracks()[12]) != low);
        assert(spec_lower(spec_tracks()[13]) != low);
        assert(spec_lower(spec_tracks()[14]) != low);
        assert(spec_tracks()[15] == t);
        assert(spec_lower(spec_tracks()[15]) == low);
    }
}

proof fn lemma_track_self_16()
    ensures
        spec_resolve_track(spec_tracks()[16]) == Option::Some(spec_tracks()[16]),
{
    reveal_strlit("red_bull_ring");
    reveal_strlit("Barcelona");
    reveal_strlit("brands_hatch");
    reveal_strlit("cota");
    reveal_strlit("donington");
    reveal_strlit("Hungaroring");
    reveal_strlit("Imola");
    reveal_strlit("indianapolis");
    reveal_strlit("Kyalami");
    reveal_strlit("Laguna_Seca");
    reveal_strlit("misano");
    reveal_strlit("monza");
    reveal_strlit("mount_panorama");
    reveal_strlit("nurburgring");
    reveal_strlit("nurburgring_24h");
    reveal_strlit("oulton_park");
    reveal_strlit("Paul_Ricard");
    reveal_strlit("bathurst");
    reveal_strlit("redbull_ring");
    reveal_strlit("nordschleife");
    let t = "red_bull_ring"@;
    assert(t.len() == 13);
    assert(!spec_is_ws(t[0]) && !spec_is_ws(t[12]));
    lemma_trim_identity(t);
    assert(spec_underscore(t) =~= t) by {
        assert(forall|j: int| 0 <= j < 13 ==> t[j] != ' ');
    }
    let low = spec_lower(t);
    assert(low.len() == 13);
    assert(spec_alias(low) == low) by {
        assert(low.len() != "bathurst"@.len());
        assert(low.len() != "redbull_ring"@.len());
        assert(low.len() != "nordschleife"@.len());
    }
    assert(spec_normalize_track(t) == low);
    assert(spec_lower(spec_tracks()[0]).len() != low.len());
    assert(spec_lower(spec_tracks()[1]).len() != low.len());
    assert(spec_lower(spec_tracks()[2]).len() != low.len());
    assert(spec_lower(spec_tracks()[3]).len() != low.len());
    assert(spec_lower(spec_tracks()[4]).len() != low.len());
    assert(spec_lower(spec_tracks()[5]).len() != low.len());
    assert(spec_lower(spec_tracks()[6]).len() != low.len());
    assert(spec_lower(spec_tracks()[7]).len() != low.len());
    assert(spec_lower(spec_tracks()[8]).len() != low.len());
    assert(spec_lower(spec_tracks()[9]).len() != low.len());
    assert(spec_lower(spec_tracks()[10]).len() != low.len());
    assert(spec_lower(spec_tracks()[11]).len() != low.len());
    assert(spec_lower(spec_tracks()[12]).len() != low.len());
    assert(spec_lower(spec_tracks()[13]).len() != low.len());
    assert(spec_lower(spec_tracks()[14]).len() != low.len());
    assert(spec_lower(spec_tracks()[15]).len() != low.len());
    assert(spec_track_match_in(spec_tracks(), low) == Option::Some(t)) by {
        reveal_with_fuel(spec_track_match_in, 18);
        assert(spec_lower(spec_tracks()[0]) != low);
        assert(spec_lower(spec_tracks()[1]) != low);
        assert(spec_lower(spec_tracks()[2]) != low);
        assert(spec_lower(spec_tracks()[3]) != low);
        assert(spec_lower(spec_tracks()[4]) != low);
        assert(spec_lower(spec_tracks()[5]) != low);
        assert(spec_lower(spec_tracks()[6]) != low);
        assert(spec_lower(spec_tracks()[7]) != low);
        assert(spec_lower(spec_tracks()[8]) != low);
        assert(spec_lower(spec_tracks()[9]) != low);
        assert(spec_lower(spec_tracks()[10]) != low);
        assert(spec_lower(spec_tracks()[11]) != low);
        assert(spec_lower(spec_tracks()[12]) != low);
        assert(spec_lower(spec_tracks()[13]) != low);
        assert(spec_lower(spec_tracks()[14]) != low);
        assert(spec_lower(spec_tracks()[15]) != low);
        assert(spec_tracks()[16] == t);
        assert(spec_lower(spec_tracks()[16]) == low);
    }
}

proof fn lemma_track_self_17()
    ensures
        spec_resolve_track(spec_tracks()[17]) == Option::Some(spec_tracks()[17]),
{
    reveal_strlit("Silverstone");
    reveal_strlit("Barcelona");
    reveal_strlit("brands_hatch");
    reveal_strlit("cota");
    reveal_strlit("donington");
    reveal_strlit("Hungaroring");
    reveal_strlit("Imola");
    reveal_strlit("indianapolis");
    reveal_strlit("Kyalami");
    reveal_strlit("Laguna_Seca");
    reveal_strlit("misano");
    reveal_strlit("monza");
    reveal_strlit("mount_panorama");
    reveal_strlit("nurburgring");
    reveal_strlit("nurburgring_24h");
    reveal_strlit("oulton_park");
    reveal_strlit("Paul_Ricard");
    reveal_strlit("red_bull_ring");
    reveal_strlit("bathurst");
    reveal_strlit("redbull_ring");
    reveal_strlit("nordschleife");
    let t = "Silverstone"@;
    assert(t.len() == 11);
    assert(!spec_is_ws(t[0]) && !spec_is_ws(t[10]));
    lemma_trim_identity(t);
    assert(spec_underscore(t) =~= t) by {
        assert(forall|j: int| 0 <= j < 11 ==> t[j] != ' ');
    }
    let low = spec_lower(t);
    assert(low.len() == 11);
    assert(spec_alias(low) == low) by {
        assert(low.len() != "bathurst"@.len());
        assert(low.len() != "redbull_ring"@.len());
        assert(low.len() != "nordschleife"@.len());
    }
    assert(spec_normalize_track(t) == low);
    assert(spec_lower(spec_tracks()[0]).len() != low.len());
    assert(spec_lower(spec_tracks()[1]).len() != low.len());
    assert(spec_lower(spec_tracks()[2]).len() != low.len());
    assert(spec_lower(spec_tracks()[3]).len() != low.len());
    assert(spec_lower(spec_tracks()[4])[0] != low[0]);
    assert(spec_lower(spec_tracks()[5]).len() != low.len());
    assert(spec_lower(spec_tracks()[6]).len() != low.len());
    assert(spec_lower(spec_tracks()[7]).len() != low.len());
    assert(spec_lower(spec_tracks()[8])[0] != low[0]);
    assert(spec_lower(spec_tracks()[9]).len() != low.len());
    assert(spec_lower(spec_tracks()[10]).len() != low.len());
    assert(spec_lower(spec_tracks()[11]).len() != low.len());
    assert(spec_lower(spec_tracks()[12])[0] != low[0]);
    assert(spec_lower(spec_tracks()[13]).len() != low.len());
    assert(spec_lower(spec_tracks()[14])[0] != low[0]);
    assert(spec_lower(spec_tracks()[15])[0] != low[0]);
    assert(spec_lower(spec_tracks()[16]).len() != low.len());
    assert(spec_track_match_in(spec_tracks(), low) == Option::Some(t)) by {
        reveal_with_fuel(spec_track_match_in, 19);
        assert(spec_lower(spec_tracks()[0]) != low);
        assert(spec_lower(spec_tracks()[1]) != low);
        assert(spec_lower(spec_tracks()[2]) != low);
        assert(spec_lower(spec_tracks()[3]) != low);
        assert(spec_lower(spec_tracks()[4]) != low);
        assert(spec_lower(spec_tracks()[5]) != low);
        assert(spec_lower(spec_tracks()[6]) != low);
        assert(spec_lower(spec_tracks()[7]) != low);
        assert(spec_lower(spec_tracks()[8]) != low);
        assert(spec_lower(spec_tracks()[9]) != low);
        assert(spec_lower(spec_tracks()[10]) != low);
        assert(spec_lower(spec_tracks()[11]) != low);
        assert(spec_lower(spec_tracks()[12]) != low);
        assert(spec_lower(spec_tracks()[13]) != low);
        assert(spec_lower(spec_tracks()[14]) != low);
        assert(spec_lower(spec_tracks()[15]) != low);
        assert(spec_lower(spec_tracks()[16]) != low);
        assert(spec_tracks()[17] == t);
        assert(spec_lower(spec_tracks()[17]) == low);
    }
}

proof fn lemma_track_self_18()
    ensures
        spec_resolve_track(spec_tracks()[18]) == Option::Some(spec_tracks()[18]),
{
    reveal_strlit("snetterton");
    reveal_strlit("Barcelona");
    reveal_strlit("brands_hatch");
    reveal_strlit("cota");
    reveal_strlit("donington");
    reveal_strlit("Hungaroring");
    reveal_strlit("Imola");
    reveal_strlit("indianapolis");
    reveal_strlit("Kyalami");
    reveal_strlit("Laguna_Seca");
    reveal_strlit("misano");
    reveal_strlit("monza");
    reveal_strlit("mount_panorama");
    reveal_strlit("nurburgring");
    reveal_strlit("nurburgring_24h");
    reveal_strlit("oulton_park");
    reveal_strlit("Paul_Ricard");
    reveal_strlit("red_bull_ring");
    reveal_strlit("Silverstone");
    reveal_strlit("bathurst");
    reveal_strlit("redbull_ring");
    reveal_strlit("nordschleife");
    let t = "snetterton"@;
    assert(t.len() == 10);
    assert(!spec_is_ws(t[0]) && !spec_is_ws(t[9]));
    lemma_trim_identity(t);
    assert(spec_underscore(t) =~= t) by {
        assert(forall|j: int| 0 <= j < 10 ==> t[j] != ' ');
    }
    let low = spec_lower(t);
    assert(low.len() == 10);
    assert(spec_alias(low) == low) by {
        assert(low.len() != "bathurst"@.len());
        assert(low.len() != "redbull_ring"@.len());
        assert(low.len() != "nordschleife"@.len());
    }
    assert(spec_normalize_track(t) == low);
    assert(spec_lower(spec_tracks()[0]).len() != low.len());
    assert(spec_lower(spec_tracks()[1]).len() != low.len());
    assert(spec_lower(spec_tracks()[2]).len() != low.len());
    assert(spec_lower(spec_tracks()[3]).len() != low.len());
    assert(spec_lower(spec_tracks()[4]).len() != low.len());
    assert(spec_lower(spec_tracks()[5]).len() != low.len());
    assert(spec_lower(spec_tracks()[6]).len() != low.len());
    assert(spec_lower(spec_tracks()[7]).len() != low.len());
    assert(spec_lower(spec_tracks()[8]).len() != low.len());
    assert(spec_lower(spec_tracks()[9]).len() != low.len());
    assert(spec_lower(spec_tracks()[10]).len() != low.len());
    assert(spec_lower(spec_tracks()[11]).len() != low.len());
    assert(spec_lower(spec_tracks()[12]).len() != low.len());
    assert(spec_lower(spec_tracks()[13]).len() != low.len());
    assert(spec_lower(spec_tracks()[14]).len() != low.len());
    assert(spec_lower(spec_tracks()[15]).len() != low.len());
    assert(spec_lower(spec_tracks()[16]).len() != low.len());
    assert(spec_lower(spec_tracks()[17]).len() != low.len());
    assert(spec_track_match_in(spec_tracks(), low) == Option::Some(t)) by {
        reveal_with_fuel(spec_track_match_in, 20);
        assert(spec_lower(spec_tracks()[0]) != low);
        assert(spec_lower(spec_tracks()[1]) != low);
        assert(spec_lower(spec_tracks()[2]) != low);
        assert(spec_lower(spec_tracks()[3]) != low);
        assert(spec_lower(spec_tracks()[4]) != low);
        assert(spec_lower(spec_tracks()[5]) != low);
        assert(spec_lower(spec_tracks()[6]) != low);
        assert(spec_lower(spec_tracks()[7]) != low);
        assert(spec_lower(spec_tracks()[8]) != low);
        assert(spec_lower(spec_tracks()[9]) != low);
        assert(spec_lower(spec_tracks()[10]) != low);
        assert(spec_lower(spec_tracks()[11]) != low);
        assert(spec_lower(spec_tracks()[12]) != low);
        assert(spec_lower(spec_tracks()[13]) != low);
        assert(spec_lower(spec_tracks()[14]) != low);
        assert(spec_lower(spec_tracks()[15]) != low);
        assert(spec_lower(spec_tracks()[16]) != low);
        assert(spec_lower(spec_tracks()[17]) != low);
        assert(spec_tracks()[18] == t);
        assert(spec_lower(spec_tracks()[18]) == low);
    }
}

proof fn lemma_track_self_19()
    ensures
        spec_resolve_track(spec_tracks()[19]) == Option::Some(spec_tracks()[19]),
{
    reveal_strlit("Spa");
    reveal_strlit("Barcelona");
    reveal_strlit("brands_hatch");
    reveal_strlit("cota");
    reveal_strlit("donington");
    reveal_strlit("Hungaroring");
    reveal_strlit("Imola");
    reveal_strlit("indianapolis");
    reveal_strlit("Kyalami");
    reveal_strlit("Laguna_Seca");
    reveal_strlit("misano");
    reveal_strlit("monza");
    reveal_strlit("mount_panorama");
    reveal_strlit("nurburgring");
    reveal_strlit("nurburgring_24h");
    reveal_strlit("oulton_park");
    reveal_strlit("Paul_Ricard");
    reveal_strlit("red_bull_ring");
    reveal_strlit("Silverstone");
    reveal_strlit("snetterton");
    reveal_strlit("bathurst");
    reveal_strlit("redbull_ring");
    reveal_strlit("nordschleife");
    let t = "Spa"@;
    assert(t.len() == 3);
    assert(!spec_is_ws(t[0]) && !spec_is_ws(t[2]));
    lemma_trim_identity(t);
    assert(spec_underscore(t) =~= t) by {
        assert(forall|j: int| 0 <= j < 3 ==> t[j] != ' ');
    }
    let low = spec_lower(t);
    assert(low.len() == 3);
    assert(spec_alias(low) == low) by {
        assert(low.len() != "bathurst"@.len());
        assert(low.len() != "redbull_ring"@.len());
        assert(low.len() != "nordschleife"@.len());
    }
    assert(spec_normalize_track(t) == low);
    assert(spec_lower(spec_tracks()[0]).len() != low.len());
    assert(spec_lower(spec_tracks()[1]).len() != low.len());
    assert(spec_lower(spec_tracks()[2]).len() != low.len());
    assert(spec_lower(spec_tracks()[3]).len() != low.len());
    assert(spec_lower(spec_tracks()[4]).len() != low.len());
    assert(spec_lower(spec_tracks()[5]).len() != low.len());
    assert(spec_lower(spec_tracks()[6]).len() != low.len());
    assert(spec_lower(spec_tracks()[7]).len() != low.len());
    assert(spec_lower(spec_tracks()[8]).len() != low.len());
    assert(spec_lower(spec_tracks()[9]).len() != low.len());
    assert(spec_lower(spec_tracks()[10]).len() != low.len());
    assert(spec_lower(spec_tracks()[11]).len() != low.len());
    assert(spec_lower(spec_tracks()[12]).len() != low.len());
    assert(spec_lower(spec_tracks()[13]).len() != low.len());
    assert(spec_lower(spec_tracks()[14]).len() != low.len());
    assert(spec_lower(spec_tracks()[15]).len() != low.len());
    assert(spec_lower(spec_tracks()[16]).len() != low.len());
    assert(spec_lower(spec_tracks()[17]).len() != low.len());
    assert(spec_lower(spec_tracks()[18]).len() != low.len());
    assert(spec_track_match_in(spec_tracks(), low) == Option::Some(t)) by {
        reveal_with_fuel(spec_track_match_in, 21);
        assert(spec_lower(spec_tracks()[0]) != low);
        assert(spec_lower(spec_tracks()[1]) != low);
        assert(spec_lower(spec_tracks()[2]) != low);
        assert(spec_lower(spec_tracks()[3]) != low);
        assert(spec_lower(spec_tracks()[4]) != low);
        assert(spec_lower(spec_tracks()[5]) != low);
        assert(spec_lower(spec_tracks()[6]) != low);
        assert(spec_lower(spec_tracks()[7]) != low);
        assert(spec_lower(spec_tracks()[8]) != low);
        assert(spec_lower(spec_tracks()[9]) != low);
        assert(spec_lower(spec_tracks()[10]) != low);
        assert(spec_lower(spec_tracks()[11]) != low);
        assert(spec_lower(spec_tracks()[12]) != low);
        assert(spec_lower(spec_tracks()[13]) != low);
        assert(spec_lower(spec_tracks()[14]) != low);
        assert(spec_lower(spec_tracks()[15]) != low);
        assert(spec_lower(spec_tracks()[16]) != low);
        assert(spec_lower(spec_tracks()[17]) != low);
        assert(spec_lower(spec_tracks()[18]) != low);
        assert(spec_tracks()[19] == t);
        assert(spec_lower(spec_tracks()[19]) == low);
    }
}

proof fn lemma_track_self_20()
    ensures
        spec_resolve_track(spec_tracks()[20]) == Option::Some(spec_tracks()[20]),
{
    reveal_strlit("Suzuka");
    reveal_strlit("Barcelona");
    reveal_strlit("brands_hatch");
    reveal_strlit("cota");
    reveal_strlit("donington");
    reveal_strlit("Hungaroring");
    reveal_strlit("Imola");
    reveal_strlit("indianapolis");
    reveal_strlit("Kyalami");
    reveal_strlit("Laguna_Seca");
    reveal_strlit("misano");
    reveal_strlit("monza");
    reveal_strlit("mount_panorama");
    reveal_strlit("nurburgring");
    reveal_strlit("nurburgring_24h");
    reveal_strlit("oulton_park");
    reveal_strlit("Paul_Ricard");
    reveal_strlit("red_bull_ring");
    reveal_strlit("Silverstone");
    reveal_strlit("snetterton");
    reveal_strlit("Spa");
    reveal_strlit("bathurst");
    reveal_strlit("redbull_ring");
    reveal_strlit("nordschleife");
    let t = "Suzuka"@;
    assert(t.len() == 6);
    assert(!spec_is_ws(t[0]) && !spec_is_ws(t[5]));
    lemma_trim_identity(t);
    assert(spec_underscore(t) =~= t) by {
        assert(forall|j: int| 0 <= j < 6 ==> t[j] != ' ');
    }
    let low = spec_lower(t);
    assert(low.len() == 6);
    assert(spec_alias(low) == low) by {
        assert(low.len() != "bathurst"@.len());
        assert(low.len() != "redbull_ring"@.len());
        assert(low.len() != "nordschleife"@.len());
    }
    assert(spec_normalize_track(t) == low);
    assert(spec_lower(spec_tracks()[0]).len() != low.len());
    assert(spec_lower(spec_tracks()[1]).len() != low.len());
    assert(spec_lower(spec_tracks()[2]).len() != low.len());
    assert(spec_lower(spec_tracks()[3]).len() != low.len());
    assert(spec_lower(spec_tracks()[4]).len() != low.len());
    assert(spec_lower(spec_tracks()[5]).len() != low.len());
    assert(spec_lower(spec_tracks()[6]).len() != low.len());
    assert(spec_lower(spec_tracks()[7]).len() != low.len());
    assert(spec_lower(spec_tracks()[8]).len() != low.len());
    assert(spec_lower(spec_tracks()[9])[0] != low[0]);
    assert(spec_lower(spec_tracks()[10]).len() != low.len());
    assert(spec_lower(spec_tracks()[11]).len() != low.len());
    assert(spec_lower(spec_tracks()[12]).len() != low.len());
    assert(spec_lower(spec_tracks()[13]).len() != low.len());
    assert(spec_lower(spec_tracks()[14]).len() != low.len());
    assert(spec_lower(spec_tracks()[15]).len() != low.len());
    assert(spec_lower(spec_tracks()[16]).len() != low.len());
    assert(spec_lower(spec_tracks()[17]).len() != low.len());
    assert(spec_lower(spec_tracks()[18]).len() != low.len());
    assert(spec_lower(spec_tracks()[19]).len() != low.len());
    assert(spec_track_match_in(spec_tracks(), low) == Option::Some(t)) by {
        reveal_with_fuel(spec_track_match_in, 22);
        assert(spec_lower(spec_tracks()[0]) != low);
        assert(spec_lower(spec_tracks()[1]) != low);
        assert(spec_lower(spec_tracks()[2]) != low);
        assert(spec_lower(spec_tracks()[3]) != low);
        assert(spec_lower(spec_tracks()[4]) != low);
        assert(spec_lower(spec_tracks()[5]) != low);
        assert(spec_lower(spec_tracks()[6]) != low);
        assert(spec_lower(spec_tracks()[7]) != low);
        assert(spec_lower(spec_tracks()[8]) != low);
        assert(spec_lower(spec_tracks()[9]) != low);
        assert(spec_lower(spec_tracks()[10]) != low);
        assert(spec_lower(spec_tracks()[11]) != low);
        assert(spec_lower(spec_tracks()[12]) != low);
        assert(spec_lower(spec_tracks()[13]) != low);
        assert(spec_lower(spec_tracks()[14]) != low);
        assert(spec_lower(spec_tracks()[15]) != low);
        assert(spec_lower(spec_tracks()[16]) != low);
        assert(spec_lower(spec_tracks()[17]) != low);
        assert(spec_lower(spec_tracks()[18]) != low);
        assert(spec_lower(spec_tracks()[19]) != low);
        assert(spec_tracks()[20] == t);
        assert(spec_lower(spec_tracks()[20]) == low);
    }
}

proof fn lemma_track_self_21()
    ensures
        spec_resolve_track(spec_tracks()[21]) == Option::Some(spec_tracks()[21]),
{
    reveal_strlit("Valencia");
    reveal_strlit("Barcelona");
    reveal_strlit("brands_hatch");
    reveal_strlit("cota");
    reveal_strlit("donington");
    reveal_strlit("Hungaroring");
    reveal_strlit("Imola");
    reveal_strlit("indianapolis");
    reveal_strlit("Kyalami");
    reveal_strlit("Laguna_Seca");
    reveal_strlit("misano");
    reveal_strlit("monza");
    reveal_strlit("mount_panorama");
    reveal_strlit("nurburgring");
    reveal_strlit("nurburgring_24h");
    reveal_strlit("oulton_park");
    reveal_strlit("Paul_Ricard");
    reveal_strlit("red_bull_ring");
    reveal_strlit("Silverstone");
    reveal_strlit("snetterton");
    reveal_strlit("Spa");
    reveal_strlit("Suzuka");
    reveal_strlit("bathurst");
    reveal_strlit("redbull_ring");
    reveal_strlit("nordschleife");
    let t = "Valencia"@;
    assert(t.len() == 8);
    assert(!spec_is_ws(t[0]) && !spec_is_ws(t[7]));
    lemma_trim_identity(t);
    assert(spec_underscore(t) =~= t) by {
        assert(forall|j: int| 0 <= j < 8 ==> t[j] != ' ');
    }
    let low = spec_lower(t);
    assert(low.len() == 8);
    assert(spec_alias(low) == low) by {
        assert(low[0] != "bathurst"@[0]);
        assert(low.len() != "redbull_ring"@.len());
        assert(low.len() != "nordschleife"@.len());
    }
    assert(spec_normalize_track(t) == low);
    assert(spec_lower(spec_tracks()[0]).len() != low.len());
    assert(spec_lower(spec_tracks()[1]).len() != low.len());
    assert(spec_lower(spec_tracks()[2]).len() != low.len());
    assert(spec_lower(spec_tracks()[3]).len() != low.len());
    assert(spec_lower(spec_tracks()[4]).len() != low.len());
    assert(spec_lower(spec_tracks()[5]).len() != low.len());
    assert(spec_lower(spec_tracks()[6]).len() != low.len());
    assert(spec_lower(spec_tracks()[7]).len() != low.len());
    assert(spec_lower(spec_tracks()[8]).len() != low.len());
    assert(spec_lower(spec_tracks()[9]).len() != low.len());
    assert(spec_lower(spec_tracks()[10]).len() != low.len());
    assert(spec_lower(spec_tracks()[11]).len() != low.len());
    assert(spec_lower(spec_tracks()[12]).len() != low.len());
    assert(spec_lower(spec_tracks()[13]).len() != low.len());
    assert(spec_lower(spec_tracks()[14]).len() != low.len());
    assert(spec_lower(spec_tracks()[15]).len() != low.len());
    assert(spec_lower(spec_tracks()[16]).len() != low.len());
    assert(spec_lower(spec_tracks()[17]).len() != low.len());
    assert(spec_lower(spec_tracks()[18]).len() != low.len());
    assert(spec_lower(spec_tracks()[19]).len() != low.len());
    assert(spec_lower(spec_tracks()[20]).len() != low.len());
    assert(spec_track_match_in(spec_tracks(), low) == Option::Some(t)) by {
        reveal_with_fuel(spec_track_match_in, 23);
        assert(spec_lower(spec_tracks()[0]) != low);
        assert(spec_lower(spec_tracks()[1]) != low);
        assert(spec_lower(spec_tracks()[2]) != low);
        assert(spec_lower(spec_tracks()[3]) != low);
        assert(spec_lower(spec_tracks()[4]) != low);
        assert(spec_lower(spec_tracks()[5]) != low);
        assert(spec_lower(spec_tracks()[6]) != low);
        assert(spec_lower(spec_tracks()[7]) != low);
        assert(spec_lower(spec_tracks()[8]) != low);
        assert(spec_lower(spec_tracks()[9]) != low);
        assert(spec_lower(spec_tracks()[10]) != low);
        assert(spec_lower(spec_tracks()[11]) != low);
        assert(spec_lower(spec_tracks()[12]) != low);
        assert(spec_lower(spec_tracks()[13]) != low);
        assert(spec_lower(spec_tracks()[14]) != low);
        assert(spec_lower(spec_tracks()[15]) != low);
        assert(spec_lower(spec_tracks()[16]) != low);
        assert(spec_lower(spec_tracks()[17]) != low);
        assert(spec_lower(spec_tracks()[18]) != low);
        assert(spec_lower(spec_tracks()[19]) != low);
        assert(spec_lower(spec_tracks()[20]) != low);
        assert(spec_tracks()[21] == t);
        assert(spec_lower(spec_tracks()[21]) == low);
    }
}

proof fn lemma_track_self_22()
    ensures
        spec_resolve_track(spec_tracks()[22]) == Option::Some(spec_tracks()[22]),
{
    reveal_strlit("watkins_glen");
    reveal_strlit("Barcelona");
    reveal_strlit("brands_hatch");
    reveal_strlit("cota");
    reveal_strlit("donington");
    reveal_strlit("Hungaroring");
    reveal_strlit("Imola");
    reveal_strlit("indianapolis");
    reveal_strlit("Kyalami");
    reveal_strlit("Laguna_Seca");
    reveal_strlit("misano");
    reveal_strlit("monza");
    reveal_strlit("mount_panorama");
    reveal_strlit("nurburgring");
    reveal_strlit("nurburgring_24h");
    reveal_strlit("oulton_park");
    reveal_strlit("Paul_Ricard");
    reveal_strlit("red_bull_ring");
    reveal_strlit("Silverstone");
    reveal_strlit("snetterton");
    reveal_strlit("Spa");
    reveal_strlit("Suzuka");
    reveal_strlit("Valencia");
    reveal_strlit("bathurst");
    reveal_strlit("redbull_ring");
    reveal_strlit("nordschleife");
    let t = "watkins_glen"@;
    assert(t.len() == 12);
    assert(!spec_is_ws(t[0]) && !spec_is_ws(t[11]));
    lemma_trim_identity(t);
    assert(spec_underscore(t) =~= t) by {
        assert(forall|j: int| 0 <= j < 12 ==> t[j] != ' ');
    }
    let low = spec_lower(t);
    assert(low.len() == 12);
    assert(spec_alias(low) == low) by {
        assert(low.len() != "bathurst"@.len());
        assert(low[0] != "redbull_ring"@[0]);
        assert(low[0] != "nordschleife"@[0]);
    }
    assert(spec_normalize_track(t) == low);
    assert(spec_lower(spec_tracks()[0]).len() != low.len());
    assert(spec_lower(spec_tracks()[1])[0] != low[0]);
    assert(spec_lower(spec_tracks()[2]).len() != low.len());
    assert(spec_lower(spec_tracks()[3]).len() != low.len());
    assert(spec_lower(spec_tracks()[4]).len() != low.len());
    assert(spec_lower(spec_tracks()[5]).len() != low.len());
    assert(spec_lower(spec_tracks()[6])[0] != low[0]);
    assert(spec_lower(spec_tracks()[7]).len() != low.len());
    assert(spec_lower(spec_tracks()[8]).len() != low.len());
    assert(spec_lower(spec_tracks()[9]).len() != low.len());
    assert(spec_lower(spec_tracks()[10]).len() != low.len());
    assert(spec_lower(spec_tracks()[11]).len() != low.len());
    assert(spec_lower(spec_tracks()[12]).len() != low.len());
    assert(spec_lower(spec_tracks()[13]).len() != low.len());
    assert(spec_lower(spec_tracks()[14]).len() != low.len());
    assert(spec_lower(spec_tracks()[15]).len() != low.len());
    assert(spec_lower(spec_tracks()[16]).len() != low.len());
    assert(spec_lower(spec_tracks()[17]).len() != low.len());
    assert(spec_lower(spec_tracks()[18]).len() != low.len());
    assert(spec_lower(spec_tracks()[19]).len() != low.len());
    assert(spec_lower(spec_tracks()[20]).len() != low.len());
    assert(spec_lower(spec_tracks()[21]).len() != low.len());
    assert(spec_track_match_in(spec_tracks(), low) == Option::Some(t)) by {
        reveal_with_fuel(spec_track_match_in, 24);
        assert(spec_lower(spec_tracks()[0]) != low);
        assert(spec_lower(spec_tracks()[1]) != low);
        assert(spec_lower(spec_tracks()[2]) != low);
        assert(spec_lower(spec_tracks()[3]) != low);
        assert(spec_lower(spec_tracks()[4]) != low);
        assert(spec_lower(spec_tracks()[5]) != low);
        assert(spec_lower(spec_tracks()[6]) != low);
        assert(spec_lower(spec_tracks()[7]) != low);
        assert(spec_lower(spec_tracks()[8]) != low);
        assert(spec_lower(spec_tracks()[9]) != low);
        assert(spec_lower(spec_tracks()[10]) != low);
        assert(spec_lower(spec_tracks()[11]) != low);
        assert(spec_lower(spec_tracks()[12]) != low);
        assert(spec_lower(spec_tracks()[13]) != low);
        assert(spec_lower(spec_tracks()[14]) != low);
        assert(spec_lower(spec_tracks()[15]) != low);
        assert(spec_lower(spec_tracks()[16]) != low);
        assert(spec_lower(spec_tracks()[17]) != low);
        assert(spec_lower(spec_tracks()[18]) != low);
        assert(spec_lower(spec_tracks()[19]) != low);
        assert(spec_lower(spec_tracks()[20]) != low);
        assert(spec_lower(spec_tracks()[21]) != low);
        assert(spec_tracks()[22] == t);
        assert(spec_lower(spec_tracks()[22]) == low);
    }
}

proof fn lemma_track_self_23()
    ensures
        spec_resolve_track(spec_tracks()[23]) == Option::Some(spec_tracks()[23]),
{
    reveal_strlit("Zandvoort");
    reveal_strlit("Barcelona");
    reveal_strlit("brands_hatch");
    reveal_strlit("cota");
    reveal_strlit("donington");
    reveal_strlit("Hungaroring");
    reveal_strlit("Imola");
    reveal_strlit("indianapolis");
    reveal_strlit("Kyalami");
    reveal_strlit("Laguna_Seca");
    reveal_strlit("misano");
    reveal_strlit("monza");
    reveal_strlit("mount_panorama");
    reveal_strlit("nurburgring");
    reveal_strlit("nurburgring_24h");
    reveal_strlit("oulton_park");
    reveal_strlit("Paul_Ricard");
    reveal_strlit("red_bull_ring");
    reveal_strlit("Silverstone");
    reveal_strlit("snetterton");
    reveal_strlit("Spa");
    reveal_strlit("Suzuka");
    reveal_strlit("Valencia");
    reveal_strlit("watkins_glen");
    reveal_strlit("bathurst");
    reveal_strlit("redbull_ring");
    reveal_strlit("nordschleife");
    let t = "Zandvoort"@;
    assert(t.len() == 9);
    assert(!spec_is_ws(t[0]) && !spec_is_ws(t[8]));
    lemma_trim_identity(t);
    assert(spec_underscore(t) =~= t) by {
        assert(forall|j: int| 0 <= j < 9 ==> t[j] != ' ');
    }
    let low = spec_lower(t);
    assert(low.len() == 9);
    assert(spec_alias(low) == low) by {
        assert(low.len() != "bathurst"@.len());
        assert(low.len() != "redbull_ring"@.len());
        assert(low.len() != "nordschleife"@.len());
    }
    assert(spec_normalize_track(t) == low);
    assert(spec_lower(spec_tracks()[0])[0] != low[0]);
    assert(spec_lower(spec_tracks()[1]).len() != low.len());
    assert(spec_lower(spec_tracks()[2]).len() != low.len());
    assert(spec_lower(spec_tracks()[3])[0] != low[0]);
    assert(spec_lower(spec_tracks()[4]).len() != low.len());
    assert(spec_lower(spec_tracks()[5]).len() != low.len());
    assert(spec_lower(spec_tracks()[6]).len() != low.len());
    assert(spec_lower(spec_tracks()[7]).len() != low.len());
    assert(spec_lower(spec_tracks()[8]).len() != low.len());
    assert(spec_lower(spec_tracks()[9]).len() != low.len());
    assert(spec_lower(spec_tracks()[10]).len() != low.len());
    assert(spec_lower(spec_tracks()[11]).len() != low.len());
    assert(spec_lower(spec_tracks()[12]).len() != low.len());
    assert(spec_lower(spec_tracks()[13]).len() != low.len());
    assert(spec_lower(spec_tracks()[14]).len() != low.len());
    assert(spec_lower(spec_tracks()[15]).len() != low.len());
    assert(spec_lower(spec_tracks()[16]).len() != low.len());
    assert(spec_lower(spec_tracks()[17]).len() != low.len());
    assert(spec_lower(spec_tracks()[18]).len() != low.len());
    assert(spec_lower(spec_tracks()[19]).len() != low.len());
    assert(spec_lower(spec_tracks()[20]).len() != low.len());
    assert(spec_lower(spec_tracks()[21]).len() != low.len());
    assert(spec_lower(spec_tracks()[22]).len() != low.len());
    assert(spec_track_match_in(spec_tracks(), low) == Option::Some(t)) by {
        reveal_with_fuel(spec_track_match_in, 25);
        assert(spec_lower(spec_tracks()[0]) != low);
        assert(spec_lower(spec_tracks()[1]) != low);
        assert(spec_lower(spec_tracks()[2]) != low);
        assert(spec_lower(spec_tracks()[3]) != low);
        assert(spec_lower(spec_tracks()[4]) != low);
        assert(spec_lower(spec_tracks()[5]) != low);
        assert(spec_lower(spec_tracks()[6]) != low);
        assert(spec_lower(spec_tracks()[7]) != low);
        assert(spec_lower(spec_tracks()[8]) != low);
        assert(spec_lower(spec_tracks()[9]) != low);
        assert(spec_lower(spec_tracks()[10]) != low);
        assert(spec_lower(spec_tracks()[11]) != low);
        assert(spec_lower(spec_tracks()[12]) != low);
        assert(spec_lower(spec_tracks()[13]) != low);
        assert(spec_lower(spec_tracks()[14]) != low);
        assert(spec_lower(spec_tracks()[15]) != low);
        assert(spec_lower(spec_tracks()[16]) != low);
        assert(spec_lower(spec_tracks()[17]) != low);
        assert(spec_lower(spec_tracks()[18]) != low);
        assert(spec_lower(spec_tracks()[19]) != low);
        assert(spec_lower(spec_tracks()[20]) != low);
        assert(spec_lower(spec_tracks()[21]) != low);
        assert(spec_lower(spec_tracks()[22]) != low);
        assert(spec_tracks()[23] == t);
        assert(spec_lower(spec_tracks()[23]) == low);
    }
}

proof fn lemma_track_self_24()
    ensures
        spec_resolve_track(spec_tracks()[24]) == Option::Some(spec_tracks()[24]),
{
    reveal_strlit("Zolder");
    reveal_strlit("Barcelona");
    reveal_strlit("brands_hatch");
    reveal_strlit("cota");
    reveal_strlit("donington");
    reveal_strlit("Hungaroring");
    reveal_strlit("Imola");
    reveal_strlit("indianapolis");
    reveal_strlit("Kyalami");
    reveal_strlit("Laguna_Seca");
    reveal_strlit("misano");
    reveal_strlit("monza");
    reveal_strlit("mount_panorama");
    reveal_strlit("nurburgring");
    reveal_strlit("nurburgring_24h");
    reveal_strlit("oulton_park");
    reveal_strlit("Paul_Ricard");
    reveal_strlit("red_bull_ring");
    reveal_strlit("Silverstone");
    reveal_strlit("snetterton");
    reveal_strlit("Spa");
    reveal_strlit("Suzuka");
    reveal_strlit("Valencia");
    reveal_strlit("watkins_glen");
    reveal_strlit("Zandvoort");
    reveal_strlit("bathurst");
    reveal_strlit("redbull_ring");
    reveal_strlit("nordschleife");
    let t = "Zolder"@;
    assert(t.len() == 6);
    assert(!spec_is_ws(t[0]) && !spec_is_ws(t[5]));
    lemma_trim_identity(t);
    assert(spec_underscore(t) =~= t) by {
        assert(forall|j: int| 0 <= j < 6 ==> t[j] != ' ');
    }
    let low = spec_lower(t);
    assert(low.len() == 6);
    assert(spec_alias(low) == low) by {
        assert(low.len() != "bathurst"@.len());
        assert(low.len() != "redbull_ring"@.len());
        assert(low.len() != "nordschleife"@.len());
    }
    assert(spec_normalize_track(t) == low);
    assert(spec_lower(spec_tracks()[0]).len() != low.len());
    assert(spec_lower(spec_tracks()[1]).len() != low.len());
    assert(spec_lower(spec_tracks()[2]).len() != low.len());
    assert(spec_lower(spec_tracks()[3]).len() != low.len());
    assert(spec_lower(spec_tracks()[4]).len() != low.len());
    assert(spec_lower(spec_tracks()[5]).len() != low.len());
    assert(spec_lower(spec_tracks()[6]).len() != low.len());
    assert(spec_lower(spec_tracks()[7]).len() != low.len());
    assert(spec_lower(spec_tracks()[8]).len() != low.len());
    assert(spec_lower(spec_tracks()[9])[0] != low[0]);
    assert(spec_lower(spec_tracks()[10]).len() != low.len());
    assert(spec_lower(spec_tracks()[11]).len() != low.len());
    assert(spec_lower(spec_tracks()[12]).len() != low.len());
    assert(spec_lower(spec_tracks()[13]).len() != low.len());
    assert(spec_lower(spec_tracks()[14]).len() != low.len());
    assert(spec_lower(spec_tracks()[15]).len() != low.len());
    assert(spec_lower(spec_tracks()[16]).len() != low.len());
    assert(spec_lower(spec_tracks()[17]).len() != low.len());
    assert(spec_lower(spec_tracks()[18]).len() != low.len());
    assert(spec_lower(spec_tracks()[19]).len() != low.len());
    assert(spec_lower(spec_tracks()[20])[0] != low[0]);
    assert(spec_lower(spec_tracks()[21]).len() != low.len());
    assert(spec_lower(spec_tracks()[22]).len() != low.len());
    assert(spec_lower(spec_tracks()[23]).len() != low.len());
    assert(spec_track_match_in(spec_tracks(), low) == Option::Some(t)) by {
        reveal_with_fuel(spec_track_match_in, 26);
        assert(spec_lower(spec_tracks()[0]) != low);
        assert(spec_lower(spec_tracks()[1]) != low);
        assert(spec_lower(spec_tracks()[2]) != low);
        assert(spec_lower(spec_tracks()[3]) != low);
        assert(spec_lower(spec_tracks()[4]) != low);
        assert(spec_lower(spec_tracks()[5]) != low);
        assert(spec_lower(spec_tracks()[6]) != low);
        assert(spec_lower(spec_tracks()[7]) != low);
        assert(spec_lower(spec_tracks()[8]) != low);
        assert(spec_lower(spec_tracks()[9]) != low);
        assert(spec_lower(spec_tracks()[10]) != low);
        assert(spec_lower(spec_tracks()[11]) != low);
        assert(spec_lower(spec_tracks()[12]) != low);
        assert(spec_lower(spec_tracks()[13]) != low);
        assert(spec_lower(spec_tracks()[14]) != low);
        assert(spec_lower(spec_tracks()[15]) != low);
        assert(spec_lower(spec_tracks()[16]) != low);
        assert(spec_lower(spec_tracks()[17]) != low);
        assert(spec_lower(spec_tracks()[18]) != low);
        assert(spec_lower(spec_tracks()[19]) != low);
        assert(spec_lower(spec_tracks()[20]) != low);
        assert(spec_lower(spec_tracks()[21]) != low);
        assert(spec_lower(spec_tracks()[22]) != low);
        assert(spec_lower(spec_tracks()[23]) != low);
        assert(spec_tracks()[24] == t);
        assert(spec_lower(spec_tracks()[24]) == low);
    }
}

/// Every canonical catalog track resolves to itself.
pub proof fn lemma_catalog_tracks_resolve_to_themselves()
    ensures
        forall|i: int|
            0 <= i < spec_tracks().len() ==> spec_resolve_track(#[trigger] spec_tracks()[i])
                == Option::Some(spec_tracks()[i]),
{
    lemma_track_self_0();
    lemma_track_self_1();
    lemma_track_self_2();
    lemma_track_self_3();
    lemma_track_self_4();
    lemma_track_self_5();
    lemma_track_self_6();
    lemma_track_self_7();
    lemma_track_self_8();
    lemma_track_self_9();
    lemma_track_self_10();
    lemma_track_self_11();
    lemma_track_self_12();
    lemma_track_self_13();
    lemma_track_self_14();
    lemma_track_self_15();
    lemma_track_self_16();
    lemma_track_self_17();
    lemma_track_self_18();
    lemma_track_self_19();
    lemma_track_self_20();
    lemma_track_self_21();
    lemma_track_self_22();
    lemma_track_self_23();
    lemma_track_self_24();
}

/// Track resolution is idempotent: resolving what a resolution
/// returned changes nothing, since the result is always a canonical
/// catalog identifier.
pub proof fn lemma_track_resolution_idempotent(s: Seq<char>)
    ensures
        spec_resolve_track(s) matches Option::Some(t) ==> spec_resolve_track(t)
            == Option::Some(t),
{
    if spec_resolve_track(s) is Some {
        let t = spec_resolve_track(s).unwrap();
        lemma_track_match_member(spec_tracks(), spec_normalize_track(s));
        assert(spec_tracks().contains(t));
        let i = choose|i: int| 0 <= i < spec_tracks().len() && spec_tracks()[i] == t;
        lemma_catalog_tracks_resolve_to_themselves();
    }
}

} // verus!
