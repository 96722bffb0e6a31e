use vstd::prelude::*;

verus! {

/// Canonical track identifiers, in the fixed content order.
pub open spec fn spec_tracks() -> Seq<Seq<char>> {
    seq![
        "Barcelona"@,
        "brands_hatch"@,
        "cota"@,
        "donington"@,
        "Hungaroring"@,
        "Imola"@,
        "indianapolis"@,
        "Kyalami"@,
        "Laguna_Seca"@,
        "misano"@,
        "monza"@,
        "mount_panorama"@,
        "nurburgring"@,
        "nurburgring_24h"@,
        "oulton_park"@,
        "Paul_Ricard"@,
        "red_bull_ring"@,
        "Silverstone"@,
        "snetterton"@,
        "Spa"@,
        "Suzuka"@,
        "Valencia"@,
        "watkins_glen"@,
        "Zandvoort"@,
        "Zolder"@,
    ]
}

/// Canonical cars: numeric id and display name, in the curated order
/// that fuzzy matching and listing both use. The order is deliberate
/// (newest or most specific variant first among cars sharing a name
/// prefix) and must not be alphabetized.
pub open spec fn spec_cars() -> Seq<(u32, Seq<char>)> {
    seq![
        (50u32, "Alpine A110 GT4"@),
        (20u32, "Aston Martin AMR V8 Vantage GT3"@),
        (12u32, "Aston Martin AMR V12 Vantage GT3"@),
        (51u32, "Aston Martin AMR Vantage GT4"@),
        (31u32, "Audi R8 LMS GT3 Evo II 2"@),
        (19u32, "Audi R8 LMS GT3 Evo 2019"@),
        (3u32, "Audi R8 LMS GT3 2015"@),
        (52u32, "Audi R8 LMS GT4"@),
        (80u32, "Audi R8 LMS GT2"@),
        (8u32, "Bentley Continental GT3 2018"@),
        (11u32, "Bentley Continental GT3 2015"@),
        (30u32, "BMW M4 GT3"@),
        (53u32, "BMW M4 GT4"@),
        (7u32, "BMW M6 GT3"@),
        (27u32, "BMW M2 CS TCX"@),
        (55u32, "Chevrolet Camaro GT4"@),
        (32u32, "Ferrari 296 GT3"@),
        (24u32, "Ferrari 488 GT3 Evo 2020"@),
        (2u32, "Ferrari 488 GT3 2018"@),
        (26u32, "Ferrari 488 Challenge Evo GTC"@),
        (36u32, "Ford Mustang GT3"@),
        (56u32, "Ginetta G55 GT4"@),
        (21u32, "Honda NSX GT3 Evo 2019"@),
        (17u32, "Honda NSX GT3 2017"@),
        (57u32, "KTM Xbow GT4"@),
        (82u32, "KTM Xbow GT2"@),
        (14u32, "Jaguar G3 GT3"@),
        (33u32, "Lamborghini Huaracan GT3 Evo II 2"@),
        (16u32, "Lamborghini Huaracan GT3 Evo 2019"@),
        (4u32, "Lamborghini Huaracan GT3 2015"@),
        (29u32, "Lamborghini Huaracan Super Trofeo ST Evo GTC"@),
        (18u32, "Lamborghini Huaracan Super Trofeo ST GTC"@),
        (13u32, "Lamborghini Gallardo Rex GT3"@),
        (15u32, "Lexus Rc-F GT3"@),
        (58u32, "Maserati MC GT4"@),
        (83u32, "Maserati GT2"@),
        (35u32, "McLaren 720S GT3 Evo"@),
        (22u32, "McLaren 720S GT3 Special 2019"@),
        (5u32, "McLaren 650S GT3"@),
        (59u32, "McLaren 570S GT4"@),
        (25u32, "Mercedes AMG GT3 Evo 2020"@),
        (1u32, "Mercedes AMG GT3 2015"@),
        (60u32, "Mercedes AMG GT4"@),
        (84u32, "Mercedes AMG GT2"@),
        (6u32, "Nissan GT-R GT3 2018"@),
        (10u32, "Nissan GT-R GT3 2015"@),
        (34u32, "Porsche 992 GT3R"@),
        (23u32, "Porsche 991-II GT3R"@),
        (0u32, "Porsche 991 GT3R"@),
        (61u32, "Porsche 718 Cayman GT4"@),
        (85u32, "Porsche 991-II GT2 RS CS Evo"@),
        (86u32, "Porsche 935 GT2"@),
        (28u32, "Porsche 992 GT3Cup GTC"@),
        (9u32, "Porsche 991.2 GT3Cup GTC"@),
    ]
}

/// The views of a sequence of owned strings.
pub open spec fn spec_string_views(ts: Seq<String>) -> Seq<Seq<char>> {
    ts.map_values(|t: String| t@)
}

/// The views of a sequence of catalog car pairs.
pub open spec fn spec_car_views(cs: Seq<(u32, String)>) -> Seq<(u32, Seq<char>)> {
    cs.map_values(|p: (u32, String)| (p.0, p.1@))
}

/// The track catalog as owned strings.
pub fn tracks() -> (r: Vec<String>)
    ensures
        spec_string_views(r@) == spec_tracks(),
{
    let mut v: Vec<String> = Vec::new();
    v.push(String::from_str("Barcelona"));
    v.push(String::from_str("brands_hatch"));
    v.push(String::from_str("cota"));
    v.push(String::from_str("donington"));
    v.push(String::from_str("Hungaroring"));
    v.push(String::from_str("Imola"));
    v.push(String::from_str("indianapolis"));
    v.push(String::from_str("Kyalami"));
    v.push(String::from_str("Laguna_Seca"));
    v.push(String::from_str("misano"));
    v.push(String::from_str("monza"));
    v.push(String::from_str("mount_panorama"));
    v.push(String::from_str("nurburgring"));
    v.push(String::from_str("nurburgring_24h"));
    v.push(String::from_str("oulton_park"));
    v.push(String::from_str("Paul_Ricard"));
    v.push(String::from_str("red_bull_ring"));
    v.push(String::from_str("Silverstone"));
    v.push(String::from_str("snetterton"));
    v.push(String::from_str("Spa"));
    v.push(String::from_str("Suzuka"));
    v.push(String::from_str("Valencia"));
    v.push(String::from_str("watkins_glen"));
    v.push(String::from_str("Zandvoort"));
    v.push(String::from_str("Zolder"));
    proof {
        assert(spec_string_views(v@) =~= spec_tracks());
    }
    v
}

/// The car catalog as owned pairs.
pub fn cars() -> (r: Vec<(u32, String)>)
    ensures
        spec_car_views(r@) == spec_cars(),
{
    let mut v: Vec<(u32, String)> = Vec::new();
    v.push((50u32, String::from_str("Alpine A110 GT4")));
    v.push((20u32, String::from_str("Aston Martin AMR V8 Vantage GT3")));
    v.push((12u32, String::from_str("Aston Martin AMR V12 Vantage GT3")));
    v.push((51u32, String::from_str("Aston Martin AMR Vantage GT4")));
    v.push((31u32, String::from_str("Audi R8 LMS GT3 Evo II 2")));
    v.push((19u32, String::from_str("Audi R8 LMS GT3 Evo 2019")));
    v.push((3u32, String::from_str("Audi R8 LMS GT3 2015")));
    v.push((52u32, String::from_str("Audi R8 LMS GT4")));
    v.push((80u32, String::from_str("Audi R8 LMS GT2")));
    v.push((8u32, String::from_str("Bentley Continental GT3 2018")));
    v.push((11u32, String::from_str("Bentley Continental GT3 2015")));
    v.push((30u32, String::from_str("BMW M4 GT3")));
    v.push((53u32, String::from_str("BMW M4 GT4")));
    v.push((7u32, String::from_str("BMW M6 GT3")));
    v.push((27u32, String::from_str("BMW M2 CS TCX")));
    v.push((55u32, String::from_str("Chevrolet Camaro GT4")));
    v.push((32u32, String::from_str("Ferrari 296 GT3")));
    v.push((24u32, String::from_str("Ferrari 488 GT3 Evo 2020")));
    v.push((2u32, String::from_str("Ferrari 488 GT3 2018")));
    v.push((26u32, String::from_str("Ferrari 488 Challenge Evo GTC")));
    v.push((36u32, String::from_str("Ford Mustang GT3")));
    v.push((56u32, String::from_str("Ginetta G55 GT4")));
    v.push((21u32, String::from_str("Honda NSX GT3 Evo 2019")));
    v.push((17u32, String::from_str("Honda NSX GT3 2017")));
    v.push((57u32, String::from_str("KTM Xbow GT4")));
    v.push((82u32, String::from_str("KTM Xbow GT2")));
    v.push((14u32, String::from_str("Jaguar G3 GT3")));
    v.push((33u32, String::from_str("Lamborghini Huaracan GT3 Evo II 2")));
    v.push((16u32, String::from_str("Lamborghini Huaracan GT3 Evo 2019")));
    v.push((4u32, String::from_str("Lamborghini Huaracan GT3 2015")));
    v.push((29u32, String::from_str("Lamborghini Huaracan Super Trofeo ST Evo GTC")));
    v.push((18u32, String::from_str("Lamborghini Huaracan Super Trofeo ST GTC")));
    v.push((13u32, String::from_str("Lamborghini Gallardo Rex GT3")));
    v.push((15u32, String::from_str("Lexus Rc-F GT3")));
    v.push((58u32, String::from_str("Maserati MC GT4")));
    v.push((83u32, String::from_str("Maserati GT2")));
    v.push((35u32, String::from_str("McLaren 720S GT3 Evo")));
    v.push((22u32, String::from_str("McLaren 720S GT3 Special 2019")));
    v.push((5u32, String::from_str("McLaren 650S GT3")));
    v.push((59u32, String::from_str("McLaren 570S GT4")));
    v.push((25u32, String::from_str("Mercedes AMG GT3 Evo 2020")));
    v.push((1u32, String::from_str("Mercedes AMG GT3 2015")));
    v.push((60u32, String::from_str("Mercedes AMG GT4")));
    v.push((84u32, String::from_str("Mercedes AMG GT2")));
    v.push((6u32, String::from_str("Nissan GT-R GT3 2018")));
    v.push((10u32, String::from_str("Nissan GT-R GT3 2015")));
    v.push((34u32, String::from_str("Porsche 992 GT3R")));
    v.push((23u32, String::from_str("Porsche 991-II GT3R")));
    v.push((0u32, String::from_str("Porsche 991 GT3R")));
    v.push((61u32, String::from_str("Porsche 718 Cayman GT4")));
    v.push((85u32, String::from_str("Porsche 991-II GT2 RS CS Evo")));
    v.push((86u32, String::from_str("Porsche 935 GT2")));
    v.push((28u32, String::from_str("Porsche 992 GT3Cup GTC")));
    v.push((9u32, String::from_str("Porsche 991.2 GT3Cup GTC")));
    proof {
        assert(spec_car_views(v@) =~= spec_cars());
    }
    v
}

/// Display name of the first catalog car with the given id, if any.
pub open spec fn spec_car_name_in(cs: Seq<(u32, Seq<char>)>, id: u32) -> Option<Seq<char>>
    decreases cs.len(),
{
    if cs.len() == 0 {
        Option::None
    } else if cs[0].0 == id {
        Option::Some(cs[0].1)
    } else {
        spec_car_name_in(cs.drop_first(), id)
    }
}

/// Display name of a catalog car id, if the id is known.
pub open spec fn spec_car_name(id: u32) -> Option<Seq<char>> {
    spec_car_name_in(spec_cars(), id)
}

/// Look a car's display name up by its numeric id, scanning the
/// catalog in order.
pub fn get_car_name_from_id(car_id: u32) -> (r: Option<String>)
    ensures
        r is Some <==> spec_car_name(car_id) is Some,
        r is Some ==> r.unwrap()@ == spec_car_name(car_id).unwrap(),
{
    let cs = cars();
    let n = cs.len();
    let mut i: usize = 0;
    proof {
        assert(spec_cars().subrange(0, n as int) =~= spec_cars());
    }
    while i < n
        invariant
            0 <= i <= n == cs@.len(),
            spec_car_views(cs@) == spec_cars(),
            spec_car_name(car_id) == spec_car_name_in(
                spec_cars().subrange(i as int, n as int),
                car_id,
            ),
        decreases n - i,
    {
        proof {
            let rem = spec_cars().subrange(i as int, n as int);
            assert(rem[0] == spec_cars()[i as int]);
            assert(rem.drop_first() =~= spec_cars().subrange(i + 1, n as int));
        }
        if cs[i].0 == car_id {
            return Option::Some(cs[i].1.clone());
        }
        i += 1;
    }
    proof {
        assert(spec_cars().subrange(i as int, n as int).len() == 0);
    }
    Option::None
}

} // verus!
