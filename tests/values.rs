use rosu_pp::attributes::{difficulty_range, BeatmapAttributes, Mods};
use rosu_pp::calculated::{
    DifficultyAttributes, ManiaDifficultyAttributes, ManiaPerformanceAttributes,
    OsuDifficultyAttributes, OsuPerformanceAttributes, PerformanceAttributes,
};
use rosu_pp::curve::{is_linear, read_point, PathType, Pos2};
use rosu_pp::num::{parse_decimal, parse_uint};
use rosu_pp::{Num, ParseError};

fn n(whole: i64) -> Num {
    Num::from_int(whole)
}

#[test]
fn decimal_literals() {
    assert_eq!(parse_decimal(b"1.5"), Ok(Num::from_units(1_500_000_000)));
    assert_eq!(parse_decimal(b"-0.25"), Ok(Num::from_units(-250_000_000)));
    assert_eq!(parse_decimal(b"+7"), Ok(n(7)));
    assert_eq!(parse_decimal(b".5"), Ok(Num::from_units(500_000_000)));
    assert_eq!(parse_decimal(b"3."), Ok(n(3)));
    assert_eq!(parse_decimal(b"0.1234567891"), Ok(Num::from_units(123_456_789)));
    assert_eq!(parse_decimal(b"NaN"), Err(ParseError::InvalidDecimalNumber));
    assert_eq!(parse_decimal(b"-Infinity"), Err(ParseError::InvalidDecimalNumber));
    assert_eq!(parse_decimal(b"1000000000"), Err(ParseError::InvalidDecimalNumber));
    assert_eq!(parse_decimal(b""), Err(ParseError::InvalidFloat));
    assert_eq!(parse_decimal(b"."), Err(ParseError::InvalidFloat));
    assert_eq!(parse_decimal(b"1.2.3"), Err(ParseError::InvalidFloat));
    assert_eq!(parse_decimal(b" 1"), Err(ParseError::InvalidFloat));
}

#[test]
fn exponent_literals() {
    assert_eq!(parse_decimal(b"1e3"), Ok(n(1000)));
    assert_eq!(parse_decimal(b"1.5E-2"), Ok(Num::from_units(15_000_000)));
    assert_eq!(parse_decimal(b"-2.5e+1"), Ok(n(-25)));
    assert_eq!(parse_decimal(b"12345e-13"), Ok(Num::from_units(1)));
    assert_eq!(parse_decimal(b"1e-30"), Ok(n(0)));
    assert_eq!(parse_decimal(b"0e99999999999999999999999"), Ok(n(0)));
    assert_eq!(parse_decimal(b"1e9"), Err(ParseError::InvalidDecimalNumber));
    assert_eq!(parse_decimal(b"1e99999999999999999999999"), Err(ParseError::InvalidDecimalNumber));
    assert_eq!(parse_decimal(b"1e"), Err(ParseError::InvalidFloat));
    assert_eq!(parse_decimal(b"e5"), Err(ParseError::InvalidFloat));
    assert_eq!(parse_decimal(b"1e5.0"), Err(ParseError::InvalidFloat));
}

#[test]
fn integer_literals() {
    assert_eq!(parse_uint(b"255", 255), Some(255));
    assert_eq!(parse_uint(b"+12", 255), Some(12));
    assert_eq!(parse_uint(b"256", 255), None);
    assert_eq!(parse_uint(b"-1", 255), None);
    assert_eq!(parse_uint(b"", 255), None);
    assert_eq!(parse_uint(b"18446744073709551615", u64::MAX), Some(u64::MAX));
    assert_eq!(parse_uint(b"18446744073709551616", u64::MAX), None);
}

#[test]
fn path_type_tokens() {
    assert_eq!(PathType::from_str(b"L"), PathType::Linear);
    assert_eq!(PathType::from_str(b"B"), PathType::Bezier);
    assert_eq!(PathType::from_str(b"P"), PathType::PerfectCurve);
    assert_eq!(PathType::from_str(b"C"), PathType::Catmull);
    assert_eq!(PathType::from_str(b"LL"), PathType::Catmull);
}

#[test]
fn points_and_collinearity() {
    let anchor = Pos2 { x: n(10), y: n(20) };
    let p = read_point(b"15:30:99", anchor).unwrap();
    assert_eq!(p.pos, Pos2 { x: n(5), y: n(10) });
    assert_eq!(read_point(b"15", anchor), Err(ParseError::InvalidCurvePoints));
    let o = Pos2 { x: n(0), y: n(0) };
    assert!(is_linear(o, Pos2 { x: n(1), y: n(1) }, Pos2 { x: n(2), y: n(2) }));
    assert!(!is_linear(o, Pos2 { x: n(1), y: n(0) }, Pos2 { x: n(1), y: n(1) }));
}

fn base() -> BeatmapAttributes {
    BeatmapAttributes::new(n(9), n(8), n(4), n(5))
}

#[test]
fn attribute_adjustment_with_clock_rate() {
    let mods = Mods {
        change_map: true,
        clock_rate: Num::from_units(1_500_000_000),
        multiplier: n(1),
        hr: false,
        ez: false,
    };
    let a = base().mods(mods);
    assert_eq!(a.ar, Num::from_units(10_333_333_333));
    assert_eq!(a.od, n(8));
    assert_eq!(a.cs, n(4));
    assert_eq!(a.hp, n(5));
    assert_eq!(a.clock_rate, Num::from_units(1_500_000_000));
}

#[test]
fn attribute_adjustment_hard_and_easy() {
    let hard = Mods {
        change_map: true,
        clock_rate: n(1),
        multiplier: Num::from_units(1_400_000_000),
        hr: true,
        ez: false,
    };
    let a = base().mods(hard);
    assert_eq!(a.ar, n(10));
    assert_eq!(a.od, n(10));
    assert_eq!(a.cs, Num::from_units(5_200_000_000));
    assert_eq!(a.hp, n(7));
    let easy = Mods { change_map: true, clock_rate: n(1), multiplier: Num::from_units(500_000_000), hr: false, ez: true };
    let e = base().mods(easy);
    assert_eq!(e.cs, n(2));
    assert_eq!(e.od, n(4));
    assert_eq!(e.ar, Num::from_units(4_500_000_000));
}

#[test]
fn attributes_unchanged_without_map_mods() {
    let mods = Mods { change_map: false, clock_rate: n(2), multiplier: n(2), hr: true, ez: false };
    assert_eq!(base().mods(mods), base());
    assert_eq!(base().clock_rate, n(1));
}

#[test]
fn difficulty_range_values() {
    assert_eq!(difficulty_range(n(10), n(20), n(50), n(80)), n(20));
    assert_eq!(difficulty_range(n(0), n(20), n(50), n(80)), n(80));
    assert_eq!(difficulty_range(n(5), n(20), n(50), n(80)), n(50));
    assert_eq!(difficulty_range(Num::from_units(7_500_000_000), n(20), n(50), n(80)), n(35));
}

#[test]
fn max_combo_by_mode() {
    let osu = DifficultyAttributes::Osu(OsuDifficultyAttributes { stars: n(5), max_combo: 1234 });
    let mania = DifficultyAttributes::Mania(ManiaDifficultyAttributes { stars: n(3) });
    assert_eq!(osu.max_combo(), Some(1234));
    assert_eq!(mania.max_combo(), None);
    assert_eq!(osu.stars(), n(5));
    let perf = PerformanceAttributes::Osu(OsuPerformanceAttributes {
        difficulty: OsuDifficultyAttributes { stars: n(5), max_combo: 99 },
        pp: n(300),
    });
    assert_eq!(perf.max_combo(), Some(99));
    assert_eq!(perf.pp(), n(300));
    assert_eq!(perf.stars(), n(5));
    assert_eq!(
        perf.difficulty_attributes(),
        DifficultyAttributes::Osu(OsuDifficultyAttributes { stars: n(5), max_combo: 99 })
    );
    let mperf = PerformanceAttributes::Mania(ManiaPerformanceAttributes {
        difficulty: ManiaDifficultyAttributes { stars: n(3) },
        pp: n(1),
    });
    assert_eq!(mperf.max_combo(), None);
    assert_eq!(DifficultyAttributes::from(mperf), mania);
}
