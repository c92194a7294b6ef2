use rosu_pp::beatmap::{Beatmap, GameMode};
use rosu_pp::curve::{PathControlPoint, PathType, Pos2};
use rosu_pp::hitobject::HitObjectKind;
use rosu_pp::parser::bpm;
use rosu_pp::{Field, Num, ParseError};

const S: i128 = 1_000_000_000;

fn n(whole: i64) -> Num {
    Num::from_int(whole)
}

fn pos(x: i64, y: i64) -> Pos2 {
    Pos2 { x: n(x), y: n(y) }
}

fn map_with(mode: &str, timing: &str, objects: &str) -> String {
    format!(
        "osu file format v14\n\n[General]\nMode: {}\n\n[Difficulty]\nHPDrainRate:5\nCircleSize:4\nOverallDifficulty:8\nApproachRate:9\nSliderMultiplier:1.4\nSliderTickRate:1\n\n[TimingPoints]\n{}\n[HitObjects]\n{}",
        mode, timing, objects
    )
}

fn parse(text: &str) -> Result<Beatmap, ParseError> {
    Beatmap::parse(text.as_bytes())
}

#[test]
fn parsing_sync() {
    let text = map_with(
        "0",
        "0,500,4,2,0,100,1,0\n1000,-50,4,2,0,100,0,0\n",
        "256,192,1000,1,0,0:0:0:0:\n100,100,1500,2,0,B|200:100|300:150,1,140\n256,192,2000,12,0,3000,0:0:0:0:\n",
    );
    let map = parse(&text).expect("map parses");
    assert_eq!(map.mode, GameMode::STD);
    assert_eq!(map.version, 14);
    assert_eq!(map.n_circles, 1);
    assert_eq!(map.n_sliders, 1);
    assert_eq!(map.n_spinners, 1);
    assert_eq!(map.hit_objects.len(), 3);
    assert_eq!(map.timing_points.len(), 1);
    assert_eq!(map.difficulty_points.len(), 1);
    assert_eq!(map.ar, n(9));
    assert_eq!(map.od, n(8));
    assert_eq!(map.cs, n(4));
    assert_eq!(map.hp, n(5));
    assert_eq!(map.slider_mult, Num::from_units(1_400_000_000));
    assert_eq!(map.tick_rate, n(1));
    assert_eq!(map.stack_leniency, Num::from_units(700_000_000));
}

#[test]
fn bezier_slider_from_origin() {
    let text = map_with("0", "0,500\n", "0,0,1000,2,0,B|100:0|200:0|200:100,2,100\n");
    let map = parse(&text).unwrap();
    match &map.hit_objects[0].kind {
        HitObjectKind::Slider { repeats, control_points, pixel_len } => {
            assert_eq!(*repeats, 1);
            assert_eq!(*pixel_len, n(100));
            assert_eq!(
                control_points,
                &vec![
                    PathControlPoint { pos: pos(100, 0), kind: Some(PathType::Bezier) },
                    PathControlPoint { pos: pos(200, 0), kind: None },
                    PathControlPoint { pos: pos(200, 100), kind: None },
                ]
            );
        }
        other => panic!("not a slider: {:?}", other),
    }
}

fn first_kind(points: &str) -> Option<PathType> {
    let text = map_with("0", "0,500\n", &format!("0,0,1000,2,0,{},1,100\n", points));
    let map = parse(&text).unwrap();
    match &map.hit_objects[0].kind {
        HitObjectKind::Slider { control_points, .. } => control_points[0].kind,
        other => panic!("not a slider: {:?}", other),
    }
}

#[test]
fn perfect_curve_collinear_becomes_linear() {
    assert_eq!(first_kind("P|100:0|200:0|300:0"), Some(PathType::Linear));
}

#[test]
fn perfect_curve_three_points_kept() {
    assert_eq!(first_kind("P|100:0|100:100|0:100"), Some(PathType::PerfectCurve));
}

#[test]
fn perfect_curve_other_count_becomes_bezier() {
    assert_eq!(first_kind("P|100:0|200:0|300:50|1:1"), Some(PathType::Bezier));
    assert_eq!(first_kind("P|100:0|200:0"), Some(PathType::Bezier));
    assert_eq!(first_kind("P|100:0"), Some(PathType::Bezier));
}

#[test]
fn repeated_point_splits_segment() {
    let text = map_with("0", "0,500\n", "0,0,1000,2,0,L|1:1|2:2|2:2|3:3,1,100\n");
    let map = parse(&text).unwrap();
    match &map.hit_objects[0].kind {
        HitObjectKind::Slider { control_points, .. } => {
            assert_eq!(
                control_points,
                &vec![
                    PathControlPoint { pos: pos(1, 1), kind: Some(PathType::Linear) },
                    PathControlPoint { pos: pos(2, 2), kind: Some(PathType::Linear) },
                    PathControlPoint { pos: pos(3, 3), kind: None },
                ]
            );
        }
        other => panic!("not a slider: {:?}", other),
    }
}

#[test]
fn slider_relative_to_anchor() {
    let text = map_with("0", "0,500\n", "100,50,1000,2,0,B|150:50,1,100\n");
    let map = parse(&text).unwrap();
    match &map.hit_objects[0].kind {
        HitObjectKind::Slider { control_points, repeats, .. } => {
            assert_eq!(*repeats, 0);
            assert_eq!(
                control_points,
                &vec![PathControlPoint { pos: pos(50, 0), kind: Some(PathType::Bezier) }]
            );
        }
        other => panic!("not a slider: {:?}", other),
    }
}

#[test]
fn pixel_len_is_clamped() {
    let text = map_with("0", "0,500\n", "0,0,1000,2,0,B|1:1,1,-5\n0,0,2000,2,0,B|1:1,1,200000\n");
    let map = parse(&text).unwrap();
    match (&map.hit_objects[0].kind, &map.hit_objects[1].kind) {
        (HitObjectKind::Slider { pixel_len: a, .. }, HitObjectKind::Slider { pixel_len: b, .. }) => {
            assert_eq!(*a, n(0));
            assert_eq!(*b, n(131072));
        }
        other => panic!("not sliders: {:?}", other),
    }
}

#[test]
fn too_many_repeats() {
    let text = map_with("0", "0,500\n", "0,0,1000,2,0,B|100:0|garbage,9001,100\n");
    assert_eq!(parse(&text).unwrap_err(), ParseError::TooManyRepeats);
}

#[test]
fn invalid_curve_points() {
    let text = map_with("0", "0,500\n", "0,0,1000,2,0,B|100:x,1,100\n");
    assert_eq!(parse(&text).unwrap_err(), ParseError::InvalidCurvePoints);
}

#[test]
fn missing_header() {
    assert_eq!(parse("hello\n[General]\nMode: 0\n").unwrap_err(), ParseError::IncorrectFileHeader);
    assert_eq!(parse("").unwrap_err(), ParseError::IncorrectFileHeader);
    assert_eq!(parse("  \n\n").unwrap_err(), ParseError::IncorrectFileHeader);
}

#[test]
fn header_after_bom_and_blank_lines() {
    let text = "\u{feff}\n\nosu file format v7\n";
    let map = parse(text).unwrap();
    assert_eq!(map.version, 7);
    assert!(map.hit_objects.is_empty());
}

#[test]
fn bad_version_is_invalid_integer() {
    assert_eq!(parse("osu file format vX\n").unwrap_err(), ParseError::InvalidInteger);
}

#[test]
fn invalid_mode() {
    let text = map_with("4", "0,500\n", "");
    assert_eq!(parse(&text).unwrap_err(), ParseError::InvalidMode);
}

#[test]
fn missing_od_field() {
    let text = "osu file format v14\n[Difficulty]\nHPDrainRate:5\nCircleSize:4\n";
    assert_eq!(parse(text).unwrap_err(), ParseError::MissingField(Field::Od));
    assert_eq!(Field::Od.name(), "od");
}

#[test]
fn approach_rate_defaults_to_od() {
    let text = "osu file format v14\n[Difficulty]\nHPDrainRate:5\nCircleSize:4\nOverallDifficulty:7.5\nSliderMultiplier:1\nSliderTickRate:1\n";
    let map = parse(text).unwrap();
    assert_eq!(map.ar, Num::from_units(7_500_000_000));
}

#[test]
fn bad_line_without_colon() {
    let text = "osu file format v14\n[General]\nno colon here\n";
    assert_eq!(parse(text).unwrap_err(), ParseError::BadLine);
}

#[test]
fn unknown_hit_object_kind() {
    let text = map_with("0", "0,500\n", "0,0,1000,4,0\n");
    assert_eq!(parse(&text).unwrap_err(), ParseError::UnknownHitObjectKind);
}

#[test]
fn non_finite_time_is_refused() {
    let text = map_with("0", "0,500\n", "0,0,inf,1,0\n");
    assert_eq!(parse(&text).unwrap_err(), ParseError::InvalidDecimalNumber);
    let text = map_with("0", "0,500\n", "0,0,1x,1,0\n");
    assert_eq!(parse(&text).unwrap_err(), ParseError::InvalidFloat);
}

#[test]
fn comments_and_skipped_lines() {
    let text = map_with("0", "0,500\n", "// a comment\n 1,1,1,1,0\n_x\n10,10,100,1,0// trailing\n");
    let map = parse(&text).unwrap();
    assert_eq!(map.hit_objects.len(), 1);
    assert_eq!(map.hit_objects[0].start_time, n(100));
}

#[test]
fn unsorted_objects_are_sorted() {
    let text = map_with("0", "0,500\n", "1,1,300,1,0\n2,2,100,1,0\n3,3,200,1,0\n");
    let map = parse(&text).unwrap();
    let times: Vec<Num> = map.hit_objects.iter().map(|h| h.start_time).collect();
    assert_eq!(times, vec![n(100), n(200), n(300)]);
}

#[test]
fn mania_equal_times_keep_file_order() {
    let text = map_with("3", "0,500\n", "1,1,200,128,0\n2,2,100,128,0\n3,3,200,128,0\n4,4,100,128,0\n");
    let map = parse(&text).unwrap();
    let xs: Vec<Num> = map.hit_objects.iter().map(|h| h.pos.x).collect();
    assert_eq!(xs, vec![n(2), n(4), n(1), n(3)]);
    assert_eq!(map.n_sliders, 4);
}

#[test]
fn sorted_points_keep_arrival_order() {
    let text = map_with("0", "0,500\n100,400\n100,300\n200,-200\n", "");
    let map = parse(&text).unwrap();
    let lens: Vec<Num> = map.timing_points.iter().map(|p| p.beat_len).collect();
    assert_eq!(lens, vec![n(500), n(400), n(300)]);
    assert_eq!(map.difficulty_points[0].speed_multiplier, Num::from_units(500_000_000));
}

#[test]
fn unsorted_points_are_sorted_stably() {
    let text = map_with("0", "300,500\n100,400\n100,300\n", "");
    let map = parse(&text).unwrap();
    let lens: Vec<Num> = map.timing_points.iter().map(|p| p.beat_len).collect();
    assert_eq!(lens, vec![n(400), n(300), n(500)]);
}

#[test]
fn speed_multiplier_is_clamped() {
    let text = map_with("0", "0,500\n10,-5\n20,-100000\n", "");
    let map = parse(&text).unwrap();
    assert_eq!(map.difficulty_points[0].speed_multiplier, n(10));
    assert_eq!(map.difficulty_points[1].speed_multiplier, Num::from_units(S / 10));
}

#[test]
fn bpm_of_first_timing_point() {
    let text = map_with("0", "0,500\n1000,250\n", "");
    let map = parse(&text).unwrap();
    assert_eq!(map.bpm(), Some(n(120)));
    assert_eq!(bpm(Num::from_units(333_333_333_333)), Some(Num::from_units(180_000_000_000)));
    assert_eq!(bpm(n(0)), None);
    assert_eq!(bpm(n(-500)), Some(n(-120)));
    assert_eq!(Beatmap::default().bpm(), Some(n(0)));
}

#[test]
fn spinner_and_hold_end_times() {
    let text = map_with("3", "0,500\n", "0,0,100,8,0,900\n0,0,200,128,0,150:0:0:0:\n0,0,300,128,0,700:0:0:0:\n");
    let map = parse(&text).unwrap();
    assert_eq!(map.hit_objects[0].end_time(), n(900));
    assert!(map.hit_objects[0].is_spinner());
    assert_eq!(map.hit_objects[1].end_time(), n(200));
    assert_eq!(map.hit_objects[2].end_time(), n(700));
}

#[test]
fn trailing_type_token_adds_nothing() {
    let text = map_with("0", "0,500\n", "0,0,100,2,0,B|1:1|L,1,50\n");
    let map = parse(&text).unwrap();
    assert!(map.hit_objects[0].is_slider());
    match &map.hit_objects[0].kind {
        HitObjectKind::Slider { control_points, .. } => assert_eq!(control_points.len(), 1),
        other => panic!("not a slider: {:?}", other),
    }
    let text = map_with("0", "0,500\n", "0,0,100,2,0,B|1:1,1\n");
    assert_eq!(parse(&text).unwrap_err(), ParseError::MissingField(Field::PixelLen));
}

#[test]
fn missing_hit_object_fields() {
    let text = map_with("0", "0,500\n", "0,0\n");
    assert_eq!(parse(&text).unwrap_err(), ParseError::MissingField(Field::HitObjectTime));
    let text = map_with("0", "0,500\n", "0,0,100,2,0\n");
    assert_eq!(parse(&text).unwrap_err(), ParseError::MissingField(Field::ControlPoints));
}

#[test]
fn slider_without_points_is_circle() {
    let text = map_with("0", "0,500\n", "0,0,100,2,0,B,1\n");
    let map = parse(&text).unwrap();
    assert!(map.hit_objects[0].is_circle());
    assert_eq!(map.n_sliders, 1);
}

#[test]
fn comments_before_header_are_skipped() {
    let text = "// c\n_note\n osu file format v3\nosu file format v14\n";
    assert_eq!(parse(text).unwrap().version, 14);
}

#[test]
fn value_runs_past_a_second_colon() {
    let text = "osu file format v14\n[General]\nStackLeniency: 0.5:x\n";
    assert_eq!(parse(text).unwrap_err(), ParseError::InvalidFloat);
    let text = "osu file format v14\n[General]\nStackLeniency:  0.5 \n";
    assert_eq!(parse(text).unwrap().stack_leniency, Num::from_units(500_000_000));
}

#[test]
fn default_beatmap_is_empty() {
    let map = Beatmap::default();
    assert_eq!(map.version, 0);
    assert_eq!(map.mode, GameMode::STD);
    assert!(map.hit_objects.is_empty());
}

#[test]
fn stray_bom_bytes_are_not_blank() {
    assert_eq!(parse("\u{feff}\u{feff} \nosu file format v5\n").unwrap().version, 5);
    let text: Vec<u8> = b"\xEF\xBB\nosu file format v5\n".to_vec();
    assert_eq!(Beatmap::parse(&text).unwrap_err(), ParseError::IncorrectFileHeader);
}
