use indexmap::IndexMap;
use fractal_music::discretization::GridLayout;
use fractal_music::music::{
    AttractorPlacement, CasePlacement, MusicError, MusicMappingConfig, MusicalAttractor,
    PointPlacement, PositionBasis, StrudelPattern, band_axis, generate_strudel_pattern, note_name,
    position_basis, scale_intervals, strudel_code,
};

fn config(criterion: &str, segmentation: &str, scale: &str, root: &str, octaves: usize) -> MusicMappingConfig {
    MusicMappingConfig {
        criterion: criterion.to_string(),
        segmentation: segmentation.to_string(),
        scale: scale.to_string(),
        root: root.to_string(),
        octaves,
    }
}

fn attractor(label: &str, index: usize, notes: &[&str]) -> MusicalAttractor {
    MusicalAttractor {
        case_label: label.to_string(),
        attractor_index: index,
        period: notes.len(),
        notes: notes.iter().map(|n| n.to_string()).collect(),
        cells: notes.iter().map(|_| None).collect(),
    }
}

#[test]
fn default_config_is_melody_over_bands_in_c4_minor() {
    let c = MusicMappingConfig::default();
    assert_eq!(c, config("melody", "bands", "minor", "C4", 2));
    assert_eq!(c.validate(), Ok(()));
    assert!(c.degree_fits(0));
    assert!(c.degree_fits(13));
    assert!(c.degree_fits(usize::MAX));
    assert_eq!(c.total_degrees(), Some(14));
}

#[test]
fn validation_reports_the_first_refused_field() {
    assert_eq!(
        config("jazz", "nowhere", "lydian", "H4", 0).validate(),
        Err(MusicError::UnknownCriterion(String::from("jazz")))
    );
    assert_eq!(
        config("melody", "nowhere", "lydian", "H4", 0).validate(),
        Err(MusicError::UnknownSegmentation(String::from("nowhere")))
    );
    assert_eq!(
        config("melody", "bands", "lydian", "H4", 0).validate(),
        Err(MusicError::UnknownScale(String::from("lydian")))
    );
    assert_eq!(config("melody", "bands", "major", "H4", 0).validate(), Err(MusicError::TooFewOctaves));
    assert_eq!(config("melody", "bands", "major", "H4", 1).validate(), Err(MusicError::RootNote));
    assert_eq!(config("melody", "bands", "major", "4C", 1).validate(), Err(MusicError::RootFormat));
    for criterion in ["melody", "harmony", "rhythm", "texture"] {
        for segmentation in ["bands", "positions", "sectors"] {
            for scale in ["major", "minor", "pentatonic", "chromatic"] {
                assert_eq!(config(criterion, segmentation, scale, "A3", 3).validate(), Ok(()));
            }
        }
    }
}

#[test]
fn scales_have_their_intervals() {
    assert_eq!(scale_intervals("major"), Some(vec![0, 2, 4, 5, 7, 9, 11]));
    assert_eq!(scale_intervals("minor"), Some(vec![0, 2, 3, 5, 7, 8, 10]));
    assert_eq!(scale_intervals("pentatonic"), Some(vec![0, 3, 5, 7, 10]));
    assert_eq!(scale_intervals("chromatic"), Some((0..12).collect::<Vec<i32>>()));
    assert_eq!(scale_intervals("Major"), None);
}

#[test]
fn description_summarises_the_pattern() {
    let pattern = StrudelPattern {
        config: MusicMappingConfig::default(),
        attractors: vec![attractor("a", 1, &["c4"]), attractor("a", 2, &["d4"]), attractor("b", 1, &["e4"])],
        code: String::new(),
    };
    assert_eq!(pattern.description(), "melody, bands, C4:minor, atractores=3");
    let empty = StrudelPattern { config: config("harmony", "sectors", "major", "D#3", 1), attractors: vec![], code: String::new() };
    assert_eq!(empty.description(), "harmony, sectors, D#3:major, atractores=0");
}

#[test]
fn note_names_use_sharps_and_octave_minus_one() {
    assert_eq!(note_name(60), "c4");
    assert_eq!(note_name(61), "c#4");
    assert_eq!(note_name(69), "a4");
    assert_eq!(note_name(70), "a#4");
    assert_eq!(note_name(0), "c-1");
    assert_eq!(note_name(11), "b-1");
    assert_eq!(note_name(12), "c0");
    assert_eq!(note_name(127), "g9");
    // Negative numbers: the pitch class wraps around, the octave division
    // rounds toward zero.
    assert_eq!(note_name(-1), "b-1");
    assert_eq!(note_name(-12), "c-2");
    assert_eq!(note_name(-13), "b-2");
}

#[test]
fn strudel_code_for_each_criterion() {
    let atts = vec![attractor("a", 1, &["c4", "d4"]), attractor("b", 1, &["e4"])];
    assert_eq!(
        strudel_code(&atts, &config("melody", "bands", "minor", "C4", 2)),
        "note(\"c4 d4 e4\").sound(\"piano\").slow(2)"
    );
    assert_eq!(
        strudel_code(&atts, &config("harmony", "bands", "minor", "C4", 2)),
        "note(\"[c4,d4] [e4]\").sound(\"gm_epiano1\").slow(2)"
    );
    assert_eq!(
        strudel_code(&atts, &config("rhythm", "bands", "minor", "C4", 2)),
        "stack(note(\"c4 d4 e4\").sound(\"gm_acoustic_bass\"), s(\"bd\").struct(\"x ~ x\"))"
    );
    assert_eq!(
        strudel_code(&atts, &config("texture", "bands", "minor", "C4", 2)),
        "stack(note(\"c4 d4 e4\").sound(\"piano\"), note(\"c4 d4 e4\").sound(\"sawtooth\").slow(2).gain(0.35))"
    );
    assert_eq!(strudel_code(&[].to_vec(), &MusicMappingConfig::default()), "silence");
}

fn placed(degree: usize, cell: usize) -> PointPlacement {
    PointPlacement { scaled_degree: Some(degree), cell: Some(cell) }
}

#[test]
fn patterns_place_points_on_scale_degrees() {
    let unplaced = PointPlacement { scaled_degree: None, cell: None };
    let cases = vec![
        CasePlacement {
            label: String::from("ejemplo"),
            attractors: vec![
                AttractorPlacement { period: 2, points: vec![placed(0, 3), placed(7, 5)] },
                AttractorPlacement { period: 1, points: vec![unplaced] },
                AttractorPlacement { period: 3, points: vec![placed(13, 1), unplaced, placed(99, 2)] },
            ],
        },
        CasePlacement { label: String::from("vacío"), attractors: vec![] },
    ];
    // C4 minor over two octaves: degree 0 is C4, degree 7 is C5, degree 13 (the
    // last) is A#5, and higher degrees are held at the last one.
    let pattern = generate_strudel_pattern(&cases, None).unwrap();
    assert_eq!(pattern.config, MusicMappingConfig::default());
    assert_eq!(pattern.attractors.len(), 2);
    assert_eq!(pattern.attractors[0].case_label, "ejemplo");
    assert_eq!(pattern.attractors[0].attractor_index, 1);
    assert_eq!(pattern.attractors[0].period, 2);
    assert_eq!(pattern.attractors[0].notes, vec!["c4", "c5"]);
    assert_eq!(pattern.attractors[0].cells, vec![Some(3), Some(5)]);
    assert_eq!(pattern.attractors[1].attractor_index, 3);
    assert_eq!(pattern.attractors[1].notes, vec!["a#5", "a#5"]);
    assert_eq!(pattern.attractors[1].cells, vec![Some(1), Some(2)]);
    assert_eq!(pattern.code, "note(\"c4 c5 a#5 a#5\").sound(\"piano\").slow(2)");

    let harmony = generate_strudel_pattern(&cases, Some(config("harmony", "sectors", "pentatonic", "A3", 1))).unwrap();
    assert_eq!(harmony.attractors[0].notes, vec!["a3", "g4"]);
    assert_eq!(harmony.code, "note(\"[a3,g4] [g4,g4]\").sound(\"gm_epiano1\").slow(2)");

    let silent = generate_strudel_pattern(&[].to_vec(), None).unwrap();
    assert_eq!(silent.code, "silence");
    assert!(silent.attractors.is_empty());

    assert_eq!(
        generate_strudel_pattern(&cases, Some(config("melody", "bands", "minor", "X9", 2))),
        Err(MusicError::RootNote)
    );
}

#[test]
fn band_axis_prefers_y_then_r_then_x_then_theta() {
    let axes = |names: &[&str]| names.iter().map(|n| n.to_string()).collect::<Vec<_>>();
    assert_eq!(band_axis(&axes(&["x", "y"])), "y");
    assert_eq!(band_axis(&axes(&["r", "theta"])), "r");
    assert_eq!(band_axis(&axes(&["theta"])), "theta");
    assert_eq!(band_axis(&axes(&["x"])), "x");
    assert_eq!(band_axis(&axes(&["u", "v"])), "u");
}

#[test]
fn positions_come_from_the_segmentation() {
    let grid = GridLayout::new(map(&[("r", 12), ("theta", 24)])).unwrap();
    let inside = map(&[("r", 3), ("theta", 5)]);
    assert_eq!(position_basis("bands", &grid, Some(&inside), Some(77)), PositionBasis::Fraction { index: 3, steps: 12 });
    assert_eq!(position_basis("positions", &grid, Some(&inside), Some(77)), PositionBasis::Fraction { index: 77, steps: 288 });
    assert_eq!(position_basis("sectors", &grid, Some(&inside), Some(77)), PositionBasis::Fraction { index: 5, steps: 24 });
    assert_eq!(position_basis("sectors", &grid, None, None), PositionBasis::Angle);
    assert_eq!(position_basis("bands", &grid, None, None), PositionBasis::Unplaced);
    assert_eq!(position_basis("positions", &grid, Some(&inside), None), PositionBasis::Unplaced);
    let plane = GridLayout::new(map(&[("x", 4), ("y", 8)])).unwrap();
    let point = map(&[("x", 1), ("y", 2)]);
    assert_eq!(position_basis("sectors", &plane, Some(&point), Some(10)), PositionBasis::Angle);
    assert_eq!(position_basis("bands", &plane, Some(&point), Some(10)), PositionBasis::Fraction { index: 2, steps: 8 });
    // Indices that lack the band axis place nothing; a theta index on a grid
    // without a theta axis places nothing either.
    assert_eq!(position_basis("bands", &plane, Some(&map(&[("x", 1)])), Some(10)), PositionBasis::Unplaced);
    assert_eq!(position_basis("sectors", &plane, Some(&map(&[("theta", 1)])), Some(10)), PositionBasis::Unplaced);
}

fn map(entries: &[(&str, usize)]) -> IndexMap<String, usize> {
    entries.iter().map(|(a, n)| (a.to_string(), *n)).collect()
}

#[test]
fn placed_notes_rise_within_the_scale() {
    let points: Vec<PointPlacement> = (0..20).map(|d| placed(d, d)).collect();
    let cases = vec![CasePlacement {
        label: String::from("escala"),
        attractors: vec![AttractorPlacement { period: 20, points }],
    }];
    let pattern = generate_strudel_pattern(&cases, Some(config("melody", "bands", "major", "C4", 2))).unwrap();
    assert_eq!(
        pattern.attractors[0].notes,
        vec![
            "c4", "d4", "e4", "f4", "g4", "a4", "b4", "c5", "d5", "e5", "f5", "g5", "a5", "b5", "b5",
            "b5", "b5", "b5", "b5", "b5"
        ]
    );
}

#[test]
fn validation_stops_before_an_out_of_range_root() {
    let far = config("noise", "bands", "minor", "C2147483647", 2);
    assert!(!far.reaches_root());
    assert_eq!(far.validate(), Err(MusicError::UnknownCriterion(String::from("noise"))));
    let reached = config("melody", "bands", "minor", "C4", 2);
    assert!(reached.reaches_root());
    assert!(reached.degree_fits(100));
    assert!(!config("melody", "bands", "minor", "C4", 0).reaches_root());
    assert!(!config("melody", "rings", "minor", "C4", 2).reaches_root());
}

#[test]
fn only_the_notes_placed_need_to_fit() {
    // Hundreds of millions of octaves: the top of the range is far beyond any
    // MIDI number, but the points placed low still get their notes.
    let wide = config("melody", "bands", "major", "C4", 400_000_000);
    assert_eq!(wide.validate(), Ok(()));
    assert_eq!(wide.total_degrees(), Some(2_800_000_000));
    assert!(wide.degree_fits(0));
    assert!(wide.degree_fits(9));
    assert!(!wide.degree_fits(2_799_999_999));
    let cases = vec![CasePlacement {
        label: String::from("bajo"),
        attractors: vec![AttractorPlacement { period: 2, points: vec![placed(0, 0), placed(9, 1)] }],
    }];
    let pattern = generate_strudel_pattern(&cases, Some(wide.clone())).unwrap();
    assert_eq!(pattern.attractors[0].notes, vec!["c4", "e5"]);
    assert_eq!(pattern.code, "note(\"c4 e5\").sound(\"piano\").slow(2)");
    let silent = generate_strudel_pattern(&[].to_vec(), Some(wide)).unwrap();
    assert_eq!(silent.code, "silence");
}
