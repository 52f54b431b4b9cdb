use fractal_music::audio::{CallKind, Pitch, StrudelEvent, describe_strudel, parse_strudel_events, parse_token};
use fractal_music::music::{
    AttractorPlacement, CasePlacement, MusicMappingConfig, PointPlacement, generate_strudel_pattern,
    note_name,
};
use fractal_music::text::chars_of;

fn token(t: &str) -> Option<Pitch> {
    let v = chars_of(t);
    parse_token(&v, 0, v.len())
}

fn note(octave: i32, semitone: i32) -> Pitch {
    Pitch::Note { octave, semitone }
}

#[test]
fn tokens_name_drums_and_notes() {
    assert_eq!(token("bd"), Some(Pitch::Drum(90)));
    assert_eq!(token("BASS"), Some(Pitch::Drum(90)));
    assert_eq!(token("Snare"), Some(Pitch::Drum(180)));
    assert_eq!(token("sd"), Some(Pitch::Drum(180)));
    assert_eq!(token("hh"), Some(Pitch::Drum(7000)));
    assert_eq!(token("hihat"), Some(Pitch::Drum(7000)));
    assert_eq!(token("cp"), Some(Pitch::Drum(420)));
    assert_eq!(token("CLAP"), Some(Pitch::Drum(420)));
    assert_eq!(token("silence"), None);
    assert_eq!(token("~"), None);
    assert_eq!(token(""), None);
    assert_eq!(token("c4"), Some(note(4, 0)));
    assert_eq!(token("C#4"), Some(note(4, 1)));
    assert_eq!(token("Bb2"), Some(note(2, 10)));
    assert_eq!(token("cb4"), Some(note(4, -1)));
    assert_eq!(token("b#3"), Some(note(3, 12)));
    assert_eq!(token("a-1"), Some(note(-1, 9)));
    assert_eq!(token("x4"), None);
    assert_eq!(token("c"), None);
    assert_eq!(token("c4x"), None);
    assert_eq!(token("piano"), None);
}

#[test]
fn note_names_are_read_back_as_the_same_note() {
    for midi in [0, 1, 11, 12, 46, 51, 60, 61, 69, 82, 127, 1000] {
        match token(&note_name(midi)) {
            Some(Pitch::Note { octave, semitone }) => assert_eq!(12 * (octave + 1) + semitone, midi),
            other => panic!("{midi} read back as {other:?}"),
        }
    }
}

#[test]
fn describe_strudel_explains_each_call() {
    let code = "stack(note(\"c4 d4\").sound(\"piano\"), note(\"[c4,e4]\"), s(\"bd\").struct(\"x ~ x\"))";
    assert_eq!(
        describe_strudel(code),
        vec![
            String::from("Notas c4 d4: se tocan en secuencia, de izquierda a derecha."),
            String::from("Acorde [c4,e4]: las notas entre corchetes se tocan simultáneamente."),
            String::from("Sonido piano: se dispara como evento rítmico."),
            String::from("Sonido bd: se dispara como evento rítmico."),
        ]
    );
    assert!(describe_strudel("silence").is_empty());
    // A call without its closing bracket ends the scan.
    assert!(describe_strudel("note(\"c4").is_empty());
    assert_eq!(describe_strudel("note('a4')"), vec![String::from("Notas a4: se tocan en secuencia, de izquierda a derecha.")]);
}

#[test]
fn events_follow_the_calls() {
    let code = "stack(note(\"<c4 [e4,g4]> ~\").sound(\"piano\"), s(\"bd hh\"))";
    let events = parse_strudel_events(code);
    assert_eq!(
        events,
        vec![
            StrudelEvent { pitches: vec![note(4, 0)], call: CallKind::Note },
            StrudelEvent { pitches: vec![note(4, 4), note(4, 7)], call: CallKind::Note },
            StrudelEvent { pitches: vec![Pitch::Drum(90)], call: CallKind::S },
            StrudelEvent { pitches: vec![Pitch::Drum(7000)], call: CallKind::S },
        ]
    );
    assert!(parse_strudel_events("silence").is_empty());
    assert_eq!(
        parse_strudel_events("sound(\"bd\")"),
        vec![StrudelEvent { pitches: vec![Pitch::Drum(90)], call: CallKind::Sound }]
    );
}

#[test]
fn generated_melodies_play_back_their_notes() {
    let points: Vec<PointPlacement> = [0usize, 7, 13, 99]
        .iter()
        .map(|d| PointPlacement { scaled_degree: Some(*d), cell: None })
        .collect();
    let cases = vec![CasePlacement {
        label: String::from("ejemplo"),
        attractors: vec![AttractorPlacement { period: 4, points }],
    }];
    let pattern = generate_strudel_pattern(&cases, None).unwrap();
    assert_eq!(pattern.code, "note(\"c4 c5 a#5 a#5\").sound(\"piano\").slow(2)");
    let played = parse_strudel_events(&pattern.code);
    let expected: Vec<StrudelEvent> = [(4, 0), (5, 0), (5, 10), (5, 10)]
        .iter()
        .map(|(octave, semitone)| StrudelEvent { pitches: vec![note(*octave, *semitone)], call: CallKind::Note })
        .collect();
    assert_eq!(played, expected);
}

#[test]
fn generated_harmonies_play_back_their_chords() {
    let placed = |d: usize| PointPlacement { scaled_degree: Some(d), cell: None };
    let cases = vec![CasePlacement {
        label: String::from("ejemplo"),
        attractors: vec![
            AttractorPlacement { period: 2, points: vec![placed(0), placed(2)] },
            AttractorPlacement { period: 1, points: vec![placed(4)] },
        ],
    }];
    let harmony = MusicMappingConfig {
        criterion: String::from("harmony"),
        segmentation: String::from("bands"),
        scale: String::from("major"),
        root: String::from("C4"),
        octaves: 1,
    };
    let pattern = generate_strudel_pattern(&cases, Some(harmony)).unwrap();
    assert_eq!(pattern.code, "note(\"[c4,e4] [g4]\").sound(\"gm_epiano1\").slow(2)");
    assert_eq!(
        parse_strudel_events(&pattern.code),
        vec![
            StrudelEvent { pitches: vec![note(4, 0), note(4, 4)], call: CallKind::Note },
            StrudelEvent { pitches: vec![note(4, 7)], call: CallKind::Note },
        ]
    );
}

fn three_note_cases() -> Vec<CasePlacement> {
    let placed = |d: usize| PointPlacement { scaled_degree: Some(d), cell: None };
    vec![CasePlacement {
        label: String::from("ejemplo"),
        attractors: vec![
            AttractorPlacement { period: 2, points: vec![placed(0), placed(2)] },
            AttractorPlacement { period: 1, points: vec![placed(4)] },
        ],
    }]
}

fn config_with(criterion: &str) -> MusicMappingConfig {
    MusicMappingConfig {
        criterion: String::from(criterion),
        segmentation: String::from("bands"),
        scale: String::from("major"),
        root: String::from("C4"),
        octaves: 1,
    }
}

fn note_events(notes: &[(i32, i32)]) -> Vec<StrudelEvent> {
    notes
        .iter()
        .map(|(octave, semitone)| StrudelEvent { pitches: vec![note(*octave, *semitone)], call: CallKind::Note })
        .collect()
}

#[test]
fn generated_rhythms_play_their_bass_line_over_one_drum() {
    let pattern = generate_strudel_pattern(&three_note_cases(), Some(config_with("rhythm"))).unwrap();
    assert_eq!(
        pattern.code,
        "stack(note(\"c4 e4 g4\").sound(\"gm_acoustic_bass\"), s(\"bd\").struct(\"x ~ x\"))"
    );
    let mut expected = note_events(&[(4, 0), (4, 4), (4, 7)]);
    expected.push(StrudelEvent { pitches: vec![Pitch::Drum(90)], call: CallKind::S });
    assert_eq!(parse_strudel_events(&pattern.code), expected);
}

#[test]
fn generated_textures_play_their_melody_twice() {
    let pattern = generate_strudel_pattern(&three_note_cases(), Some(config_with("texture"))).unwrap();
    assert_eq!(
        pattern.code,
        "stack(note(\"c4 e4 g4\").sound(\"piano\"), note(\"c4 e4 g4\").sound(\"sawtooth\").slow(2).gain(0.35))"
    );
    let once = note_events(&[(4, 0), (4, 4), (4, 7)]);
    let mut twice = once.clone();
    twice.extend(once);
    assert_eq!(parse_strudel_events(&pattern.code), twice);
}
