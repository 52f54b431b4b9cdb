use fractal_music::music::{MusicError, root_midi, root_midi_fits};

#[test]
fn root_midi_handles_natural_notes() {
    // C4 = MIDI 60
    assert_eq!(root_midi("C4").unwrap(), 60);
    // A4 = MIDI 69
    assert_eq!(root_midi("A4").unwrap(), 69);
    // Bb2 = MIDI 46
    assert_eq!(root_midi("Bb2").unwrap(), 46);
}

#[test]
fn root_midi_handles_sharps_and_flats() {
    // D#3 = MIDI 51
    assert_eq!(root_midi("D#3").unwrap(), 51);
    // Eb3 = MIDI 51
    assert_eq!(root_midi("Eb3").unwrap(), 51);
    // F#4 = MIDI 66
    assert_eq!(root_midi("F#4").unwrap(), 66);
    // Ab4 = MIDI 68
    assert_eq!(root_midi("Ab4").unwrap(), 68);
}

#[test]
fn root_midi_handles_lowercase() {
    assert_eq!(root_midi("c4").unwrap(), 60);
    assert_eq!(root_midi("d#3").unwrap(), 51);
}

#[test]
fn root_midi_rejects_invalid_input() {
    assert!(root_midi("").is_err());
    assert!(root_midi("C").is_err());
    assert!(root_midi("H4").is_err());
    assert!(root_midi("C#").is_err());
}

#[test]
fn root_midi_reports_which_part_is_wrong() {
    assert_eq!(root_midi(""), Err(MusicError::RootFormat));
    assert_eq!(root_midi("C"), Err(MusicError::RootFormat));
    assert_eq!(root_midi("C#"), Err(MusicError::RootFormat));
    assert_eq!(root_midi("Cx"), Err(MusicError::RootFormat));
    assert_eq!(root_midi("H4"), Err(MusicError::RootNote));
    assert_eq!(root_midi("Cb4"), Err(MusicError::RootNote));
    assert_eq!(root_midi("E#4"), Err(MusicError::RootNote));
    // A single non-ASCII character is too short as well.
    assert_eq!(root_midi("é"), Err(MusicError::RootFormat));
}

#[test]
fn root_midi_trims_white_space_and_reads_signs() {
    assert_eq!(root_midi("  C4\t"), Ok(60));
    assert_eq!(root_midi("C 4"), Ok(60));
    assert_eq!(root_midi("C-1"), Ok(0));
    assert_eq!(root_midi("C+4"), Ok(60));
    assert_eq!(root_midi("Db-1"), Ok(1));
    assert_eq!(root_midi("B9"), Ok(131));
    // A capital B after the letter is no accidental.
    assert_eq!(root_midi("BB2"), Err(MusicError::RootFormat));
}

#[test]
fn root_midi_enharmonic_spellings_agree() {
    for (sharp, flat) in [("C#", "Db"), ("D#", "Eb"), ("F#", "Gb"), ("G#", "Ab"), ("A#", "Bb")] {
        for octave in ["-1", "0", "3", "7"] {
            assert_eq!(
                root_midi(&format!("{sharp}{octave}")),
                root_midi(&format!("{flat}{octave}"))
            );
        }
    }
}

#[test]
fn root_midi_fits_only_realistic_octaves() {
    assert!(root_midi_fits("C4"));
    assert!(root_midi_fits("H4"));
    assert!(root_midi_fits("C178956969"));
    assert!(!root_midi_fits("C178956970"));
    assert!(!root_midi_fits("C2147483647"));
    assert!(!root_midi_fits("C-178956972"));
    assert_eq!(root_midi("C178956969"), Ok(2147483640));
}
