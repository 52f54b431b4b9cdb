//! Mapping discretized attractors to Strudel note patterns.
use vstd::prelude::*;

use indexmap::IndexMap;

use crate::axis_maps::{axis_entries, entries_of, find_value, value_of};
use crate::discretization::{GridLayout, prefix_products_fit, product};
use crate::text::{
    CharClass, all_digits, chars_of, count_words, decimal, digits_value, join, join_texts,
    parse_i32, parse_i32_range, push_decimal, push_signed_decimal, same_text, signed_decimal,
    strip, strip_bounds, strip_end, strip_start, texts, word_count,
};

verus! {

/// Why a musical mapping was refused.
#[derive(Debug, Clone, PartialEq, Eq)]
pub enum MusicError {
    /// The criterion is not one of melody, harmony, rhythm or texture.
    UnknownCriterion(String),
    /// The segmentation is not one of bands, positions or sectors.
    UnknownSegmentation(String),
    /// The scale is not one of major, minor, pentatonic or chromatic.
    UnknownScale(String),
    /// Fewer than one octave was asked for.
    TooFewOctaves,
    /// The root is not written as a note name followed by an octave number.
    RootFormat,
    /// The root's note name is not a known note.
    RootNote,
}

impl MusicError {
    /// The message reported for this error.
    pub fn message(&self) -> (r: String)
        ensures
            r@ == match self {
                MusicError::UnknownCriterion(c) => "Unknown music criterion: "@ + c@,
                MusicError::UnknownSegmentation(g) => "Unknown segmentation: "@ + g@,
                MusicError::UnknownScale(n) => "Unknown scale: "@ + n@,
                MusicError::TooFewOctaves => "octaves must be at least 1"@,
                MusicError::RootFormat => "root must use a note such as C4, D#3 or Bb2"@,
                MusicError::RootNote => "root note is not valid"@,
            },
    {
        match self {
            MusicError::UnknownCriterion(c) => {
                let mut r = String::from_str("Unknown music criterion: ");
                r.append(c.as_str());
                r
            },
            MusicError::UnknownSegmentation(g) => {
                let mut r = String::from_str("Unknown segmentation: ");
                r.append(g.as_str());
                r
            },
            MusicError::UnknownScale(n) => {
                let mut r = String::from_str("Unknown scale: ");
                r.append(n.as_str());
                r
            },
            MusicError::TooFewOctaves => String::from_str("octaves must be at least 1"),
            MusicError::RootFormat => String::from_str("root must use a note such as C4, D#3 or Bb2"),
            MusicError::RootNote => String::from_str("root note is not valid"),
        }
    }
}

// ---------------------------------------------------------------------------
// Root notes
// ---------------------------------------------------------------------------

/// The semitone of a note letter within its octave, in either case.
pub open spec fn letter_semitone(c: char) -> Option<int> {
    if c == 'c' || c == 'C' {
        Some(0)
    } else if c == 'd' || c == 'D' {
        Some(2)
    } else if c == 'e' || c == 'E' {
        Some(4)
    } else if c == 'f' || c == 'F' {
        Some(5)
    } else if c == 'g' || c == 'G' {
        Some(7)
    } else if c == 'a' || c == 'A' {
        Some(9)
    } else if c == 'b' || c == 'B' {
        Some(11)
    } else {
        None
    }
}

/// The semitone of a root's note name within its octave: a letter, optionally
/// followed by `#` (one up) or `b` (one down). Only the names c, c#, db, d, d#,
/// eb, e, f, f#, gb, g, g#, ab, a, a#, bb and b are known.
pub open spec fn note_name_semitone(letter: char, accidental: Option<char>) -> Option<int> {
    match letter_semitone(letter) {
        None => None,
        Some(base) => match accidental {
            None => Some(base),
            Some(a) => if a == '#' && base != 4 && base != 11 {
                Some(base + 1)
            } else if a == 'b' && base != 0 && base != 5 {
                Some(base - 1)
            } else {
                None
            },
        },
    }
}

/// A root with surrounding white space removed.
pub open spec fn root_text(root: Seq<char>) -> Seq<char> {
    strip(root, CharClass::Space)
}

/// Whether the second character of the root is an accidental.
pub open spec fn root_has_accidental(r: Seq<char>) -> bool {
    r.len() >= 2 && (r[1] == '#' || r[1] == 'b')
}

/// The octave written after the note name of a root, if it is a valid `i32`.
pub open spec fn root_octave(root: Seq<char>) -> Option<int> {
    let r = root_text(root);
    if r.len() < 2 {
        None
    } else {
        let name_len: int = if root_has_accidental(r) {
            2
        } else {
            1
        };
        parse_i32(strip(r.skip(name_len), CharClass::Space))
    }
}

/// The semitone of the note name of a root.
pub open spec fn root_semitone(root: Seq<char>) -> Option<int> {
    let r = root_text(root);
    if r.len() < 2 {
        None
    } else {
        note_name_semitone(
            r[0],
            if root_has_accidental(r) {
                Some(r[1])
            } else {
                None
            },
        )
    }
}

/// The MIDI number of a root note such as `C4` (60), `D#3` (51) or `Bb2` (46):
/// twelve per octave above octave -1, plus the semitone of the note name.
pub open spec fn root_midi_value(root: Seq<char>) -> Result<int, MusicError> {
    if root_text(root).len() < 2 {
        Err(MusicError::RootFormat)
    } else {
        match root_octave(root) {
            None => Err(MusicError::RootFormat),
            Some(octave) => match root_semitone(root) {
                None => Err(MusicError::RootNote),
                Some(semitone) => Ok((octave + 1) * 12 + semitone),
            },
        }
    }
}

/// Whether computing the MIDI number of `root` stays within `i32`.
pub open spec fn root_fits(root: Seq<char>) -> bool {
    match (root_octave(root), root_semitone(root)) {
        (Some(octave), Some(semitone)) => {
            &&& octave + 1 <= i32::MAX
            &&& i32::MIN <= (octave + 1) * 12
            &&& (octave + 1) * 12 + semitone <= i32::MAX
        },
        _ => true,
    }
}

fn note_name_semitone_exec(letter: char, accidental: Option<char>) -> (r: Option<i32>)
    ensures
        r matches Some(x) ==> note_name_semitone(letter, accidental) == Some(x as int),
        r is None ==> note_name_semitone(letter, accidental) is None,
{
    let base: i32 = if letter == 'c' || letter == 'C' {
        0
    } else if letter == 'd' || letter == 'D' {
        2
    } else if letter == 'e' || letter == 'E' {
        4
    } else if letter == 'f' || letter == 'F' {
        5
    } else if letter == 'g' || letter == 'G' {
        7
    } else if letter == 'a' || letter == 'A' {
        9
    } else if letter == 'b' || letter == 'B' {
        11
    } else {
        return None;
    };
    match accidental {
        None => Some(base),
        Some(a) => if a == '#' && base != 4 && base != 11 {
            Some(base + 1)
        } else if a == 'b' && base != 0 && base != 5 {
            Some(base - 1)
        } else {
            None
        },
    }
}

/// Whether the MIDI number of `root` can be computed without leaving `i32`;
/// every root of a realistic octave passes.
pub fn root_midi_fits(root: &str) -> (r: bool)
    ensures
        r == root_fits(root@),
{
    let v = chars_of(root);
    let (lo, hi) = strip_bounds(&v, 0, v.len(), CharClass::Space);
    let ghost r = root_text(root@);
    assert(v@.subrange(0, v@.len() as int) =~= root@);
    if hi - lo < 2 {
        return true;
    }
    let second = v[lo + 1];
    let has_accidental = second == '#' || second == 'b';
    let name_len: usize = if has_accidental {
        2
    } else {
        1
    };
    let (olo, ohi) = strip_bounds(&v, lo + name_len, hi, CharClass::Space);
    assert(r.skip(name_len as int) =~= v@.subrange(lo + name_len, hi as int));
    let octave = match parse_i32_range(&v, olo, ohi) {
        None => return true,
        Some(o) => o,
    };
    let semitone = match note_name_semitone_exec(
        v[lo],
        if has_accidental {
            Some(second)
        } else {
            None
        },
    ) {
        None => return true,
        Some(s) => s,
    };
    let o: i64 = octave as i64;
    o + 1 <= i32::MAX as i64 && i32::MIN as i64 <= (o + 1) * 12 && (o + 1) * 12 + semitone as i64
        <= i32::MAX as i64
}

/// The MIDI number of a root note written as a letter, an optional `#` or `b`
/// and an octave number, such as `C4` (60), `D#3` (51) or `Bb2` (46).
pub fn root_midi(root: &str) -> (r: Result<i32, MusicError>)
    requires
        root_fits(root@),
    ensures
        r matches Ok(m) ==> root_midi_value(root@) == Ok::<int, MusicError>(m as int),
        r matches Err(e) ==> root_midi_value(root@) == Err::<int, MusicError>(e),
{
    let v = chars_of(root);
    let (lo, hi) = strip_bounds(&v, 0, v.len(), CharClass::Space);
    let ghost r = root_text(root@);
    assert(v@.subrange(0, v@.len() as int) =~= root@);
    if hi - lo < 2 {
        return Err(MusicError::RootFormat);
    }
    let first = v[lo];
    let second = v[lo + 1];
    let has_accidental = second == '#' || second == 'b';
    let name_len: usize = if has_accidental {
        2
    } else {
        1
    };
    let (olo, ohi) = strip_bounds(&v, lo + name_len, hi, CharClass::Space);
    assert(r.skip(name_len as int) =~= v@.subrange(lo + name_len, hi as int));
    let octave = match parse_i32_range(&v, olo, ohi) {
        None => return Err(MusicError::RootFormat),
        Some(o) => o,
    };
    let semitone = match note_name_semitone_exec(
        first,
        if has_accidental {
            Some(second)
        } else {
            None
        },
    ) {
        None => return Err(MusicError::RootNote),
        Some(s) => s,
    };
    Ok((octave + 1) * 12 + semitone)
}

// ---------------------------------------------------------------------------
// Mapping configuration
// ---------------------------------------------------------------------------

/// How attractors are turned into music: the Strudel criterion, the spatial
/// segmentation that places each point, the scale, its root and the number of
/// octaves the scale spans.
#[derive(Debug, Clone, PartialEq, Eq)]
pub struct MusicMappingConfig {
    pub criterion: String,
    pub segmentation: String,
    pub scale: String,
    pub root: String,
    pub octaves: usize,
}

/// The mathematical content of a [`MusicMappingConfig`].
pub struct MusicConfigView {
    pub criterion: Seq<char>,
    pub segmentation: Seq<char>,
    pub scale: Seq<char>,
    pub root: Seq<char>,
    pub octaves: nat,
}

impl View for MusicMappingConfig {
    type V = MusicConfigView;

    open spec fn view(&self) -> MusicConfigView {
        MusicConfigView {
            criterion: self.criterion@,
            segmentation: self.segmentation@,
            scale: self.scale@,
            root: self.root@,
            octaves: self.octaves as nat,
        }
    }
}

/// The criteria: melody, harmony, rhythm and texture.
pub open spec fn is_criterion(s: Seq<char>) -> bool {
    s == "melody"@ || s == "harmony"@ || s == "rhythm"@ || s == "texture"@
}

/// The segmentations: bands, positions and sectors.
pub open spec fn is_segmentation(s: Seq<char>) -> bool {
    s == "bands"@ || s == "positions"@ || s == "sectors"@
}

/// The semitone steps of each known scale, from its root.
pub open spec fn scale_steps(name: Seq<char>) -> Option<Seq<i32>> {
    if name == "major"@ {
        Some(seq![0i32, 2, 4, 5, 7, 9, 11])
    } else if name == "minor"@ {
        Some(seq![0i32, 2, 3, 5, 7, 8, 10])
    } else if name == "pentatonic"@ {
        Some(seq![0i32, 3, 5, 7, 10])
    } else if name == "chromatic"@ {
        Some(seq![0i32, 1, 2, 3, 4, 5, 6, 7, 8, 9, 10, 11])
    } else {
        None
    }
}

/// Whether `config` is accepted for musical mapping.
pub open spec fn config_is_valid(config: MusicConfigView) -> bool {
    &&& is_criterion(config.criterion)
    &&& is_segmentation(config.segmentation)
    &&& scale_steps(config.scale) is Some
    &&& config.octaves >= 1
    &&& root_midi_value(config.root) is Ok
}

/// Whether validating `config` gets as far as its root: its criterion,
/// segmentation, scale and number of octaves are accepted.
pub open spec fn validation_reaches_root(config: MusicConfigView) -> bool {
    &&& is_criterion(config.criterion)
    &&& is_segmentation(config.segmentation)
    &&& scale_steps(config.scale) is Some
    &&& config.octaves >= 1
}

/// Whether `e` is the error that validation reports for `config`: the first
/// of criterion, segmentation, scale, octaves and root that is refused.
pub open spec fn is_validation_error(config: MusicConfigView, e: MusicError) -> bool {
    if !is_criterion(config.criterion) {
        e matches MusicError::UnknownCriterion(s) && s@ == config.criterion
    } else if !is_segmentation(config.segmentation) {
        e matches MusicError::UnknownSegmentation(s) && s@ == config.segmentation
    } else if scale_steps(config.scale) is None {
        e matches MusicError::UnknownScale(s) && s@ == config.scale
    } else if config.octaves < 1 {
        e == MusicError::TooFewOctaves
    } else {
        root_midi_value(config.root) == Err::<int, MusicError>(e)
    }
}

/// The semitone steps of the scale called `name`, if it is a known scale.
pub fn scale_intervals(name: &str) -> (r: Option<Vec<i32>>)
    ensures
        r matches Some(v) ==> scale_steps(name@) == Some(v@),
        r is None ==> scale_steps(name@) is None,
{
    if same_text(name, "major") {
        let v: Vec<i32> = vec![0, 2, 4, 5, 7, 9, 11];
        assert(v@ =~= seq![0i32, 2, 4, 5, 7, 9, 11]);
        Some(v)
    } else if same_text(name, "minor") {
        let v: Vec<i32> = vec![0, 2, 3, 5, 7, 8, 10];
        assert(v@ =~= seq![0i32, 2, 3, 5, 7, 8, 10]);
        Some(v)
    } else if same_text(name, "pentatonic") {
        let v: Vec<i32> = vec![0, 3, 5, 7, 10];
        assert(v@ =~= seq![0i32, 3, 5, 7, 10]);
        Some(v)
    } else if same_text(name, "chromatic") {
        let v: Vec<i32> = vec![0, 1, 2, 3, 4, 5, 6, 7, 8, 9, 10, 11];
        assert(v@ =~= seq![0i32, 1, 2, 3, 4, 5, 6, 7, 8, 9, 10, 11]);
        Some(v)
    } else {
        None
    }
}

impl Default for MusicMappingConfig {
    /// Melody over bands, in C4 minor spanning two octaves.
    fn default() -> (r: Self)
        ensures
            r@.criterion == "melody"@,
            r@.segmentation == "bands"@,
            r@.scale == "minor"@,
            r@.root == "C4"@,
            r@.octaves == 2,
    {
        MusicMappingConfig {
            criterion: String::from_str("melody"),
            segmentation: String::from_str("bands"),
            scale: String::from_str("minor"),
            root: String::from_str("C4"),
            octaves: 2,
        }
    }
}

impl MusicMappingConfig {
    /// Checks, in this order, the criterion, the segmentation, the scale, the
    /// number of octaves and the root note.
    pub fn validate(&self) -> (r: Result<(), MusicError>)
        requires
            validation_reaches_root(self@) ==> root_fits(self.root@),
        ensures
            r is Ok <==> config_is_valid(self@),
            r matches Err(e) ==> is_validation_error(self@, e),
    {
        if !(same_text(self.criterion.as_str(), "melody") || same_text(
            self.criterion.as_str(),
            "harmony",
        ) || same_text(self.criterion.as_str(), "rhythm") || same_text(
            self.criterion.as_str(),
            "texture",
        )) {
            return Err(MusicError::UnknownCriterion(self.criterion.clone()));
        }
        if !(same_text(self.segmentation.as_str(), "bands") || same_text(
            self.segmentation.as_str(),
            "positions",
        ) || same_text(self.segmentation.as_str(), "sectors")) {
            return Err(MusicError::UnknownSegmentation(self.segmentation.clone()));
        }
        if scale_intervals(self.scale.as_str()).is_none() {
            return Err(MusicError::UnknownScale(self.scale.clone()));
        }
        if self.octaves < 1 {
            return Err(MusicError::TooFewOctaves);
        }
        match root_midi(self.root.as_str()) {
            Ok(_) => Ok(()),
            Err(e) => Err(e),
        }
    }
}

// ---------------------------------------------------------------------------
// Patterns
// ---------------------------------------------------------------------------

/// The notes that one attractor of one case became.
#[derive(Debug, Clone, PartialEq, Eq)]
pub struct MusicalAttractor {
    pub case_label: String,
    /// Position of the attractor among those of its case, from 1.
    pub attractor_index: usize,
    pub period: usize,
    pub notes: Vec<String>,
    pub cells: Vec<Option<usize>>,
}

/// A Strudel pattern with the configuration and attractors it was made from.
#[derive(Debug, Clone, PartialEq, Eq)]
pub struct StrudelPattern {
    pub config: MusicMappingConfig,
    pub attractors: Vec<MusicalAttractor>,
    pub code: String,
}

/// The one-line summary of a pattern: its criterion, segmentation, root and
/// scale, and how many attractors it holds.
pub open spec fn description_text(config: MusicConfigView, attractor_count: nat) -> Seq<char> {
    config.criterion + ", "@ + config.segmentation + ", "@ + config.root + ":"@ + config.scale
        + ", atractores="@ + decimal(attractor_count)
}

impl StrudelPattern {
    /// A one-line summary such as `melody, bands, C4:minor, atractores=3`.
    pub fn description(&self) -> (r: String)
        ensures
            r@ == description_text(self.config@, self.attractors@.len()),
    {
        let mut r = self.config.criterion.clone();
        r.append(", ");
        r.append(self.config.segmentation.as_str());
        r.append(", ");
        r.append(self.config.root.as_str());
        r.append(":");
        r.append(self.config.scale.as_str());
        r.append(", atractores=");
        push_decimal(&mut r, self.attractors.len());
        r
    }
}

// ---------------------------------------------------------------------------
// Notes
// ---------------------------------------------------------------------------

/// The name of a pitch class, with sharps: c, c#, d, d#, e, f, f#, g, g#, a,
/// a#, b.
pub open spec fn pitch_class_text(pc: int) -> Seq<char> {
    if pc == 0 {
        "c"@
    } else if pc == 1 {
        "c#"@
    } else if pc == 2 {
        "d"@
    } else if pc == 3 {
        "d#"@
    } else if pc == 4 {
        "e"@
    } else if pc == 5 {
        "f"@
    } else if pc == 6 {
        "f#"@
    } else if pc == 7 {
        "g"@
    } else if pc == 8 {
        "g#"@
    } else if pc == 9 {
        "a"@
    } else if pc == 10 {
        "a#"@
    } else {
        "b"@
    }
}

/// The octave written after a MIDI note's pitch class: `midi / 12 - 1`, with
/// the division rounding toward zero as `i32` division does.
pub open spec fn octave_number(midi: int) -> int {
    if midi >= 0 {
        midi / 12 - 1
    } else {
        -((-midi) / 12) - 1
    }
}

/// The name of a MIDI note, such as `c4` for 60 or `a#3` for 58.
pub open spec fn note_text(midi: int) -> Seq<char> {
    pitch_class_text(midi % 12) + signed_decimal(octave_number(midi))
}

/// How many scale degrees a configuration spans.
pub open spec fn total_degrees(config: MusicConfigView) -> int {
    match scale_steps(config.scale) {
        Some(steps) => (steps.len() * config.octaves) as int,
        None => 0,
    }
}

/// The MIDI note of scale degree `degree`, counting from the root upward.
pub open spec fn degree_midi(steps: Seq<i32>, root: int, degree: int) -> int {
    root + steps[degree % steps.len() as int] + 12 * (degree / steps.len() as int)
}

/// Degree `scaled` limited to the last degree of the configuration.
pub open spec fn clamp_degree(config: MusicConfigView, scaled: int) -> int {
    if scaled < total_degrees(config) - 1 {
        scaled
    } else {
        total_degrees(config) - 1
    }
}

/// Whether the note of a point placed on scale degree `scaled` can be
/// computed in a valid configuration without overflow: the number of degrees
/// fits in `usize`, and twelve times the octave offset of the limited degree,
/// and the note itself, stay below `i32::MAX`.
pub open spec fn degree_fits(config: MusicConfigView, scaled: int) -> bool {
    let steps = scale_steps(config.scale)->0;
    let degree = clamp_degree(config, scaled);
    let offset = degree / steps.len() as int;
    &&& total_degrees(config) <= usize::MAX
    &&& 12 * offset <= i32::MAX
    &&& root_midi_value(config.root)->Ok_0 + steps[degree % steps.len() as int] + 12 * offset
        <= i32::MAX
}

/// Whether every placed point among `points` has a note that fits.
pub open spec fn points_fit(config: MusicConfigView, points: Seq<PointPlacement>) -> bool {
    forall|j: int|
        0 <= j < points.len() ==> match #[trigger] points[j].scaled_degree {
            Some(d) => degree_fits(config, d as int),
            None => true,
        }
}

/// Whether every placed point of every attractor among `attractors` has a
/// note that fits.
pub open spec fn attractors_fit(config: MusicConfigView, attractors: Seq<AttractorPlacement>) -> bool {
    forall|k: int| 0 <= k < attractors.len() ==> points_fit(config, #[trigger] attractors[k].points@)
}

/// Whether every placed point of every case has a note that fits.
pub open spec fn placements_fit(config: MusicConfigView, cases: Seq<CasePlacementView>) -> bool {
    forall|i: int| 0 <= i < cases.len() ==> attractors_fit(config, #[trigger] cases[i].attractors)
}

/// The note that a point placed on scale degree `scaled` (before limiting it
/// to the last degree) sounds in a valid configuration.
pub open spec fn placed_note(config: MusicConfigView, scaled: int) -> Seq<char> {
    note_text(
        degree_midi(
            scale_steps(config.scale)->0,
            root_midi_value(config.root)->Ok_0,
            clamp_degree(config, scaled),
        ),
    )
}

fn pitch_class_str(pc: i32) -> (s: &'static str)
    requires
        0 <= pc < 12,
    ensures
        s@ == pitch_class_text(pc as int),
{
    if pc == 0 {
        "c"
    } else if pc == 1 {
        "c#"
    } else if pc == 2 {
        "d"
    } else if pc == 3 {
        "d#"
    } else if pc == 4 {
        "e"
    } else if pc == 5 {
        "f"
    } else if pc == 6 {
        "f#"
    } else if pc == 7 {
        "g"
    } else if pc == 8 {
        "g#"
    } else if pc == 9 {
        "a"
    } else if pc == 10 {
        "a#"
    } else {
        "b"
    }
}

/// The name of MIDI note `midi`, such as `c4` for 60.
pub fn note_name(midi: i32) -> (s: String)
    ensures
        s@ == note_text(midi as int),
{
    let m: i64 = midi as i64;
    let pc: i64 = if m >= 0 {
        m % 12
    } else {
        let r: i64 = (-m) % 12;
        if r == 0 {
            0
        } else {
            12 - r
        }
    };
    assert(pc == (midi as int) % 12) by (nonlinear_arith)
        requires
            m == midi as int,
            m >= 0 ==> pc == m % 12,
            m < 0 ==> pc == (if (-m) % 12 == 0 {
                0
            } else {
                12 - (-m) % 12
            }),
    ;
    let octave: i64 = if m >= 0 {
        m / 12 - 1
    } else {
        -((-m) / 12) - 1
    };
    let mut s = String::new();
    s.append(pitch_class_str(pc as i32));
    push_signed_decimal(&mut s, octave as i32);
    s
}

// ---------------------------------------------------------------------------
// Placing points and building patterns
// ---------------------------------------------------------------------------

/// Where one point of an attractor lies for the musical mapping: the scale
/// degree its normalized position reaches (the position times the number of
/// degrees, rounded down), if the point has a position, and its grid cell.
#[derive(Debug, Clone, Copy, PartialEq, Eq, Structural)]
pub struct PointPlacement {
    pub scaled_degree: Option<usize>,
    pub cell: Option<usize>,
}

/// The placed points of one attractor, with the attractor's period.
#[derive(Debug, Clone, PartialEq, Eq)]
pub struct AttractorPlacement {
    pub period: usize,
    pub points: Vec<PointPlacement>,
}

/// The placed attractors of one labelled case.
#[derive(Debug, Clone, PartialEq, Eq)]
pub struct CasePlacement {
    pub label: String,
    pub attractors: Vec<AttractorPlacement>,
}

pub struct CasePlacementView {
    pub label: Seq<char>,
    pub attractors: Seq<AttractorPlacement>,
}

impl View for CasePlacement {
    type V = CasePlacementView;

    open spec fn view(&self) -> CasePlacementView {
        CasePlacementView { label: self.label@, attractors: self.attractors@ }
    }
}

pub struct MusicalAttractorView {
    pub case_label: Seq<char>,
    pub attractor_index: usize,
    pub period: usize,
    pub notes: Seq<Seq<char>>,
    pub cells: Seq<Option<usize>>,
}

impl View for MusicalAttractor {
    type V = MusicalAttractorView;

    open spec fn view(&self) -> MusicalAttractorView {
        MusicalAttractorView {
            case_label: self.case_label@,
            attractor_index: self.attractor_index,
            period: self.period,
            notes: texts(self.notes@),
            cells: self.cells@,
        }
    }
}

pub open spec fn attractor_views(v: Seq<MusicalAttractor>) -> Seq<MusicalAttractorView> {
    v.map_values(|a: MusicalAttractor| a@)
}

pub open spec fn case_views(v: Seq<CasePlacement>) -> Seq<CasePlacementView> {
    v.map_values(|c: CasePlacement| c@)
}

/// The notes of the placed points among `points`, in order.
pub open spec fn placed_notes(config: MusicConfigView, points: Seq<PointPlacement>) -> Seq<
    Seq<char>,
>
    decreases points.len(),
{
    if points.len() == 0 {
        seq![]
    } else {
        placed_notes(config, points.drop_last()) + match points.last().scaled_degree {
            Some(d) => seq![placed_note(config, d as int)],
            None => seq![],
        }
    }
}

/// The cells of the placed points among `points`, in order.
pub open spec fn placed_cells(points: Seq<PointPlacement>) -> Seq<Option<usize>>
    decreases points.len(),
{
    if points.len() == 0 {
        seq![]
    } else {
        placed_cells(points.drop_last()) + match points.last().scaled_degree {
            Some(_) => seq![points.last().cell],
            None => seq![],
        }
    }
}

/// The musical attractors of one case: one for each of its attractors with at
/// least one placed point, numbered from 1 by their position in the case.
pub open spec fn case_attractors(
    config: MusicConfigView,
    label: Seq<char>,
    attractors: Seq<AttractorPlacement>,
) -> Seq<MusicalAttractorView>
    decreases attractors.len(),
{
    if attractors.len() == 0 {
        seq![]
    } else {
        let a = attractors.last();
        let notes = placed_notes(config, a.points@);
        case_attractors(config, label, attractors.drop_last()) + if notes.len() > 0 {
            seq![
                MusicalAttractorView {
                    case_label: label,
                    attractor_index: attractors.len() as usize,
                    period: a.period,
                    notes: notes,
                    cells: placed_cells(a.points@),
                },
            ]
        } else {
            seq![]
        }
    }
}

/// The musical attractors of all cases, case after case.
pub open spec fn all_attractors(config: MusicConfigView, cases: Seq<CasePlacementView>) -> Seq<
    MusicalAttractorView,
>
    decreases cases.len(),
{
    if cases.len() == 0 {
        seq![]
    } else {
        all_attractors(config, cases.drop_last()) + case_attractors(
            config,
            cases.last().label,
            cases.last().attractors,
        )
    }
}

impl MusicMappingConfig {
    /// Whether validating this configuration gets as far as its root.
    pub fn reaches_root(&self) -> (r: bool)
        ensures
            r == validation_reaches_root(self@),
    {
        (same_text(self.criterion.as_str(), "melody") || same_text(self.criterion.as_str(), "harmony")
            || same_text(self.criterion.as_str(), "rhythm") || same_text(
            self.criterion.as_str(),
            "texture",
        )) && (same_text(self.segmentation.as_str(), "bands") || same_text(
            self.segmentation.as_str(),
            "positions",
        ) || same_text(self.segmentation.as_str(), "sectors")) && scale_intervals(
            self.scale.as_str(),
        ).is_some() && self.octaves >= 1
    }

    /// How many scale degrees this configuration spans (0 for an unknown
    /// scale), or `None` when that number does not fit in `usize`.
    pub fn total_degrees(&self) -> (r: Option<usize>)
        ensures
            r matches Some(n) ==> n == total_degrees(self@),
            r is None <==> total_degrees(self@) > usize::MAX,
    {
        match scale_intervals(self.scale.as_str()) {
            Some(v) => v.len().checked_mul(self.octaves),
            None => Some(0),
        }
    }

    /// Whether the note of a point placed on scale degree `scaled` can be
    /// computed under this valid configuration without overflow.
    pub fn degree_fits(&self, scaled: usize) -> (r: bool)
        requires
            config_is_valid(self@),
            root_fits(self.root@),
        ensures
            r == degree_fits(self@, scaled as int),
    {
        let steps = match scale_intervals(self.scale.as_str()) {
            Some(v) => v,
            None => return false,
        };
        let root = match root_midi(self.root.as_str()) {
            Ok(m) => m,
            Err(_) => return false,
        };
        let dpo: usize = steps.len();
        assert(dpo <= 12 && dpo > 0);
        let total: usize = match dpo.checked_mul(self.octaves) {
            Some(t) => t,
            None => return false,
        };
        assert(total >= 1) by (nonlinear_arith)
            requires
                total == dpo * self.octaves,
                dpo >= 1,
                self.octaves >= 1,
        ;
        let degree: usize = if scaled < total - 1 {
            scaled
        } else {
            total - 1
        };
        let offset: usize = degree / dpo;
        if offset > 0x7fff_ffff / 12 {
            return false;
        }
        let highest: i64 = root as i64 + steps[degree % dpo] as i64 + 12 * (offset as i64);
        highest <= 0x7fff_ffff
    }
}

/// The note of a point placed on scale degree `scaled`.
fn note_for_degree(config: &MusicMappingConfig, steps: &Vec<i32>, root: i32, scaled: usize) -> (s:
    String)
    requires
        config_is_valid(config@),
        degree_fits(config@, scaled as int),
        scale_steps(config@.scale) == Some(steps@),
        root_midi_value(config@.root) == Ok::<int, MusicError>(root as int),
    ensures
        s@ == placed_note(config@, scaled as int),
{
    let dpo: usize = steps.len();
    assert(dpo <= 12 && dpo > 0);
    assert(dpo * config.octaves >= 1) by (nonlinear_arith)
        requires
            dpo >= 1,
            config.octaves >= 1,
    ;
    let total: usize = dpo * config.octaves;
    let degree: usize = if scaled < total - 1 {
        scaled
    } else {
        total - 1
    };
    let octave_offset: usize = degree / dpo;
    let scale_degree: usize = degree % dpo;
    let midi: i32 = root + steps[scale_degree] + 12 * (octave_offset as i32);
    note_name(midi)
}

// ---------------------------------------------------------------------------
// Strudel code
// ---------------------------------------------------------------------------

/// All notes of all attractors, separated by spaces.
pub open spec fn melody_text(attractors: Seq<MusicalAttractorView>) -> Seq<char> {
    join(attractors.map_values(|a: MusicalAttractorView| join(a.notes, " "@)), " "@)
}

/// One bracketed chord per attractor, separated by spaces.
pub open spec fn chords_text(attractors: Seq<MusicalAttractorView>) -> Seq<char> {
    join(
        attractors.map_values(|a: MusicalAttractorView| "["@ + join(a.notes, ","@) + "]"@),
        " "@,
    )
}

/// `n` rhythm steps alternating a hit `x` and a rest `~`, starting with a hit.
pub open spec fn rhythm_text(n: nat) -> Seq<char> {
    join(
        Seq::new(
            n,
            |i: int|
                if i % 2 == 0 {
                    "x"@
                } else {
                    "~"@
                },
        ),
        " "@,
    )
}

/// A rhythm strictly alternates hits and rests, one step per note: the
/// rhythm of `n` steps is written with `2 * n - 1` characters, the steps
/// (at even positions) separated by single spaces (at odd positions), and
/// step `i` is a hit `x` when `i` is even and a rest `~` when it is odd; so it
/// starts with a hit and consecutive steps always differ.
pub proof fn law_rhythm_alternates_hits_and_rests(n: nat)
    ensures
        rhythm_text(n).len() == if n == 0 {
            0
        } else {
            2 * n - 1
        },
        forall|j: int|
            0 <= j < rhythm_text(n).len() ==> #[trigger] rhythm_text(n)[j] == if j % 2 == 1 {
                ' '
            } else if (j / 2) % 2 == 0 {
                'x'
            } else {
                '~'
            },
    decreases n,
{
    reveal_strlit("x");
    reveal_strlit("~");
    reveal_strlit(" ");
    let parts = Seq::new(
        n,
        |i: int|
            if i % 2 == 0 {
                "x"@
            } else {
                "~"@
            },
    );
    if n == 1 {
        assert(rhythm_text(n) == parts[0]);
    } else if n >= 2 {
        let m = (n - 1) as nat;
        law_rhythm_alternates_hits_and_rests(m);
        let prev_parts = Seq::new(
            m,
            |i: int|
                if i % 2 == 0 {
                    "x"@
                } else {
                    "~"@
                },
        );
        assert(parts.drop_last() =~= prev_parts);
        let prev = rhythm_text(m);
        let last = parts.last();
        assert(last.len() == 1);
        let whole = rhythm_text(n);
        assert(whole == prev + " "@ + last);
        assert forall|j: int| 0 <= j < whole.len() implies #[trigger] whole[j] == if j % 2 == 1 {
            ' '
        } else if (j / 2) % 2 == 0 {
            'x'
        } else {
            '~'
        } by {
            if j < prev.len() {
                assert(whole[j] == prev[j]);
            } else if j == prev.len() {
                assert(whole[j] == ' ');
            } else {
                assert(j == 2 * n - 2);
                assert(j / 2 == n - 1);
                assert(whole[j] == last[0]);
            }
        }
    }
}

/// The Strudel code for `attractors` under `criterion`: `silence` when there
/// is none; otherwise a piano melody, electric-piano chords, a bass line over a
/// bass-drum rhythm, or (for texture) a piano melody stacked on a slower
/// sawtooth copy.
pub open spec fn code_text(attractors: Seq<MusicalAttractorView>, criterion: Seq<char>) -> Seq<
    char,
> {
    if attractors.len() == 0 {
        "silence"@
    } else {
        let melody = melody_text(attractors);
        if criterion == "melody"@ {
            "note(\""@ + melody + "\").sound(\"piano\").slow(2)"@
        } else if criterion == "harmony"@ {
            "note(\""@ + chords_text(attractors) + "\").sound(\"gm_epiano1\").slow(2)"@
        } else if criterion == "rhythm"@ {
            "stack(note(\""@ + melody + "\").sound(\"gm_acoustic_bass\"), s(\"bd\").struct(\""@
                + rhythm_text(word_count(melody)) + "\"))"@
        } else {
            "stack(note(\""@ + melody + "\").sound(\"piano\"), note(\""@ + melody
                + "\").sound(\"sawtooth\").slow(2).gain(0.35))"@
        }
    }
}

fn melody_string(attractors: &Vec<MusicalAttractor>) -> (r: String)
    ensures
        r@ == melody_text(attractor_views(attractors@)),
{
    let ghost views = attractor_views(attractors@);
    let ghost f = |a: MusicalAttractorView| join(a.notes, " "@);
    let mut groups: Vec<String> = Vec::new();
    let mut i: usize = 0;
    while i < attractors.len()
        invariant
            i <= attractors@.len(),
            views == attractor_views(attractors@),
            f == (|a: MusicalAttractorView| join(a.notes, " "@)),
            groups@.len() == i,
            texts(groups@) == views.take(i as int).map_values(f),
        decreases attractors.len() - i,
    {
        let g = join_texts(&attractors[i].notes, " ");
        assert(views[i as int] == attractors@[i as int]@);
        assert(g@ == f(views[i as int]));
        let ghost before = groups@;
        groups.push(g);
        assert forall|k: int| 0 <= k < i + 1 implies #[trigger] texts(groups@)[k] == views.take(
            i as int + 1,
        ).map_values(f)[k] by {
            if k < i {
                assert(groups@[k] == before[k]);
                assert(texts(before)[k] == views.take(i as int).map_values(f)[k]);
            }
        }
        assert(texts(groups@) =~= views.take(i as int + 1).map_values(f));
        i = i + 1;
    }
    assert(views.take(attractors@.len() as int) =~= views);
    join_texts(&groups, " ")
}

fn chords_string(attractors: &Vec<MusicalAttractor>) -> (r: String)
    ensures
        r@ == chords_text(attractor_views(attractors@)),
{
    let ghost views = attractor_views(attractors@);
    let ghost f = |a: MusicalAttractorView| "["@ + join(a.notes, ","@) + "]"@;
    let mut groups: Vec<String> = Vec::new();
    let mut i: usize = 0;
    while i < attractors.len()
        invariant
            i <= attractors@.len(),
            views == attractor_views(attractors@),
            f == (|a: MusicalAttractorView| "["@ + join(a.notes, ","@) + "]"@),
            groups@.len() == i,
            texts(groups@) == views.take(i as int).map_values(f),
        decreases attractors.len() - i,
    {
        let mut g = String::from_str("[");
        let inner = join_texts(&attractors[i].notes, ",");
        g.append(inner.as_str());
        g.append("]");
        assert(views[i as int] == attractors@[i as int]@);
        assert(g@ =~= f(views[i as int]));
        let ghost before = groups@;
        groups.push(g);
        assert forall|k: int| 0 <= k < i + 1 implies #[trigger] texts(groups@)[k] == views.take(
            i as int + 1,
        ).map_values(f)[k] by {
            if k < i {
                assert(groups@[k] == before[k]);
                assert(texts(before)[k] == views.take(i as int).map_values(f)[k]);
            }
        }
        assert(texts(groups@) =~= views.take(i as int + 1).map_values(f));
        i = i + 1;
    }
    assert(views.take(attractors@.len() as int) =~= views);
    join_texts(&groups, " ")
}

fn rhythm_string(n: usize) -> (r: String)
    ensures
        r@ == rhythm_text(n as nat),
{
    let ghost f = |i: int|
        if i % 2 == 0 {
            "x"@
        } else {
            "~"@
        };
    let mut r = String::new();
    let mut k: usize = 0;
    while k < n
        invariant
            k <= n,
            f == (|i: int|
                if i % 2 == 0 {
                    "x"@
                } else {
                    "~"@
                }),
            r@ == join(Seq::new(k as nat, f), " "@),
        decreases n - k,
    {
        assert(Seq::new((k + 1) as nat, f).drop_last() =~= Seq::new(k as nat, f));
        if k > 0 {
            r.append(" ");
        }
        if k % 2 == 0 {
            r.append("x");
        } else {
            r.append("~");
        }
        proof {
            if k == 0 {
                assert(r@ =~= join(Seq::new(1, f), " "@));
            }
        }
        k = k + 1;
    }
    r
}

/// The Strudel code that plays `attractors` under the criterion of `config`.
pub fn strudel_code(attractors: &Vec<MusicalAttractor>, config: &MusicMappingConfig) -> (r: String)
    ensures
        r@ == code_text(attractor_views(attractors@), config@.criterion),
{
    if attractors.len() == 0 {
        return String::from_str("silence");
    }
    let melody = melody_string(attractors);
    let mut r = String::new();
    if same_text(config.criterion.as_str(), "melody") {
        r.append("note(\"");
        r.append(melody.as_str());
        r.append("\").sound(\"piano\").slow(2)");
    } else if same_text(config.criterion.as_str(), "harmony") {
        let chords = chords_string(attractors);
        r.append("note(\"");
        r.append(chords.as_str());
        r.append("\").sound(\"gm_epiano1\").slow(2)");
    } else if same_text(config.criterion.as_str(), "rhythm") {
        let total = count_words(melody.as_str());
        let rhythm = rhythm_string(total);
        r.append("stack(note(\"");
        r.append(melody.as_str());
        r.append("\").sound(\"gm_acoustic_bass\"), s(\"bd\").struct(\"");
        r.append(rhythm.as_str());
        r.append("\"))");
    } else {
        r.append("stack(note(\"");
        r.append(melody.as_str());
        r.append("\").sound(\"piano\"), note(\"");
        r.append(melody.as_str());
        r.append("\").sound(\"sawtooth\").slow(2).gain(0.35))");
    }
    r
}

// ---------------------------------------------------------------------------
// Generating patterns
// ---------------------------------------------------------------------------

/// The configuration used when none is given: melody over bands, in C4 minor
/// spanning two octaves.
pub open spec fn default_config_view() -> MusicConfigView {
    MusicConfigView {
        criterion: "melody"@,
        segmentation: "bands"@,
        scale: "minor"@,
        root: "C4"@,
        octaves: 2,
    }
}

/// The configuration a pattern is made with: the given one, or the default.
pub open spec fn effective_config(config: Option<MusicMappingConfig>) -> MusicConfigView {
    match config {
        Some(c) => c@,
        None => default_config_view(),
    }
}

/// The default mapping configuration is accepted, its root C4 is MIDI note
/// 60, and the note of every scale degree stays within `i32`.
pub proof fn law_default_config_is_valid()
    ensures
        config_is_valid(default_config_view()),
        root_fits(default_config_view().root),
        root_midi_value("C4"@) == Ok::<int, MusicError>(60),
        forall|scaled: int| #[trigger] degree_fits(default_config_view(), scaled),
{
    reveal_strlit("C4");
    reveal_strlit("major");
    reveal_strlit("minor");
    let r = "C4"@;
    assert(strip_start(r, CharClass::Space) == r);
    assert(strip_end(r, CharClass::Space) == r);
    assert(root_text(r) == r);
    assert(!root_has_accidental(r));
    let o = r.skip(1);
    assert(o =~= seq!['4']);
    assert(strip_start(o, CharClass::Space) == o);
    assert(strip_end(o, CharClass::Space) == o);
    assert(all_digits(o));
    assert(o.drop_last() =~= Seq::<char>::empty());
    assert(digits_value(o.drop_last()) == 0);
    assert(o.last() == '4');
    assert(digits_value(o) == 4);
    assert(parse_i32(o) == Some(4int));
    assert(root_octave(r) == Some(4int));
    assert(root_semitone(r) == Some(0int));
    assert("minor"@[1] != "major"@[1]);
    assert("minor"@ != "major"@);
    let steps = seq![0i32, 2, 3, 5, 7, 8, 10];
    assert(scale_steps("minor"@) == Some(steps));
    let cfg = default_config_view();
    assert(scale_steps(cfg.scale)->0 == steps);
    assert(steps.len() == 7);
    assert(total_degrees(cfg) == 14);
    assert forall|scaled: int| #[trigger] degree_fits(cfg, scaled) by {
        let degree = clamp_degree(cfg, scaled);
        assert(degree <= 13);
        assert(degree / 7 <= 1);
        let k = degree % 7;
        assert(0 <= k < 7);
        assert(steps[k] <= 10);
    }
}

/// The musical pattern of `cases` under `config` (or the default
/// configuration): the configuration is validated first; then every placed
/// point of every attractor becomes a note, attractors without placed points
/// are left out, and the Strudel code is made from the rest.
pub fn generate_strudel_pattern(cases: &Vec<CasePlacement>, config: Option<MusicMappingConfig>) -> (r:
    Result<StrudelPattern, MusicError>)
    requires
        config matches Some(c) ==> (validation_reaches_root(c@) ==> root_fits(c@.root)) && (
        config_is_valid(c@) ==> placements_fit(c@, case_views(cases@))),
    ensures
        r is Ok <==> config_is_valid(effective_config(config)),
        r matches Err(e) ==> is_validation_error(effective_config(config), e),
        r matches Ok(p) ==> {
            &&& p.config@ == effective_config(config)
            &&& attractor_views(p.attractors@) == all_attractors(
                effective_config(config),
                case_views(cases@),
            )
            &&& p.code@ == code_text(
                attractor_views(p.attractors@),
                effective_config(config).criterion,
            )
        },
{
    proof {
        law_default_config_is_valid();
    }
    let ghost given = config;
    let config = match config {
        Some(c) => c,
        None => MusicMappingConfig::default(),
    };
    let ghost cfg = config@;
    match config.validate() {
        Ok(()) => {},
        Err(e) => return Err(e),
    }
    assert(placements_fit(cfg, case_views(cases@))) by {
        if given is None {
            let cs = case_views(cases@);
            assert forall|i: int| 0 <= i < cs.len() implies attractors_fit(
                cfg,
                #[trigger] cs[i].attractors,
            ) by {
                let atts = cs[i].attractors;
                assert forall|k: int| 0 <= k < atts.len() implies points_fit(
                    cfg,
                    #[trigger] atts[k].points@,
                ) by {
                    let pts = atts[k].points@;
                    assert forall|j: int| 0 <= j < pts.len() implies match #[trigger] pts[j].scaled_degree {
                        Some(d) => degree_fits(cfg, d as int),
                        None => true,
                    } by {
                        if let Some(d) = pts[j].scaled_degree {
                            assert(degree_fits(default_config_view(), d as int));
                        }
                    }
                }
            }
        }
    }
    let steps = match scale_intervals(config.scale.as_str()) {
        Some(v) => v,
        None => return Err(MusicError::UnknownScale(config.scale.clone())),
    };
    let root = match root_midi(config.root.as_str()) {
        Ok(m) => m,
        Err(e) => return Err(e),
    };
    let ghost views = case_views(cases@);
    let mut attractors: Vec<MusicalAttractor> = Vec::new();
    let mut i: usize = 0;
    while i < cases.len()
        invariant
            i <= cases@.len(),
            cfg == config@,
            views == case_views(cases@),
            config_is_valid(cfg),
            placements_fit(cfg, views),
            scale_steps(cfg.scale) == Some(steps@),
            root_midi_value(cfg.root) == Ok::<int, MusicError>(root as int),
            attractor_views(attractors@) == all_attractors(cfg, views.take(i as int)),
        decreases cases.len() - i,
    {
        let case = &cases[i];
        assert(views[i as int] == case@);
        assert(attractors_fit(cfg, views[i as int].attractors));
        let ghost before = attractors@;
        let mut k: usize = 0;
        while k < case.attractors.len()
            invariant
                i < cases@.len(),
                case == cases@[i as int],
                k <= case.attractors@.len(),
                cfg == config@,
                config_is_valid(cfg),
                attractors_fit(cfg, case.attractors@),
                scale_steps(cfg.scale) == Some(steps@),
                root_midi_value(cfg.root) == Ok::<int, MusicError>(root as int),
                attractor_views(attractors@) == attractor_views(before) + case_attractors(
                    cfg,
                    case.label@,
                    case.attractors@.take(k as int),
                ),
            decreases case.attractors.len() - k,
        {
            let a = &case.attractors[k];
            assert(points_fit(cfg, case.attractors@[k as int].points@));
            let mut notes: Vec<String> = Vec::new();
            let mut cells: Vec<Option<usize>> = Vec::new();
            let mut j: usize = 0;
            while j < a.points.len()
                invariant
                    a == case.attractors@[k as int],
                    j <= a.points@.len(),
                    cfg == config@,
                    config_is_valid(cfg),
                    points_fit(cfg, a.points@),
                    scale_steps(cfg.scale) == Some(steps@),
                    root_midi_value(cfg.root) == Ok::<int, MusicError>(root as int),
                    texts(notes@) == placed_notes(cfg, a.points@.take(j as int)),
                    cells@ == placed_cells(a.points@.take(j as int)),
                decreases a.points.len() - j,
            {
                let p = a.points[j];
                assert(a.points@.take(j as int + 1).drop_last() =~= a.points@.take(j as int));
                assert(a.points@.take(j as int + 1).last() == p);
                match p.scaled_degree {
                    Some(d) => {
                        let note = note_for_degree(&config, &steps, root, d);
                        let ghost old_notes = notes@;
                        notes.push(note);
                        assert(texts(notes@) =~= texts(old_notes) + seq![note@]);
                        cells.push(p.cell);
                    },
                    None => {},
                }
                j = j + 1;
            }
            assert(a.points@.take(a.points@.len() as int) =~= a.points@);
            assert(case.attractors@.take(k as int + 1).drop_last() =~= case.attractors@.take(
                k as int,
            ));
            assert(case.attractors@.take(k as int + 1).last() == *a);
            if notes.len() > 0 {
                let m = MusicalAttractor {
                    case_label: case.label.clone(),
                    attractor_index: k + 1,
                    period: a.period,
                    notes: notes,
                    cells: cells,
                };
                let ghost old_atts = attractors@;
                attractors.push(m);
                assert(attractor_views(attractors@) =~= attractor_views(old_atts) + seq![m@]);
            }
            k = k + 1;
        }
        assert(case.attractors@.take(case.attractors@.len() as int) =~= case.attractors@);
        assert(views.take(i as int + 1).drop_last() =~= views.take(i as int));
        assert(views.take(i as int + 1).last() == case@);
        i = i + 1;
    }
    assert(views.take(cases@.len() as int) =~= views);
    let code = strudel_code(&attractors, &config);
    Ok(StrudelPattern { config, attractors, code })
}

// ---------------------------------------------------------------------------
// Where a point lies for the musical mapping
// ---------------------------------------------------------------------------

/// The axis whose bands place points: the first of y, r, x and theta that the
/// grid has, or its first axis.
pub open spec fn band_axis_of(axes: Seq<Seq<char>>) -> Seq<char> {
    if axes.contains("y"@) {
        "y"@
    } else if axes.contains("r"@) {
        "r"@
    } else if axes.contains("x"@) {
        "x"@
    } else if axes.contains("theta"@) {
        "theta"@
    } else {
        axes[0]
    }
}

/// The position of the first axis called `name`, if any.
pub open spec fn axis_index(axes: Seq<Seq<char>>, name: Seq<char>) -> Option<int> {
    axes.index_of_first(name)
}

/// The position of the axis called `name` among `axes`.
pub fn find_axis(axes: &Vec<String>, name: &str) -> (r: Option<usize>)
    ensures
        r matches Some(i) ==> axis_index(texts(axes@), name@) == Some(i as int),
        r is None ==> axis_index(texts(axes@), name@) is None,
{
    let ghost names = texts(axes@);
    let mut i: usize = 0;
    while i < axes.len()
        invariant
            i <= axes@.len(),
            names == texts(axes@),
            forall|k: int| 0 <= k < i ==> names[k] != name@,
        decreases axes.len() - i,
    {
        assert(names[i as int] == axes@[i as int]@);
        if same_text(axes[i].as_str(), name) {
            proof {
                assert(names.contains(name@));
                names.index_of_first_ensures(name@);
            }
            return Some(i);
        }
        i = i + 1;
    }
    proof {
        names.index_of_first_ensures(name@);
    }
    None
}

/// The axis whose bands place points in a grid with the given axes.
pub fn band_axis(axes: &Vec<String>) -> (r: String)
    requires
        axes@.len() >= 1,
    ensures
        r@ == band_axis_of(texts(axes@)),
{
    proof {
        let names = texts(axes@);
        names.index_of_first_ensures("y"@);
        names.index_of_first_ensures("r"@);
        names.index_of_first_ensures("x"@);
        names.index_of_first_ensures("theta"@);
    }
    if find_axis(axes, "y").is_some() {
        String::from_str("y")
    } else if find_axis(axes, "r").is_some() {
        String::from_str("r")
    } else if find_axis(axes, "x").is_some() {
        String::from_str("x")
    } else if find_axis(axes, "theta").is_some() {
        String::from_str("theta")
    } else {
        assert(texts(axes@)[0] == axes@[0]@);
        axes[0].clone()
    }
}

/// What places a point on the unit interval for the musical mapping.
#[derive(Debug, Clone, Copy, PartialEq, Eq, Structural)]
pub enum PositionBasis {
    /// The point has no position and makes no note.
    Unplaced,
    /// The middle of cell `index` of `steps` equal cells: `(index + 0.5) / steps`.
    Fraction { index: usize, steps: usize },
    /// The argument of the point's value, as a fraction of a full turn.
    Angle,
}

/// What places a point: under sectors, its theta index when it has one (on
/// the theta axis of the grid; without such an axis it is unplaced) and
/// otherwise its angle; under positions, its cell among all cells of the
/// grid; under bands, its index along the band axis, when it has one.
/// Outside the grid a point is unplaced except under sectors.
pub open spec fn position_basis_of(
    segmentation: Seq<char>,
    axes: Seq<Seq<char>>,
    steps: Seq<usize>,
    indices: Option<Seq<(Seq<char>, usize)>>,
    cell: Option<usize>,
) -> PositionBasis {
    if segmentation == "sectors"@ {
        match indices {
            Some(ix) => match value_of(ix, "theta"@) {
                Some(t) => match axis_index(axes, "theta"@) {
                    Some(a) => PositionBasis::Fraction { index: t, steps: steps[a] },
                    None => PositionBasis::Unplaced,
                },
                None => PositionBasis::Angle,
            },
            None => PositionBasis::Angle,
        }
    } else {
        match indices {
            None => PositionBasis::Unplaced,
            Some(ix) => if segmentation == "positions"@ {
                match cell {
                    None => PositionBasis::Unplaced,
                    Some(c) => PositionBasis::Fraction { index: c, steps: product(steps) as usize },
                }
            } else {
                match value_of(ix, band_axis_of(axes)) {
                    None => PositionBasis::Unplaced,
                    Some(i) => PositionBasis::Fraction {
                        index: i,
                        steps: steps[axis_index(axes, band_axis_of(axes))->0],
                    },
                }
            },
        }
    }
}

/// What places a point of `grid` with the given cell indices (by axis, when
/// the point lies in the grid) and cell number.
pub fn position_basis(
    segmentation: &str,
    grid: &GridLayout,
    indices: Option<&IndexMap<String, usize>>,
    cell: Option<usize>,
) -> (r: PositionBasis)
    requires
        segmentation@ == "positions"@ && indices is Some ==> prefix_products_fit(grid@.steps),
    ensures
        r == position_basis_of(
            segmentation@,
            grid@.axes,
            grid@.steps,
            match indices {
                Some(m) => Some(axis_entries(*m)),
                None => None,
            },
            cell,
        ),
{
    let axes = grid.axes();
    let steps = grid.steps();
    proof {
        texts(axes@).index_of_first_ensures("theta"@);
    }
    if same_text(segmentation, "sectors") {
        match indices {
            None => {
                return PositionBasis::Angle;
            },
            Some(m) => {
                let entries = entries_of(m);
                match find_value(&entries, "theta") {
                    None => {
                        return PositionBasis::Angle;
                    },
                    Some(t) => match find_axis(&axes, "theta") {
                        Some(a) => {
                            return PositionBasis::Fraction { index: t, steps: steps[a] };
                        },
                        None => {
                            return PositionBasis::Unplaced;
                        },
                    },
                }
            },
        }
    }
    match indices {
        None => PositionBasis::Unplaced,
        Some(m) => {
            if same_text(segmentation, "positions") {
                match cell {
                    None => PositionBasis::Unplaced,
                    Some(c) => PositionBasis::Fraction { index: c, steps: grid.total_cells() },
                }
            } else {
                let band = band_axis(&axes);
                proof {
                    let names = texts(axes@);
                    assert(names[0] == axes@[0]@);
                    assert(names.contains(names[0]));
                    assert(names.contains(band_axis_of(names)));
                    names.index_of_first_ensures(band_axis_of(names));
                }
                let entries = entries_of(m);
                match find_value(&entries, band.as_str()) {
                    None => PositionBasis::Unplaced,
                    Some(i) => match find_axis(&axes, band.as_str()) {
                        Some(a) => PositionBasis::Fraction { index: i, steps: steps[a] },
                        None => {
                            assert(false);
                            PositionBasis::Unplaced
                        },
                    },
                }
            }
        },
    }
}

// ---------------------------------------------------------------------------
// Properties of patterns
// ---------------------------------------------------------------------------

proof fn lemma_placed_lengths(config: MusicConfigView, points: Seq<PointPlacement>)
    ensures
        placed_notes(config, points).len() == placed_cells(points).len(),
    decreases points.len(),
{
    if points.len() > 0 {
        lemma_placed_lengths(config, points.drop_last());
    }
}

proof fn lemma_case_attractors_shape(
    config: MusicConfigView,
    label: Seq<char>,
    attractors: Seq<AttractorPlacement>,
)
    ensures
        forall|k: int|
            0 <= k < case_attractors(config, label, attractors).len() ==> {
                let a = #[trigger] case_attractors(config, label, attractors)[k];
                &&& a.notes.len() > 0
                &&& a.notes.len() == a.cells.len()
                &&& a.case_label == label
            },
    decreases attractors.len(),
{
    if attractors.len() > 0 {
        lemma_case_attractors_shape(config, label, attractors.drop_last());
        lemma_placed_lengths(config, attractors.last().points@);
        let prev = case_attractors(config, label, attractors.drop_last());
        let all = case_attractors(config, label, attractors);
        assert forall|k: int| 0 <= k < all.len() implies {
            let a = #[trigger] all[k];
            &&& a.notes.len() > 0
            &&& a.notes.len() == a.cells.len()
            &&& a.case_label == label
        } by {
            if k < prev.len() {
                assert(all[k] == prev[k]);
            }
        }
    }
}

/// Every attractor of a pattern has at least one note, and exactly one cell
/// per note.
pub proof fn law_pattern_attractors_have_notes(
    config: MusicConfigView,
    cases: Seq<CasePlacementView>,
)
    ensures
        forall|k: int|
            0 <= k < all_attractors(config, cases).len() ==> {
                let a = #[trigger] all_attractors(config, cases)[k];
                &&& a.notes.len() > 0
                &&& a.notes.len() == a.cells.len()
            },
    decreases cases.len(),
{
    if cases.len() > 0 {
        law_pattern_attractors_have_notes(config, cases.drop_last());
        lemma_case_attractors_shape(config, cases.last().label, cases.last().attractors);
        let prev = all_attractors(config, cases.drop_last());
        let tail = case_attractors(config, cases.last().label, cases.last().attractors);
        let all = all_attractors(config, cases);
        assert forall|k: int| 0 <= k < all.len() implies {
            let a = #[trigger] all[k];
            &&& a.notes.len() > 0
            &&& a.notes.len() == a.cells.len()
        } by {
            if k < prev.len() {
                assert(all[k] == prev[k]);
            } else {
                assert(all[k] == tail[k - prev.len()]);
            }
        }
    }
}

} // verus!
