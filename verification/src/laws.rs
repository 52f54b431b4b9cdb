//! Properties that relate several parts of the library.
use vstd::prelude::*;

use crate::audio::{Pitch, token_pitch};
use crate::music::{
    MusicConfigView, clamp_degree, config_is_valid, degree_midi, letter_semitone,
    note_name_semitone, note_text, octave_number, pitch_class_text, root_midi_value, root_text,
    scale_steps, total_degrees,
};
use crate::text::{
    CharClass, is_space, lemma_decimal_digits, lemma_parse_signed_decimal, lowers_to,
    lowers_to_text, parse_i32, signed_decimal, strip_end, strip_start,
};

verus! {

proof fn lemma_sign_or_digit_first(x: int)
    requires
        i32::MIN <= x <= i32::MAX,
    ensures
        signed_decimal(x).len() >= 1,
        signed_decimal(x)[0] == '-' || ('0' <= signed_decimal(x)[0] && signed_decimal(x)[0]
            <= '9'),
{
    if x < 0 {
        lemma_decimal_digits((-x) as nat);
    } else {
        lemma_decimal_digits(x as nat);
        assert('0' <= signed_decimal(x)[0]);
    }
}

/// The note names that patterns are made of are read back by the player as
/// the same note: the pitch class and the octave written for a MIDI number
/// come back as a note token of that octave and semitone, which for a
/// non-negative MIDI number is that number again.
pub proof fn law_note_names_read_back(midi: int)
    requires
        i32::MIN <= midi <= i32::MAX,
    ensures
        token_pitch(note_text(midi)) == Some(
            Pitch::Note { octave: octave_number(midi) as i32, semitone: (midi % 12) as i32 },
        ),
        midi >= 0 ==> 12 * (octave_number(midi) + 1) + midi % 12 == midi,
{
    let pc = midi % 12;
    let o = octave_number(midi);
    assert(i32::MIN <= o <= i32::MAX) by (nonlinear_arith)
        requires
            i32::MIN <= midi <= i32::MAX,
            o == (if midi >= 0 {
                midi / 12 - 1
            } else {
                -((-midi) / 12) - 1
            }),
    ;
    assert(midi >= 0 ==> 12 * (o + 1) + pc == midi) by (nonlinear_arith)
        requires
            o == (if midi >= 0 {
                midi / 12 - 1
            } else {
                -((-midi) / 12) - 1
            }),
            pc == midi % 12,
    ;
    lemma_sign_or_digit_first(o);
    lemma_parse_signed_decimal(o);
    let d = signed_decimal(o);
    let p = pitch_class_text(pc);
    let t = note_text(midi);
    reveal_strlit("c");
    reveal_strlit("c#");
    reveal_strlit("d");
    reveal_strlit("d#");
    reveal_strlit("e");
    reveal_strlit("f");
    reveal_strlit("f#");
    reveal_strlit("g");
    reveal_strlit("g#");
    reveal_strlit("a");
    reveal_strlit("a#");
    reveal_strlit("b");
    reveal_strlit("bd");
    reveal_strlit("bass");
    reveal_strlit("sd");
    reveal_strlit("snare");
    reveal_strlit("hh");
    reveal_strlit("hihat");
    reveal_strlit("cp");
    reveal_strlit("clap");
    reveal_strlit("silence");
    reveal_strlit("~");
    assert(t == p + d);
    assert(p.len() == 1 || p.len() == 2);
    assert(t.len() >= 2);
    // The second character is a sharp, a digit or a minus sign: no drum name
    // and no flat.
    let second = t[1];
    assert(second == '#' || second == '-' || ('0' <= second && second <= '9')) by {
        if p.len() == 1 {
            assert(t[1] == d[0]);
        } else {
            assert(t[1] == p[1]);
        }
    }
    assert(!lowers_to(second, 'd') && !lowers_to(second, 'a') && !lowers_to(second, 'p')
        && !lowers_to(second, 'l') && !lowers_to(second, 'n') && !lowers_to(second, 'h')
        && !lowers_to(second, 'i'));
    assert(!lowers_to_text(t, "bd"@)) by {
        if lowers_to_text(t, "bd"@) {
            assert(lowers_to(t[1], "bd"@[1]));
        }
    }
    assert(!lowers_to_text(t, "bass"@)) by {
        if lowers_to_text(t, "bass"@) {
            assert(lowers_to(t[1], "bass"@[1]));
        }
    }
    assert(!lowers_to_text(t, "sd"@)) by {
        if lowers_to_text(t, "sd"@) {
            assert(lowers_to(t[1], "sd"@[1]));
        }
    }
    assert(!lowers_to_text(t, "snare"@)) by {
        if lowers_to_text(t, "snare"@) {
            assert(lowers_to(t[1], "snare"@[1]));
        }
    }
    assert(!lowers_to_text(t, "hh"@)) by {
        if lowers_to_text(t, "hh"@) {
            assert(lowers_to(t[1], "hh"@[1]));
        }
    }
    assert(!lowers_to_text(t, "hihat"@)) by {
        if lowers_to_text(t, "hihat"@) {
            assert(lowers_to(t[1], "hihat"@[1]));
        }
    }
    assert(!lowers_to_text(t, "cp"@)) by {
        if lowers_to_text(t, "cp"@) {
            assert(lowers_to(t[1], "cp"@[1]));
        }
    }
    assert(!lowers_to_text(t, "clap"@)) by {
        if lowers_to_text(t, "clap"@) {
            assert(lowers_to(t[1], "clap"@[1]));
        }
    }
    assert(!lowers_to_text(t, "silence"@)) by {
        if lowers_to_text(t, "silence"@) {
            assert(lowers_to(t[1], "silence"@[1]));
        }
    }
    assert(!lowers_to_text(t, "~"@));
    assert(t[0] == p[0]);
    let sharp = p.len() == 2;
    assert(sharp <==> t[1] == '#') by {
        if p.len() == 1 {
            assert(t[1] == d[0]);
        } else {
            assert(t[1] == p[1]);
        }
    }
    assert(t[1] != 'b');
    assert(t.skip(p.len() as int) =~= d);
    assert(letter_semitone(t[0]) is Some);
    let base = letter_semitone(t[0])->0;
    assert(base + (if sharp {
        1int
    } else {
        0
    }) == pc);
}

/// `strip_end` of a text that ends with a non-space prefix `a` followed by
/// `t` keeps `a` whole.
proof fn lemma_strip_end_after(a: Seq<char>, t: Seq<char>)
    requires
        a.len() >= 1,
        !is_space(a.last()),
    ensures
        strip_end(a + t, CharClass::Space) == a + strip_end(t, CharClass::Space),
    decreases t.len(),
{
    if t.len() == 0 {
        assert(a + t =~= a);
        assert(a + strip_end(t, CharClass::Space) =~= a);
    } else if is_space(t.last()) {
        assert((a + t).drop_last() =~= a + t.drop_last());
        assert((a + t).last() == t.last());
        lemma_strip_end_after(a, t.drop_last());
    } else {
        assert((a + t).last() == t.last());
    }
}

/// The text of a root that starts with the non-space characters `a`.
proof fn lemma_root_text_prefix(a: Seq<char>, t: Seq<char>)
    requires
        a.len() >= 1,
        forall|k: int| 0 <= k < a.len() ==> !is_space(#[trigger] a[k]),
    ensures
        root_text(a + t) == a + strip_end(t, CharClass::Space),
{
    assert((a + t)[0] == a[0]);
    assert(strip_start(a + t, CharClass::Space) == a + t);
    lemma_strip_end_after(a, t);
}

/// Root notes do not depend on the letter case of their note letter: `C4` and
/// `c4` are the same note.
pub proof fn law_root_letter_case(lower: char, upper: char, rest: Seq<char>)
    requires
        'a' <= lower <= 'g',
        upper as int == lower as int - 32,
    ensures
        root_midi_value(seq![upper] + rest) == root_midi_value(seq![lower] + rest),
{
    assert(letter_semitone(upper) == letter_semitone(lower));
    assert(!is_space(upper) && !is_space(lower));
    lemma_root_text_prefix(seq![upper], rest);
    lemma_root_text_prefix(seq![lower], rest);
    let tail = strip_end(rest, CharClass::Space);
    let ru = seq![upper] + tail;
    let rl = seq![lower] + tail;
    assert(ru.len() == rl.len());
    assert(forall|k: int| 1 <= k < ru.len() ==> ru[k] == rl[k]);
    assert(ru.skip(1) =~= rl.skip(1));
    if ru.len() >= 2 {
        assert(ru.skip(2) =~= rl.skip(2));
    }
}

/// Two spellings of a root with the same semitone, one with `#` and one with
/// `b` (such as `D#3` and `Eb3`), are the same note.
pub proof fn law_root_enharmonic(sharp_letter: char, flat_letter: char, octave: Seq<char>)
    requires
        note_name_semitone(sharp_letter, Some('#')) is Some,
        note_name_semitone(sharp_letter, Some('#')) == note_name_semitone(flat_letter, Some('b')),
    ensures
        root_midi_value(seq![sharp_letter, '#'] + octave) == root_midi_value(
            seq![flat_letter, 'b'] + octave,
        ),
{
    assert(letter_semitone(sharp_letter) is Some);
    assert(letter_semitone(flat_letter) is Some);
    let a = seq![sharp_letter, '#'];
    let b = seq![flat_letter, 'b'];
    assert(forall|k: int| 0 <= k < a.len() ==> !is_space(#[trigger] a[k]));
    assert(forall|k: int| 0 <= k < b.len() ==> !is_space(#[trigger] b[k]));
    lemma_root_text_prefix(a, octave);
    lemma_root_text_prefix(b, octave);
    let tail = strip_end(octave, CharClass::Space);
    assert((a + tail).skip(2) =~= tail);
    assert((b + tail).skip(2) =~= tail);
}

/// A grid built on the axes of a coordinate system lacks none of them: when
/// the axes the system provides are the grid's own axes, no grid axis is
/// reported missing, so placing values on such a grid never fails for that
/// reason.
pub proof fn law_grid_on_system_axes_misses_none(axes: Seq<Seq<char>>)
    ensures
        axes.filter(|a: Seq<char>| !axes.contains(a)) == Seq::<Seq<char>>::empty(),
{
    let keep = |a: Seq<char>| !axes.contains(a);
    assert forall|k: int| 0 <= k < axes.len() implies !keep(#[trigger] axes[k]) by {
        assert(axes.contains(axes[k]));
    }
    lemma_filter_none(axes, keep);
}

proof fn lemma_filter_none(s: Seq<Seq<char>>, keep: spec_fn(Seq<char>) -> bool)
    requires
        forall|k: int| 0 <= k < s.len() ==> !keep(#[trigger] s[k]),
    ensures
        s.filter(keep) == Seq::<Seq<char>>::empty(),
    decreases s.len(),
{
    reveal(Seq::filter);
    if s.len() > 0 {
        assert forall|k: int| 0 <= k < s.drop_last().len() implies !keep(
            #[trigger] s.drop_last()[k],
        ) by {
            assert(s.drop_last()[k] == s[k]);
        }
        lemma_filter_none(s.drop_last(), keep);
        assert(!keep(s.last()));
    }
    assert(s.filter(keep) =~= Seq::<Seq<char>>::empty());
}

/// Whether a scale starts on the root, rises strictly and stays within one
/// octave.
pub open spec fn rising_within_octave(steps: Seq<i32>) -> bool {
    &&& steps.len() >= 1
    &&& steps[0] == 0
    &&& forall|i: int, j: int| 0 <= i < j < steps.len() ==> steps[i] < steps[j]
    &&& forall|i: int| 0 <= i < steps.len() ==> 0 <= #[trigger] steps[i] < 12
}

proof fn lemma_scales_rise(name: Seq<char>)
    requires
        scale_steps(name) is Some,
    ensures
        rising_within_octave(scale_steps(name)->0),
{
    let s = scale_steps(name)->0;
    assert forall|i: int, j: int| 0 <= i < j < s.len() implies s[i] < s[j] by {
        if name == "major"@ {
            assert(s =~= seq![0i32, 2, 4, 5, 7, 9, 11]);
        } else if name == "minor"@ {
            assert(s =~= seq![0i32, 2, 3, 5, 7, 8, 10]);
        } else if name == "pentatonic"@ {
            assert(s =~= seq![0i32, 3, 5, 7, 10]);
        } else {
            assert(s =~= seq![0i32, 1, 2, 3, 4, 5, 6, 7, 8, 9, 10, 11]);
            assert(s[i] == i && s[j] == j);
        }
    }
}

/// The notes that points are placed on belong to the configured scale and
/// range, and rise with the point's position: for a valid configuration, the
/// note of any scaled degree lies between the root and the top of the last
/// octave, its distance from the root is a step of the scale up to whole
/// octaves, and a higher scaled degree never gives a lower note.
pub proof fn law_notes_stay_in_scale(config: MusicConfigView, scaled: int, higher: int)
    requires
        config_is_valid(config),
        0 <= scaled <= higher,
    ensures
        ({
            let steps = scale_steps(config.scale)->0;
            let root = root_midi_value(config.root)->Ok_0;
            let midi = degree_midi(steps, root, clamp_degree(config, scaled));
            &&& root <= midi <= root + steps.last() + 12 * (config.octaves - 1)
            &&& steps.contains(((midi - root) % 12) as i32)
            &&& midi <= degree_midi(steps, root, clamp_degree(config, higher))
        }),
{
    let steps = scale_steps(config.scale)->0;
    let root = root_midi_value(config.root)->Ok_0;
    lemma_scales_rise(config.scale);
    let n = steps.len() as int;
    let octaves = config.octaves as int;
    let total = total_degrees(config);
    assert(total == n * octaves);
    assert(total >= 1) by (nonlinear_arith)
        requires
            n >= 1,
            octaves >= 1,
            total == n * octaves,
    ;
    let d1 = clamp_degree(config, scaled);
    let d2 = clamp_degree(config, higher);
    assert(0 <= d1 <= d2 < total);
    let q1 = d1 / n;
    let r1 = d1 % n;
    let q2 = d2 / n;
    let r2 = d2 % n;
    assert(d1 == q1 * n + r1 && 0 <= r1 < n && q1 >= 0) by (nonlinear_arith)
        requires
            n >= 1,
            d1 >= 0,
            q1 == d1 / n,
            r1 == d1 % n,
    ;
    assert(d2 == q2 * n + r2 && 0 <= r2 < n && q2 >= 0) by (nonlinear_arith)
        requires
            n >= 1,
            d2 >= 0,
            q2 == d2 / n,
            r2 == d2 % n,
    ;
    assert(q1 <= octaves - 1) by (nonlinear_arith)
        requires
            d1 == q1 * n + r1,
            0 <= r1,
            d1 < n * octaves,
            n >= 1,
    ;
    assert(q1 <= q2) by (nonlinear_arith)
        requires
            d1 == q1 * n + r1,
            d2 == q2 * n + r2,
            0 <= r1 < n,
            0 <= r2 < n,
            d1 <= d2,
    ;
    let midi1 = degree_midi(steps, root, d1);
    let midi2 = degree_midi(steps, root, d2);
    assert(midi1 == root + steps[r1] + 12 * q1);
    assert(midi2 == root + steps[r2] + 12 * q2);
    assert(0 <= steps[r1] < 12);
    assert(0 <= steps[r2] < 12);
    if r1 < n - 1 {
        assert(steps[r1] < steps[n - 1]);
    }
    assert(steps[r1] <= steps.last());
    assert(((midi1 - root) % 12) == steps[r1]) by (nonlinear_arith)
        requires
            midi1 - root == steps[r1] + 12 * q1,
            0 <= steps[r1] < 12,
            q1 >= 0,
    ;
    assert(steps.contains(steps[r1]));
    if q1 == q2 {
        assert(r1 <= r2) by (nonlinear_arith)
            requires
                d1 == q1 * n + r1,
                d2 == q2 * n + r2,
                q1 == q2,
                d1 <= d2,
        ;
        if r1 < r2 {
            assert(steps[r1] < steps[r2]);
        }
    } else {
        assert(12 * q1 + 12 <= 12 * q2);
    }
}

} // verus!
