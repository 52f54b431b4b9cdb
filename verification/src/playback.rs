//! What the player reads back of the code the pattern generator writes:
//! under the melody criterion, each note of the pattern; under the harmony
//! criterion, each attractor as one chord; under the rhythm criterion, each
//! note over one bass drum; under the texture criterion, each note twice.
use vstd::prelude::*;

use crate::audio::{
    CallKind, Pitch, StrudelEventView, argument_events, call_arguments, known_pitches,
    note_explanation, sound_explanation, strudel_events, strudel_explanations, token_events,
    token_pitch, token_pitches,
};
use crate::laws::law_note_names_read_back;
use crate::music::{
    MusicalAttractorView, chords_text, code_text, letter_semitone, melody_text, note_text, rhythm_text,
    octave_number, pitch_class_text,
};
use crate::text::{
    CharClass, all_digits, decimal, in_class, is_space, join, lead_len, lemma_decimal_digits,
    lemma_lead_len_bounds, lowers_to, lowers_to_text, parse_i32, signed_decimal, strip,
    strip_end, strip_start, tokens, occurs_at, find_from, word_count,
};

verus! {

/// The tokens of each part, one part after another.
pub open spec fn part_tokens(parts: Seq<Seq<char>>, class: CharClass) -> Seq<Seq<char>>
    decreases parts.len(),
{
    if parts.len() == 0 {
        seq![]
    } else {
        part_tokens(parts.drop_last(), class) + tokens(parts.last(), class)
    }
}

proof fn lemma_lead_len_before_separator(x: Seq<char>, y: Seq<char>, class: CharClass)
    requires
        y.len() >= 1,
        in_class(y[0], class),
    ensures
        lead_len(x + y, class) == lead_len(x, class),
    decreases x.len(),
{
    if x.len() == 0 {
        assert(x + y =~= y);
    } else {
        assert((x + y)[0] == x[0]);
        if !in_class(x[0], class) {
            assert((x + y).drop_first() =~= x.drop_first() + y);
            lemma_lead_len_before_separator(x.drop_first(), y, class);
        }
    }
}

/// Splitting text at a separator splits its tokens there.
proof fn lemma_tokens_at_separator(x: Seq<char>, y: Seq<char>, class: CharClass)
    requires
        y.len() >= 1,
        in_class(y[0], class),
    ensures
        tokens(x + y, class) == tokens(x, class) + tokens(y, class),
    decreases x.len(),
{
    if x.len() == 0 {
        assert(x + y =~= y);
        assert(tokens(x, class) =~= Seq::<Seq<char>>::empty());
    } else if in_class(x[0], class) {
        assert((x + y)[0] == x[0]);
        assert((x + y).drop_first() =~= x.drop_first() + y);
        lemma_tokens_at_separator(x.drop_first(), y, class);
    } else {
        assert((x + y)[0] == x[0]);
        lemma_lead_len_before_separator(x, y, class);
        lemma_lead_len_bounds(x, class);
        let w = lead_len(x, class) as int;
        assert((x + y).take(w) =~= x.take(w));
        assert((x + y).skip(w) =~= x.skip(w) + y);
        lemma_tokens_at_separator(x.skip(w), y, class);
        assert(tokens(x + y, class) =~= seq![x.take(w)] + tokens(x.skip(w), class) + tokens(
            y,
            class,
        ));
    }
}

/// The tokens of parts joined with a one-character separator of the token
/// class are the tokens of the parts.
proof fn lemma_tokens_of_join(parts: Seq<Seq<char>>, sep: Seq<char>, class: CharClass)
    requires
        sep.len() == 1,
        in_class(sep[0], class),
    ensures
        tokens(join(parts, sep), class) == part_tokens(parts, class),
    decreases parts.len(),
{
    if parts.len() == 0 {
        assert(part_tokens(parts, class) =~= Seq::<Seq<char>>::empty());
    } else if parts.len() == 1 {
        assert(part_tokens(parts.drop_last(), class) =~= Seq::<Seq<char>>::empty());
        assert(part_tokens(parts, class) =~= tokens(parts[0], class));
    } else {
        lemma_tokens_of_join(parts.drop_last(), sep, class);
        let head = join(parts.drop_last(), sep);
        let tail = sep + parts.last();
        assert(join(parts, sep) =~= head + tail);
        assert(in_class(tail[0], class));
        lemma_tokens_at_separator(head, tail, class);
        assert(tail.drop_first() =~= parts.last());
    }
}

/// The characters note names are written with: note letters, `#`, digits
/// and the minus sign of negative octaves.
pub open spec fn is_note_char(c: char) -> bool {
    ('a' <= c && c <= 'g') || c == '#' || ('0' <= c && c <= '9') || c == '-'
}

/// Whether `w` is written only with note-name characters, and is not empty.
pub open spec fn is_note_word(w: Seq<char>) -> bool {
    &&& w.len() >= 1
    &&& forall|k: int| 0 <= k < w.len() ==> is_note_char(#[trigger] w[k])
}

/// Every note of every attractor, one attractor after another.
pub open spec fn pattern_notes(attractors: Seq<MusicalAttractorView>) -> Seq<Seq<char>>
    decreases attractors.len(),
{
    if attractors.len() == 0 {
        seq![]
    } else {
        pattern_notes(attractors.drop_last()) + attractors.last().notes
    }
}

proof fn lemma_note_text_is_word(midi: int)
    requires
        i32::MIN <= midi <= i32::MAX,
    ensures
        is_note_word(note_text(midi)),
{
    reveal_strlit("c");
    reveal_strlit("c#");
    reveal_strlit("d");
    reveal_strlit("d#");
    reveal_strlit("e");
    reveal_strlit("f");
    reveal_strlit("f#");
    reveal_strlit("g");
    reveal_strlit("g#");
    reveal_strlit("a");
    reveal_strlit("a#");
    reveal_strlit("b");
    let pc = pitch_class_text(midi % 12);
    let o = octave_number(midi);
    assert(pc.len() >= 1);
    assert(forall|k: int| 0 <= k < pc.len() ==> is_note_char(#[trigger] pc[k]));
    let d = signed_decimal(o);
    if o < 0 {
        lemma_decimal_digits((-o) as nat);
        let digits = decimal((-o) as nat);
        assert(all_digits(digits));
        assert forall|k: int| 0 <= k < d.len() implies is_note_char(#[trigger] d[k]) by {
            if k > 0 {
                assert(d[k] == digits[k - 1]);
            }
        }
    } else {
        lemma_decimal_digits(o as nat);
        assert(all_digits(d));
    }
    let t = note_text(midi);
    assert(t =~= pc + d);
    assert forall|k: int| 0 <= k < t.len() implies is_note_char(#[trigger] t[k]) by {
        if k < pc.len() {
            assert(t[k] == pc[k]);
        } else {
            assert(t[k] == d[k - pc.len()]);
        }
    }
}

proof fn lemma_lead_len_of_word(w: Seq<char>, class: CharClass)
    requires
        forall|k: int| 0 <= k < w.len() ==> !in_class(#[trigger] w[k], class),
    ensures
        lead_len(w, class) == w.len(),
    decreases w.len(),
{
    if w.len() > 0 {
        assert(!in_class(w[0], class));
        assert forall|k: int| 0 <= k < w.drop_first().len() implies !in_class(
            #[trigger] w.drop_first()[k],
            class,
        ) by {
            assert(w.drop_first()[k] == w[k + 1]);
        }
        lemma_lead_len_of_word(w.drop_first(), class);
    }
}

/// A word without characters of the token class is a single token.
proof fn lemma_word_is_token(w: Seq<char>, class: CharClass)
    requires
        w.len() >= 1,
        forall|k: int| 0 <= k < w.len() ==> !in_class(#[trigger] w[k], class),
    ensures
        tokens(w, class) == seq![w],
{
    lemma_lead_len_of_word(w, class);
    assert(!in_class(w[0], class));
    assert(w.take(w.len() as int) =~= w);
    assert(w.skip(w.len() as int) =~= Seq::<char>::empty());
    assert(tokens(Seq::<char>::empty(), class) =~= Seq::<Seq<char>>::empty());
}

/// Note-name characters are neither white space nor commas.
pub open spec fn separates_notes(class: CharClass) -> bool {
    class == CharClass::Space || class == CharClass::CommaOrSpace
}

proof fn lemma_words_are_their_tokens(words: Seq<Seq<char>>, class: CharClass)
    requires
        separates_notes(class),
        forall|k: int| 0 <= k < words.len() ==> is_note_word(#[trigger] words[k]),
    ensures
        part_tokens(words, class) == words,
    decreases words.len(),
{
    if words.len() > 0 {
        lemma_words_are_their_tokens(words.drop_last(), class);
        let w = words.last();
        assert(is_note_word(words[words.len() - 1]));
        assert forall|k: int| 0 <= k < w.len() implies !in_class(#[trigger] w[k], class) by {
            assert(is_note_char(w[k]));
        }
        lemma_word_is_token(w, class);
        assert(words.drop_last().push(words.last()) =~= words);
    }
}

/// The tokens of the melody of a pattern are its notes, in order.
proof fn lemma_melody_tokens(attractors: Seq<MusicalAttractorView>)
    requires
        forall|k: int|
            0 <= k < pattern_notes(attractors).len() ==> is_note_word(
                #[trigger] pattern_notes(attractors)[k],
            ),
    ensures
        tokens(melody_text(attractors), CharClass::Space) == pattern_notes(attractors),
    decreases attractors.len(),
{
    reveal_strlit(" ");
    let groups = attractors.map_values(|a: MusicalAttractorView| join(a.notes, " "@));
    lemma_tokens_of_join(groups, " "@, CharClass::Space);
    lemma_group_tokens(attractors);
}

proof fn lemma_group_tokens(attractors: Seq<MusicalAttractorView>)
    requires
        forall|k: int|
            0 <= k < pattern_notes(attractors).len() ==> is_note_word(
                #[trigger] pattern_notes(attractors)[k],
            ),
    ensures
        part_tokens(
            attractors.map_values(|a: MusicalAttractorView| join(a.notes, " "@)),
            CharClass::Space,
        ) == pattern_notes(attractors),
    decreases attractors.len(),
{
    if attractors.len() > 0 {
        let prev = attractors.drop_last();
        let notes = attractors.last().notes;
        assert(pattern_notes(attractors) == pattern_notes(prev) + notes);
        assert forall|k: int| 0 <= k < pattern_notes(prev).len() implies is_note_word(
            #[trigger] pattern_notes(prev)[k],
        ) by {
            assert(pattern_notes(attractors)[k] == pattern_notes(prev)[k]);
        }
        assert forall|k: int| 0 <= k < notes.len() implies is_note_word(#[trigger] notes[k]) by {
            assert(pattern_notes(attractors)[pattern_notes(prev).len() + k] == notes[k]);
        }
        lemma_group_tokens(prev);
        reveal_strlit(" ");
        lemma_tokens_of_join(notes, " "@, CharClass::Space);
        lemma_words_are_their_tokens(notes, CharClass::Space);
        let groups = attractors.map_values(|a: MusicalAttractorView| join(a.notes, " "@));
        assert(groups.drop_last() =~= prev.map_values(
            |a: MusicalAttractorView| join(a.notes, " "@),
        ));
        assert(groups.last() == join(notes, " "@));
    }
}

/// The pitch a MIDI note is played at: its octave and its semitone within it.
pub open spec fn midi_pitch(midi: int) -> Pitch {
    Pitch::Note { octave: octave_number(midi) as i32, semitone: (midi % 12) as i32 }
}

/// One note event per MIDI note, in order.
pub open spec fn midi_events(midis: Seq<int>, call: CallKind) -> Seq<StrudelEventView> {
    midis.map_values(|m: int| StrudelEventView { pitches: seq![midi_pitch(m)], call: call })
}

/// Whether every MIDI note fits in an `i32`.
pub open spec fn all_i32(midis: Seq<int>) -> bool {
    forall|k: int| 0 <= k < midis.len() ==> i32::MIN <= #[trigger] midis[k] <= i32::MAX
}

proof fn lemma_note_sounds(midi: int)
    requires
        i32::MIN <= midi <= i32::MAX,
    ensures
        token_pitches(note_text(midi)) == seq![midi_pitch(midi)],
{
    let t = note_text(midi);
    lemma_note_text_is_word(midi);
    law_note_names_read_back(midi);
    assert(is_note_char(t[0]));
    assert(is_note_char(t.last()));
    assert(strip_start(t, CharClass::Angle) == t);
    assert(strip_end(t, CharClass::Angle) == t);
    assert(strip(t, CharClass::Angle) == t);
    assert(t[0] != '[');
}

proof fn lemma_note_events(midis: Seq<int>, call: CallKind)
    requires
        all_i32(midis),
    ensures
        token_events(midis.map_values(|m: int| note_text(m)), call) == midi_events(midis, call),
    decreases midis.len(),
{
    let ts = midis.map_values(|m: int| note_text(m));
    if midis.len() == 0 {
        assert(midi_events(midis, call) =~= Seq::<StrudelEventView>::empty());
    } else {
        let prev = midis.drop_last();
        assert(all_i32(prev)) by {
            assert forall|k: int| 0 <= k < prev.len() implies i32::MIN <= #[trigger] prev[k]
                <= i32::MAX by {
                assert(prev[k] == midis[k]);
            }
        }
        lemma_note_events(prev, call);
        assert(ts.drop_last() =~= prev.map_values(|m: int| note_text(m)));
        assert(ts.last() == note_text(midis.last()));
        assert(i32::MIN <= midis[midis.len() - 1] <= i32::MAX);
        lemma_note_sounds(midis.last());
        assert(midi_events(midis, call) =~= midi_events(prev, call) + seq![
            StrudelEventView { pitches: seq![midi_pitch(midis.last())], call: call },
        ]);
    }
}

proof fn lemma_find_first(s: Seq<char>, pat: Seq<char>, i: int, j: int)
    requires
        0 <= i <= j,
        occurs_at(s, pat, j),
        forall|q: int| i <= q < j ==> !#[trigger] occurs_at(s, pat, q),
    ensures
        find_from(s, pat, i) == Some(j),
    decreases j - i,
{
    if i < j {
        assert(!occurs_at(s, pat, i));
        lemma_find_first(s, pat, i + 1, j);
    }
}

proof fn lemma_find_none(s: Seq<char>, pat: Seq<char>, i: int)
    requires
        0 <= i,
        forall|q: int| i <= q ==> !#[trigger] occurs_at(s, pat, q),
    ensures
        find_from(s, pat, i) is None,
    decreases s.len() - i,
{
    if i + pat.len() <= s.len() {
        assert(!occurs_at(s, pat, i));
        if i < s.len() {
            lemma_find_none(s, pat, i + 1);
        }
    }
}

/// Past its first part, an occurrence in `a + b` is an occurrence in `b`.
proof fn lemma_occurs_after(a: Seq<char>, b: Seq<char>, pat: Seq<char>, q: int)
    requires
        q >= a.len(),
    ensures
        occurs_at(a + b, pat, q) == occurs_at(b, pat, q - a.len()),
{
    if occurs_at(a + b, pat, q) {
        assert forall|k: int| 0 <= k < pat.len() implies b[q - a.len() + k] == pat[k] by {
            assert((a + b)[q + k] == b[q - a.len() + k]);
        }
    }
    if occurs_at(b, pat, q - a.len()) {
        assert forall|k: int| 0 <= k < pat.len() implies (a + b)[q + k] == pat[k] by {
            assert((a + b)[q + k] == b[q - a.len() + k]);
        }
    }
}

/// The characters a melody is written with: note-name characters and spaces.
pub open spec fn is_melody_char(c: char) -> bool {
    is_note_char(c) || c == ' '
}

/// What follows the melody in melody code.
pub open spec fn melody_code_tail() -> Seq<char> {
    "\").sound(\"piano\").slow(2)"@
}

proof fn lemma_tail_shape()
    ensures
        melody_code_tail().len() == 25,
        melody_code_tail()[0] == '"',
        melody_code_tail()[1] == ')',
        melody_code_tail()[2] == '.',
        melody_code_tail()[3] == 's',
        melody_code_tail()[16] == ')',
        occurs_at(melody_code_tail(), "sound("@, 3),
        occurs_at(melody_code_tail(), ")"@, 1),
        occurs_at(melody_code_tail(), ")"@, 16),
        forall|j: int| 2 <= j ==> !#[trigger] occurs_at(melody_code_tail(), "note("@, j),
        forall|j: int| 0 <= j ==> !#[trigger] occurs_at(melody_code_tail(), "s("@, j),
        forall|j: int| 4 <= j ==> !#[trigger] occurs_at(melody_code_tail(), "sound("@, j),
        forall|j: int| 9 <= j < 16 ==> !#[trigger] occurs_at(melody_code_tail(), ")"@, j),
        melody_code_tail().subrange(9, 16) == "\"piano\""@,
{
    reveal_strlit("\").sound(\"piano\").slow(2)");
    reveal_strlit("sound(");
    reveal_strlit("note(");
    reveal_strlit("s(");
    reveal_strlit(")");
    reveal_strlit("\"piano\"");
    let t = melody_code_tail();
    assert(t.subrange(9, 16) =~= "\"piano\""@);
    assert forall|j: int| 2 <= j implies !#[trigger] occurs_at(t, "note("@, j) by {
        if 0 <= j && j + 5 <= 25 {
            if j == 6 {
                assert(t[j + 1] != "note("@[1]);
            } else if j == 13 {
                assert(t[j + 2] != "note("@[2]);
            } else {
                assert(t[j] != 'n') by {
                    assert(2 <= j <= 20);
                }
                assert(t[j] != "note("@[0]);
            }
        }
    }
    assert forall|j: int| 0 <= j implies !#[trigger] occurs_at(t, "s("@, j) by {
        if j + 2 <= 25 {
            if j == 3 || j == 18 {
                assert(t[j + 1] != "s("@[1]);
            } else {
                assert(t[j] != 's');
                assert(t[j] != "s("@[0]);
            }
        }
    }
    assert forall|j: int| 4 <= j implies !#[trigger] occurs_at(t, "sound("@, j) by {
        if j + 6 <= 25 {
            if j == 18 {
                assert(t[j + 1] != "sound("@[1]);
            } else {
                assert(t[j] != 's');
                assert(t[j] != "sound("@[0]);
            }
        }
    }
    assert forall|j: int| 9 <= j < 16 implies !#[trigger] occurs_at(t, ")"@, j) by {
        assert(t[j] != ')');
        assert(t[j] != ")"@[0]);
    }
}

/// Whether every character of `s` is a melody character.
pub open spec fn melody_chars(s: Seq<char>) -> bool {
    forall|k: int| 0 <= k < s.len() ==> is_melody_char(#[trigger] s[k])
}

proof fn lemma_join_chars(parts: Seq<Seq<char>>)
    requires
        forall|k: int| 0 <= k < parts.len() ==> melody_chars(#[trigger] parts[k]),
    ensures
        melody_chars(join(parts, " "@)),
    decreases parts.len(),
{
    reveal_strlit(" ");
    if parts.len() >= 2 {
        let prev = parts.drop_last();
        assert forall|k: int| 0 <= k < prev.len() implies melody_chars(#[trigger] prev[k]) by {
            assert(prev[k] == parts[k]);
        }
        lemma_join_chars(prev);
        let head = join(prev, " "@);
        let whole = join(parts, " "@);
        let last = parts[parts.len() - 1];
        assert(whole =~= head + " "@ + last);
        assert forall|k: int| 0 <= k < whole.len() implies is_melody_char(#[trigger] whole[k]) by {
            if k < head.len() {
                assert(whole[k] == head[k]);
            } else if k == head.len() {
                assert(whole[k] == ' ');
            } else {
                assert(whole[k] == last[k - head.len() - 1]);
            }
        }
    } else if parts.len() == 1 {
        assert(melody_chars(parts[0]));
    }
}

proof fn lemma_melody_chars(attractors: Seq<MusicalAttractorView>)
    requires
        forall|k: int|
            0 <= k < pattern_notes(attractors).len() ==> is_note_word(
                #[trigger] pattern_notes(attractors)[k],
            ),
    ensures
        melody_chars(melody_text(attractors)),
    decreases attractors.len(),
{
    let groups = attractors.map_values(|a: MusicalAttractorView| join(a.notes, " "@));
    assert forall|i: int| 0 <= i < groups.len() implies melody_chars(#[trigger] groups[i]) by {
        lemma_notes_in_pattern(attractors, i);
        let notes = attractors[i].notes;
        assert forall|k: int| 0 <= k < notes.len() implies melody_chars(#[trigger] notes[k]) by {
            assert(is_note_word(notes[k]));
        }
        lemma_join_chars(notes);
    }
    lemma_join_chars(groups);
}

/// The notes of each attractor are notes of the pattern.
proof fn lemma_notes_in_pattern(attractors: Seq<MusicalAttractorView>, i: int)
    requires
        0 <= i < attractors.len(),
        forall|k: int|
            0 <= k < pattern_notes(attractors).len() ==> is_note_word(
                #[trigger] pattern_notes(attractors)[k],
            ),
    ensures
        forall|k: int|
            0 <= k < attractors[i].notes.len() ==> is_note_word(#[trigger] attractors[i].notes[k]),
    decreases attractors.len(),
{
    let prev = attractors.drop_last();
    let notes = attractors.last().notes;
    assert(pattern_notes(attractors) == pattern_notes(prev) + notes);
    if i == attractors.len() - 1 {
        assert forall|k: int| 0 <= k < notes.len() implies is_note_word(#[trigger] notes[k]) by {
            assert(pattern_notes(attractors)[pattern_notes(prev).len() + k] == notes[k]);
        }
    } else {
        assert forall|k: int| 0 <= k < pattern_notes(prev).len() implies is_note_word(
            #[trigger] pattern_notes(prev)[k],
        ) by {
            assert(pattern_notes(attractors)[k] == pattern_notes(prev)[k]);
        }
        lemma_notes_in_pattern(prev, i);
        assert(prev[i] == attractors[i]);
    }
}

/// The characters the body of a note call is written with: those of
/// melodies, chord brackets and commas.
pub open spec fn is_body_char(c: char) -> bool {
    is_melody_char(c) || c == '[' || c == ']' || c == ','
}

/// Whether every character of `s` is a body character.
pub open spec fn body_chars(s: Seq<char>) -> bool {
    forall|k: int| 0 <= k < s.len() ==> is_body_char(#[trigger] s[k])
}

/// Whether `t` ends a note call: a closing quote and bracket, then a
/// `.sound(` call whose quoted argument closes at `e`, and no other call.
pub open spec fn note_call_tail(t: Seq<char>, e: int) -> bool {
    &&& 10 <= e < t.len()
    &&& t[0] == '"'
    &&& t[1] == ')'
    &&& t[2] == '.'
    &&& occurs_at(t, ")"@, 1)
    &&& occurs_at(t, "sound("@, 3)
    &&& occurs_at(t, ")"@, e)
    &&& forall|j: int| 9 <= j < e ==> !#[trigger] occurs_at(t, ")"@, j)
    &&& forall|j: int| 2 <= j ==> !#[trigger] occurs_at(t, "note("@, j)
    &&& forall|j: int| 0 <= j ==> !#[trigger] occurs_at(t, "s("@, j)
    &&& forall|j: int| 4 <= j ==> !#[trigger] occurs_at(t, "sound("@, j)
}

/// The calls of `note("body" + tail`: one note call on the body, one sound
/// call on the tail's quoted argument, and no `s` call.
proof fn lemma_note_code_calls(m: Seq<char>, t: Seq<char>, e: int)
    requires
        body_chars(m),
        note_call_tail(t, e),
    ensures
        call_arguments("note(\""@ + m + t, "note("@, 0) == seq![m],
        call_arguments("note(\""@ + m + t, "sound("@, 0) == seq![
            strip(t.subrange(9, e), CharClass::Quote),
        ],
        call_arguments("note(\""@ + m + t, "s("@, 0) == Seq::<Seq<char>>::empty(),
{
    reveal_strlit("note(\"");
    reveal_strlit("note(");
    reveal_strlit("sound(");
    reveal_strlit("s(");
    reveal_strlit(")");
    let n = m.len() as int;
    let head = "note(\""@;
    let a = head + m;
    let code = a + t;
    assert("note(\""@ + m + t == code);
    assert(head.len() == 6);
    assert(a.len() == 6 + n);
    assert forall|q: int| 0 <= q < 6 + n implies code[q] != 's' && code[q] != ')' by {
        assert(code[q] == a[q]);
        if q >= 6 {
            assert(a[q] == m[q - 6]);
            assert(is_body_char(m[q - 6]));
        }
    }
    // The note call: the body between its quotes.
    assert(occurs_at(code, "note("@, 0)) by {
        assert forall|k: int| 0 <= k < 5 implies code[k] == "note("@[k] by {
            assert(code[k] == head[k]);
        }
    }
    lemma_find_first(code, "note("@, 0, 0);
    assert forall|q: int| 5 <= q < 7 + n implies !#[trigger] occurs_at(code, ")"@, q) by {
        if q == 6 + n {
            assert(code[q] == t[0]);
        } else {
            assert(code[q] != ')');
        }
        assert(code[q] != ")"@[0]);
    }
    lemma_occurs_after(a, t, ")"@, 7 + n);
    lemma_find_first(code, ")"@, 5, 7 + n);
    assert(code.subrange(5, 7 + n) =~= seq!['"'] + m + seq!['"']);
    lemma_strip_quoted(m);
    assert forall|q: int| 8 + n <= q implies !#[trigger] occurs_at(code, "note("@, q) by {
        lemma_occurs_after(a, t, "note("@, q);
    }
    lemma_find_none(code, "note("@, 8 + n);
    assert(call_arguments(code, "note("@, 8 + n) =~= Seq::<Seq<char>>::empty());
    assert(call_arguments(code, "note("@, 0) =~= seq![m]);
    // The sound call.
    assert forall|q: int| 0 <= q < 9 + n implies !#[trigger] occurs_at(code, "sound("@, q) by {
        if q >= 6 + n {
            assert(code[q] == t[q - 6 - n]);
        }
        assert(code[q] != "sound("@[0]);
    }
    lemma_occurs_after(a, t, "sound("@, 9 + n);
    lemma_find_first(code, "sound("@, 0, 9 + n);
    assert forall|q: int| 15 + n <= q < e + 6 + n implies !#[trigger] occurs_at(code, ")"@, q) by {
        lemma_occurs_after(a, t, ")"@, q);
    }
    lemma_occurs_after(a, t, ")"@, e + 6 + n);
    lemma_find_first(code, ")"@, 15 + n, e + 6 + n);
    assert(code.subrange(15 + n, e + 6 + n) =~= t.subrange(9, e));
    assert forall|q: int| e + 7 + n <= q implies !#[trigger] occurs_at(code, "sound("@, q) by {
        lemma_occurs_after(a, t, "sound("@, q);
    }
    lemma_find_none(code, "sound("@, e + 7 + n);
    assert(call_arguments(code, "sound("@, e + 7 + n) =~= Seq::<Seq<char>>::empty());
    assert(call_arguments(code, "sound("@, 0) =~= seq![strip(t.subrange(9, e), CharClass::Quote)]);
    // No s call.
    assert forall|q: int| 0 <= q implies !#[trigger] occurs_at(code, "s("@, q) by {
        if q >= 6 + n {
            lemma_occurs_after(a, t, "s("@, q);
        } else {
            assert(code[q] != "s("@[0]);
        }
    }
    lemma_find_none(code, "s("@, 0);
    assert(call_arguments(code, "s("@, 0) =~= Seq::<Seq<char>>::empty());
}

proof fn lemma_strip_quoted(m: Seq<char>)
    requires
        body_chars(m),
    ensures
        strip(seq!['"'] + m + seq!['"'], CharClass::Quote) == m,
{
    let q = seq!['"'] + m + seq!['"'];
    assert(q.drop_first() =~= m + seq!['"']);
    let inner = m + seq!['"'];
    if m.len() == 0 {
        let empty = Seq::<char>::empty();
        assert(inner =~= seq!['"']);
        assert(inner.drop_first() =~= empty);
        assert(strip_start(empty, CharClass::Quote) == empty);
        assert(strip_start(inner, CharClass::Quote) == strip_start(inner.drop_first(), CharClass::Quote));
        assert(strip_start(q, CharClass::Quote) == strip_start(inner, CharClass::Quote));
        assert(strip_start(q, CharClass::Quote) == empty);
        assert(strip_end(Seq::<char>::empty(), CharClass::Quote) == Seq::<char>::empty());
        assert(m =~= Seq::<char>::empty());
    } else {
        assert(is_body_char(m[0]));
        assert(inner[0] == m[0]);
        assert(strip_start(inner, CharClass::Quote) == inner);
        assert(strip_start(q, CharClass::Quote) == inner);
        assert(inner.drop_last() =~= m);
        assert(is_body_char(m[m.len() - 1]));
        assert(strip_end(m, CharClass::Quote) == m);
        assert(strip_end(inner, CharClass::Quote) == m);
    }
}

/// Whether `c` is a lowercase letter or a digit.
pub open spec fn is_word_edge(c: char) -> bool {
    ('a' <= c && c <= 'z') || ('0' <= c && c <= '9')
}

/// What the player makes of a quoted word without spaces that starts and ends
/// with a lowercase letter or a digit: the word itself as the call's argument,
/// and at most one event, sounding what the word names.
proof fn lemma_sound_word(p: Seq<char>, call: CallKind)
    requires
        p.len() >= 1,
        is_word_edge(p[0]),
        is_word_edge(p.last()),
        forall|k: int| 0 <= k < p.len() ==> !in_class(#[trigger] p[k], CharClass::Space),
    ensures
        strip(seq!['"'] + p + seq!['"'], CharClass::Quote) == p,
        token_pitches(p) == match token_pitch(p) {
            Some(x) => seq![x],
            None => Seq::<Pitch>::empty(),
        },
        argument_events(seq![p], call) == if token_pitches(p).len() > 0 {
            seq![StrudelEventView { pitches: token_pitches(p), call: call }]
        } else {
            Seq::<StrudelEventView>::empty()
        },
{
    let q = seq!['"'] + p + seq!['"'];
    assert(q.drop_first() =~= p + seq!['"']);
    assert((p + seq!['"'])[0] == p[0]);
    assert(strip_start(p + seq!['"'], CharClass::Quote) == p + seq!['"']);
    assert((p + seq!['"']).drop_last() =~= p);
    assert(strip_end(p, CharClass::Quote) == p);
    lemma_word_is_token(p, CharClass::Space);
    assert(strip_start(p, CharClass::Angle) == p);
    assert(strip_end(p, CharClass::Angle) == p);
    assert(strip(p, CharClass::Angle) == p);
    assert(p[0] != '[');
    let ts = seq![p];
    assert(ts.last() == p);
    assert(ts.drop_last() =~= Seq::<Seq<char>>::empty());
    assert(token_events(ts.drop_last(), call) =~= Seq::<StrudelEventView>::empty());
    assert(tokens(ts.last(), CharClass::Space) == ts);
    assert(argument_events(ts.drop_last(), call) =~= Seq::<StrudelEventView>::empty());
    assert(argument_events(ts, call) =~= token_events(ts, call));
}

/// A word longer than every drum name, or starting with a lowercase letter
/// that no drum name starts with, names no drum.
proof fn lemma_names_none_of_the_drums(p: Seq<char>)
    requires
        p.len() >= 1,
        p.len() > 5 || ('a' <= p[0] && p[0] <= 'z' && p[0] != 'b' && p[0] != 's' && p[0] != 'h'
            && p[0] != 'c'),
    ensures
        !lowers_to_text(p, "bd"@),
        !lowers_to_text(p, "bass"@),
        !lowers_to_text(p, "sd"@),
        !lowers_to_text(p, "snare"@),
        !lowers_to_text(p, "hh"@),
        !lowers_to_text(p, "hihat"@),
        !lowers_to_text(p, "cp"@),
        !lowers_to_text(p, "clap"@),
{
    reveal_strlit("bd");
    reveal_strlit("bass");
    reveal_strlit("sd");
    reveal_strlit("snare");
    reveal_strlit("hh");
    reveal_strlit("hihat");
    reveal_strlit("cp");
    reveal_strlit("clap");
    if p.len() <= 5 {
        assert(!lowers_to(p[0], "bd"@[0]));
        assert(!lowers_to(p[0], "bass"@[0]));
        assert(!lowers_to(p[0], "sd"@[0]));
        assert(!lowers_to(p[0], "snare"@[0]));
        assert(!lowers_to(p[0], "hh"@[0]));
        assert(!lowers_to(p[0], "hihat"@[0]));
        assert(!lowers_to(p[0], "cp"@[0]));
        assert(!lowers_to(p[0], "clap"@[0]));
    }
}

/// A sound name that names no drum, no note and no rest.
proof fn lemma_unnamed_sound(p: Seq<char>)
    requires
        p.len() >= 2,
        is_word_edge(p[0]),
        is_word_edge(p.last()),
        forall|k: int| 0 <= k < p.len() ==> !in_class(#[trigger] p[k], CharClass::Space),
        !lowers_to_text(p, "bd"@),
        !lowers_to_text(p, "bass"@),
        !lowers_to_text(p, "sd"@),
        !lowers_to_text(p, "snare"@),
        !lowers_to_text(p, "hh"@),
        !lowers_to_text(p, "hihat"@),
        !lowers_to_text(p, "cp"@),
        !lowers_to_text(p, "clap"@),
        letter_semitone(p[0]) is None || (p[1] != '#' && p[1] != 'b' && p[1] != '-' && p[1] != '+'
            && !('0' <= p[1] && p[1] <= '9')),
    ensures
        strip(seq!['"'] + p + seq!['"'], CharClass::Quote) == p,
        argument_events(seq![p], CallKind::Sound) == Seq::<StrudelEventView>::empty(),
{
    lemma_sound_word(p, CallKind::Sound);
    if letter_semitone(p[0]) is Some {
        let digits = p.skip(1);
        assert(digits[0] == p[1]);
        assert(!all_digits(digits)) by {
            assert(!('0' <= digits[0] && digits[0] <= '9'));
        }
        assert(parse_i32(digits) is None);
    }
    assert(token_pitch(p) is None);
}

proof fn lemma_piano_is_silent()
    ensures
        strip("\"piano\""@, CharClass::Quote) == "piano"@,
        argument_events(seq!["piano"@], CallKind::Sound) == Seq::<StrudelEventView>::empty(),
{
    reveal_strlit("\"piano\"");
    reveal_strlit("piano");
    let p = "piano"@;
    assert("\"piano\""@ =~= seq!['"'] + p + seq!['"']);
    lemma_names_none_of_the_drums(p);
    lemma_unnamed_sound(p);
}

/// The melody code of a pattern plays back exactly its notes: read by the
/// player, the code written for a pattern under the melody criterion gives
/// one note event per note of the pattern, in order, each sounding the MIDI
/// note the note was named after; its piano sound adds no event.
pub proof fn law_melody_code_plays_its_notes(attractors: Seq<MusicalAttractorView>, midis: Seq<int>)
    requires
        attractors.len() >= 1,
        all_i32(midis),
        pattern_notes(attractors) == midis.map_values(|m: int| note_text(m)),
    ensures
        strudel_events(code_text(attractors, "melody"@)) == midi_events(midis, CallKind::Note),
{
    reveal_strlit("melody");
    reveal_strlit("note(\"");
    reveal_strlit("\").sound(\"piano\").slow(2)");
    let notes = pattern_notes(attractors);
    assert forall|k: int| 0 <= k < notes.len() implies is_note_word(#[trigger] notes[k]) by {
        assert(notes[k] == note_text(midis[k]));
        assert(i32::MIN <= midis[k] <= i32::MAX);
        lemma_note_text_is_word(midis[k]);
    }
    lemma_melody_tokens(attractors);
    lemma_melody_chars(attractors);
    lemma_tail_shape();
    lemma_piano_is_silent();
    let m = melody_text(attractors);
    let t = melody_code_tail();
    assert(body_chars(m)) by {
        assert forall|k: int| 0 <= k < m.len() implies is_body_char(#[trigger] m[k]) by {
            assert(is_melody_char(m[k]));
        }
    }
    lemma_note_code_calls(m, t, 16);
    let code = code_text(attractors, "melody"@);
    assert(code == "note(\""@ + m + t);
    lemma_note_events(midis, CallKind::Note);
    let args = seq![m];
    assert(args.drop_last() =~= Seq::<Seq<char>>::empty());
    assert(args.last() == m);
    assert(argument_events(args.drop_last(), CallKind::Note) =~= Seq::<StrudelEventView>::empty());
    assert(argument_events(args, CallKind::Note) =~= token_events(notes, CallKind::Note));
    assert(argument_events(Seq::<Seq<char>>::empty(), CallKind::S) =~= Seq::<StrudelEventView>::empty());
    assert(strudel_events(code) =~= midi_events(midis, CallKind::Note));
}

/// What follows the chords in harmony code.
pub open spec fn harmony_code_tail() -> Seq<char> {
    "\").sound(\"gm_epiano1\").slow(2)"@
}

proof fn lemma_harmony_tail_shape()
    ensures
        note_call_tail(harmony_code_tail(), 21),
        harmony_code_tail().subrange(9, 21) == "\"gm_epiano1\""@,
{
    reveal_strlit("\").sound(\"gm_epiano1\").slow(2)");
    reveal_strlit("sound(");
    reveal_strlit("note(");
    reveal_strlit("s(");
    reveal_strlit(")");
    reveal_strlit("\"gm_epiano1\"");
    let t = harmony_code_tail();
    assert(t.subrange(9, 21) =~= "\"gm_epiano1\""@);
    assert(occurs_at(t, ")"@, 1));
    assert(occurs_at(t, ")"@, 21));
    assert(occurs_at(t, "sound("@, 3)) by {
        assert forall|k: int| 0 <= k < 6 implies t[3 + k] == "sound("@[k] by {}
    }
    assert forall|j: int| 2 <= j implies !#[trigger] occurs_at(t, "note("@, j) by {
        if 0 <= j && j + 5 <= 30 {
            if j == 6 {
                assert(t[j + 1] != "note("@[1]);
            } else if j == 17 {
                assert(t[j + 2] != "note("@[2]);
            } else {
                assert(t[j] != 'n') by {
                    assert(2 <= j <= 25);
                }
                assert(t[j] != "note("@[0]);
            }
        }
    }
    assert forall|j: int| 0 <= j implies !#[trigger] occurs_at(t, "s("@, j) by {
        if j + 2 <= 30 {
            if j == 3 || j == 23 {
                assert(t[j + 1] != "s("@[1]);
            } else {
                assert(t[j] != 's');
                assert(t[j] != "s("@[0]);
            }
        }
    }
    assert forall|j: int| 4 <= j implies !#[trigger] occurs_at(t, "sound("@, j) by {
        if j + 6 <= 30 {
            if j == 23 {
                assert(t[j + 1] != "sound("@[1]);
            } else {
                assert(t[j] != 's');
                assert(t[j] != "sound("@[0]);
            }
        }
    }
    assert forall|j: int| 9 <= j < 21 implies !#[trigger] occurs_at(t, ")"@, j) by {
        assert(t[j] != ')');
        assert(t[j] != ")"@[0]);
    }
}

proof fn lemma_epiano_is_silent()
    ensures
        strip("\"gm_epiano1\""@, CharClass::Quote) == "gm_epiano1"@,
        argument_events(seq!["gm_epiano1"@], CallKind::Sound) == Seq::<StrudelEventView>::empty(),
{
    reveal_strlit("\"gm_epiano1\"");
    reveal_strlit("gm_epiano1");
    let p = "gm_epiano1"@;
    assert("\"gm_epiano1\""@ =~= seq!['"'] + p + seq!['"']);
    lemma_names_none_of_the_drums(p);
    lemma_unnamed_sound(p);
}

/// One chord event per chord of MIDI notes, in order.
pub open spec fn chord_events(chords: Seq<Seq<int>>) -> Seq<StrudelEventView> {
    chords.map_values(
        |c: Seq<int>|
            StrudelEventView { pitches: c.map_values(|m: int| midi_pitch(m)), call: CallKind::Note },
    )
}

proof fn lemma_pitches_of_notes(midis: Seq<int>)
    requires
        all_i32(midis),
    ensures
        known_pitches(midis.map_values(|m: int| note_text(m))) == midis.map_values(
            |m: int| midi_pitch(m),
        ),
    decreases midis.len(),
{
    let ts = midis.map_values(|m: int| note_text(m));
    if midis.len() > 0 {
        let prev = midis.drop_last();
        assert(all_i32(prev)) by {
            assert forall|k: int| 0 <= k < prev.len() implies i32::MIN <= #[trigger] prev[k]
                <= i32::MAX by {
                assert(prev[k] == midis[k]);
            }
        }
        lemma_pitches_of_notes(prev);
        assert(ts.drop_last() =~= prev.map_values(|m: int| note_text(m)));
        assert(i32::MIN <= midis[midis.len() - 1] <= i32::MAX);
        law_note_names_read_back(midis.last());
        assert(token_pitch(ts.last()) == Some(midi_pitch(midis.last())));
        assert(midis.map_values(|m: int| midi_pitch(m)) =~= prev.map_values(|m: int| midi_pitch(m))
            + seq![midi_pitch(midis.last())]);
    } else {
        assert(ts =~= Seq::<Seq<char>>::empty());
    }
}

/// Words with no character of the token class are their own tokens.
proof fn lemma_plain_words_are_tokens(words: Seq<Seq<char>>, class: CharClass)
    requires
        forall|k: int|
            0 <= k < words.len() ==> #[trigger] words[k].len() >= 1 && forall|i: int|
                0 <= i < words[k].len() ==> !in_class(#[trigger] words[k][i], class),
    ensures
        part_tokens(words, class) == words,
    decreases words.len(),
{
    if words.len() > 0 {
        let prev = words.drop_last();
        assert forall|k: int| 0 <= k < prev.len() implies #[trigger] prev[k].len() >= 1 && forall|
            i: int,
        | 0 <= i < prev[k].len() ==> !in_class(#[trigger] prev[k][i], class) by {
            assert(prev[k] == words[k]);
        }
        lemma_plain_words_are_tokens(prev, class);
        let w = words[words.len() - 1];
        assert(w.len() >= 1);
        lemma_word_is_token(w, class);
        assert(prev.push(w) =~= words);
    }
}

/// Whether every character of `s` satisfies `allowed`.
pub open spec fn chars_within(s: Seq<char>, allowed: spec_fn(char) -> bool) -> bool {
    forall|k: int| 0 <= k < s.len() ==> allowed(#[trigger] s[k])
}

proof fn lemma_join_within(parts: Seq<Seq<char>>, sep: Seq<char>, allowed: spec_fn(char) -> bool)
    requires
        sep.len() == 1,
        allowed(sep[0]),
        forall|k: int| 0 <= k < parts.len() ==> chars_within(#[trigger] parts[k], allowed),
    ensures
        chars_within(join(parts, sep), allowed),
    decreases parts.len(),
{
    if parts.len() >= 2 {
        let prev = parts.drop_last();
        assert forall|k: int| 0 <= k < prev.len() implies chars_within(#[trigger] prev[k], allowed) by {
            assert(prev[k] == parts[k]);
        }
        lemma_join_within(prev, sep, allowed);
        let head = join(prev, sep);
        let whole = join(parts, sep);
        let last = parts[parts.len() - 1];
        assert(chars_within(last, allowed));
        assert(whole =~= head + sep + last);
        assert forall|k: int| 0 <= k < whole.len() implies allowed(#[trigger] whole[k]) by {
            if k < head.len() {
                assert(whole[k] == head[k]);
            } else if k == head.len() {
                assert(whole[k] == sep[0]);
            } else {
                assert(whole[k] == last[k - head.len() - 1]);
            }
        }
    } else if parts.len() == 1 {
        assert(chars_within(parts[0], allowed));
    }
}

/// The characters a chord is written with: note-name characters, brackets
/// and commas.
pub open spec fn is_chord_char(c: char) -> bool {
    is_note_char(c) || c == '[' || c == ']' || c == ','
}

/// The chord of a nonempty list of note names sounds each of them at once.
proof fn lemma_chord_sounds(midis: Seq<int>)
    requires
        midis.len() >= 1,
        all_i32(midis),
    ensures
        chars_within(
            "["@ + join(midis.map_values(|m: int| note_text(m)), ","@) + "]"@,
            |c: char| is_chord_char(c),
        ),
        token_pitches("["@ + join(midis.map_values(|m: int| note_text(m)), ","@) + "]"@)
            == midis.map_values(|m: int| midi_pitch(m)),
{
    reveal_strlit("[");
    reveal_strlit("]");
    reveal_strlit(",");
    let notes = midis.map_values(|m: int| note_text(m));
    assert forall|k: int| 0 <= k < notes.len() implies is_note_word(#[trigger] notes[k]) by {
        assert(i32::MIN <= midis[k] <= i32::MAX);
        lemma_note_text_is_word(midis[k]);
    }
    let j = join(notes, ","@);
    let t = "["@ + j + "]"@;
    let allowed = |c: char| is_chord_char(c);
    assert forall|k: int| 0 <= k < notes.len() implies chars_within(#[trigger] notes[k], allowed) by {
        assert(is_note_word(notes[k]));
        assert forall|i: int| 0 <= i < notes[k].len() implies allowed(#[trigger] notes[k][i]) by {
            assert(is_note_char(notes[k][i]));
        }
    }
    lemma_join_within(notes, ","@, allowed);
    assert forall|k: int| 0 <= k < t.len() implies allowed(#[trigger] t[k]) by {
        if k == 0 {
            assert(t[k] == '[');
        } else if k == t.len() - 1 {
            assert(t[k] == ']');
        } else {
            assert(t[k] == j[k - 1]);
        }
    }
    assert(t[0] == '[');
    assert(t[t.len() - 1] == ']');
    assert(strip_start(t, CharClass::Angle) == t);
    assert(strip_end(t, CharClass::Angle) == t);
    assert(strip(t, CharClass::Angle) == t);
    assert(t.subrange(1, t.len() - 1) =~= j);
    lemma_tokens_of_join(notes, ","@, CharClass::CommaOrSpace);
    lemma_words_are_their_tokens(notes, CharClass::CommaOrSpace);
    lemma_pitches_of_notes(midis);
}

/// Whether each token of `ts` sounds the nonempty pitches at the same place
/// of `ps`.
pub open spec fn sounds_as(ts: Seq<Seq<char>>, ps: Seq<Seq<Pitch>>) -> bool {
    &&& ts.len() == ps.len()
    &&& forall|k: int|
        0 <= k < ts.len() ==> token_pitches(#[trigger] ts[k]) == ps[k] && ps[k].len() > 0
}

/// Tokens that each sound their own nonempty list of pitches make one event
/// each, in order.
proof fn lemma_token_events_of(ts: Seq<Seq<char>>, ps: Seq<Seq<Pitch>>, call: CallKind)
    requires
        sounds_as(ts, ps),
    ensures
        token_events(ts, call) == ps.map_values(
            |p: Seq<Pitch>| StrudelEventView { pitches: p, call: call },
        ),
    decreases ts.len(),
{
    if ts.len() > 0 {
        let n = ts.len() - 1;
        assert(token_pitches(ts[n]) == ps[n]);
        let ts2 = ts.drop_last();
        let ps2 = ps.drop_last();
        assert(sounds_as(ts2, ps2)) by {
            assert forall|k: int| 0 <= k < ts2.len() implies token_pitches(#[trigger] ts2[k])
                == ps2[k] && ps2[k].len() > 0 by {
                assert(ts2[k] == ts[k]);
                assert(ps2[k] == ps[k]);
                assert(token_pitches(ts[k]) == ps[k] && ps[k].len() > 0);
            }
        }
        lemma_token_events_of(ts2, ps2, call);
        assert(ps.map_values(|p: Seq<Pitch>| StrudelEventView { pitches: p, call: call })
            =~= ps2.map_values(|p: Seq<Pitch>| StrudelEventView { pitches: p, call: call }) + seq![
            StrudelEventView { pitches: ps[n], call: call },
        ]);
    } else {
        assert(ps.map_values(|p: Seq<Pitch>| StrudelEventView { pitches: p, call: call })
            =~= Seq::<StrudelEventView>::empty());
    }
}

/// The harmony code of a pattern plays back each attractor as one chord:
/// read by the player, the code written for a pattern under the harmony
/// criterion gives, for each attractor in order, one event sounding all of
/// its notes at once, at the MIDI notes they were named after; its electric
/// piano sound adds no event.
pub proof fn law_harmony_code_plays_its_chords(
    attractors: Seq<MusicalAttractorView>,
    chords: Seq<Seq<int>>,
)
    requires
        attractors.len() >= 1,
        chords.len() == attractors.len(),
        forall|k: int|
            0 <= k < chords.len() ==> #[trigger] chords[k].len() >= 1 && all_i32(chords[k])
                && attractors[k].notes == chords[k].map_values(|m: int| note_text(m)),
    ensures
        strudel_events(code_text(attractors, "harmony"@)) == chord_events(chords),
{
    reveal_strlit("harmony");
    reveal_strlit("melody");
    reveal_strlit("note(\"");
    reveal_strlit("\").sound(\"gm_epiano1\").slow(2)");
    reveal_strlit(" ");
    reveal_strlit("[");
    reveal_strlit("]");
    assert("harmony"@ != "melody"@) by {
        assert("harmony"@[0] != "melody"@[0]);
    }
    let groups = attractors.map_values(
        |a: MusicalAttractorView| "["@ + join(a.notes, ","@) + "]"@,
    );
    let pitches = chords.map_values(|c: Seq<int>| c.map_values(|m: int| midi_pitch(m)));
    let chord_allowed = |c: char| is_chord_char(c);
    let body_allowed = |c: char| is_body_char(c);
    assert forall|k: int| 0 <= k < groups.len() implies chars_within(
        #[trigger] groups[k],
        chord_allowed,
    ) && token_pitches(groups[k]) == pitches[k] && pitches[k].len() > 0 by {
        assert(chords[k].len() >= 1 && all_i32(chords[k]));
        lemma_chord_sounds(chords[k]);
        assert(groups[k] == "["@ + join(chords[k].map_values(|m: int| note_text(m)), ","@) + "]"@);
    }
    let c = chords_text(attractors);
    assert(c == join(groups, " "@));
    assert forall|k: int| 0 <= k < groups.len() implies chars_within(
        #[trigger] groups[k],
        body_allowed,
    ) by {
        assert(chars_within(groups[k], chord_allowed));
        assert forall|i: int| 0 <= i < groups[k].len() implies body_allowed(
            #[trigger] groups[k][i],
        ) by {
            assert(chord_allowed(groups[k][i]));
        }
    }
    lemma_join_within(groups, " "@, body_allowed);
    assert(body_chars(c)) by {
        assert forall|i: int| 0 <= i < c.len() implies is_body_char(#[trigger] c[i]) by {
            assert(body_allowed(c[i]));
        }
    }
    assert forall|k: int|
        0 <= k < groups.len() implies #[trigger] groups[k].len() >= 1 && forall|i: int|
        0 <= i < groups[k].len() ==> !in_class(#[trigger] groups[k][i], CharClass::Space) by {
        assert(chars_within(groups[k], chord_allowed));
        assert(groups[k].len() >= 2);
        assert forall|i: int| 0 <= i < groups[k].len() implies !in_class(
            #[trigger] groups[k][i],
            CharClass::Space,
        ) by {
            assert(chord_allowed(groups[k][i]));
        }
    }
    lemma_tokens_of_join(groups, " "@, CharClass::Space);
    lemma_plain_words_are_tokens(groups, CharClass::Space);
    assert(sounds_as(groups, pitches));
    lemma_token_events_of(groups, pitches, CallKind::Note);
    assert(pitches.map_values(|p: Seq<Pitch>| StrudelEventView { pitches: p, call: CallKind::Note })
        =~= chord_events(chords));
    lemma_harmony_tail_shape();
    lemma_epiano_is_silent();
    let t = harmony_code_tail();
    lemma_note_code_calls(c, t, 21);
    let code = code_text(attractors, "harmony"@);
    assert(code == "note(\""@ + c + t);
    let args = seq![c];
    assert(args.drop_last() =~= Seq::<Seq<char>>::empty());
    assert(args.last() == c);
    assert(argument_events(args.drop_last(), CallKind::Note) =~= Seq::<StrudelEventView>::empty());
    assert(argument_events(args, CallKind::Note) =~= token_events(groups, CallKind::Note));
    assert(argument_events(Seq::<Seq<char>>::empty(), CallKind::S) =~= Seq::<StrudelEventView>::empty());
    assert(strudel_events(code) =~= chord_events(chords));
}

/// An occurrence that starts early enough in `a` lies within `a`.
proof fn lemma_occurs_within(a: Seq<char>, b: Seq<char>, pat: Seq<char>, j: int)
    requires
        0 <= j,
        j + pat.len() <= a.len(),
    ensures
        occurs_at(a + b, pat, j) == occurs_at(a, pat, j),
{
    if occurs_at(a + b, pat, j) {
        assert forall|k: int| 0 <= k < pat.len() implies a[j + k] == pat[k] by {
            assert((a + b)[j + k] == a[j + k]);
        }
    }
    if occurs_at(a, pat, j) {
        assert forall|k: int| 0 <= k < pat.len() implies (a + b)[j + k] == pat[k] by {
            assert((a + b)[j + k] == a[j + k]);
        }
    }
}

/// Whether `pat` cannot start at position `j` of a text beginning with `a`:
/// the character there is not the pattern's first, or the pattern lies
/// within `a` and does not occur there.
pub open spec fn refuted_in(a: Seq<char>, pat: Seq<char>, j: int) -> bool {
    &&& 0 <= j < a.len()
    &&& (a[j] != pat[0] || (j + pat.len() <= a.len() && !occurs_at(a, pat, j)))
}

proof fn lemma_refuted(a: Seq<char>, b: Seq<char>, pat: Seq<char>, j: int)
    requires
        pat.len() >= 1,
        refuted_in(a, pat, j),
    ensures
        !occurs_at(a + b, pat, j),
{
    if a[j] != pat[0] {
        assert((a + b)[j] == a[j]);
    } else {
        lemma_occurs_within(a, b, pat, j);
    }
}

/// What precedes the first melody in texture code.
pub open spec fn texture_head() -> Seq<char> {
    "stack(note(\""@
}

/// What follows the first melody in texture code.
pub open spec fn texture_middle() -> Seq<char> {
    "\").sound(\"piano\"), note(\""@
}

/// What follows the second melody in texture code.
pub open spec fn texture_tail() -> Seq<char> {
    "\").sound(\"sawtooth\").slow(2).gain(0.35))"@
}

proof fn lemma_texture_shape()
    ensures
        texture_head().len() == 12,
        forall|j: int| 0 <= j < 6 ==> #[trigger] texture_head()[j] != 'n',
        occurs_at(texture_head(), "note("@, 6),
        texture_head()[11] == '"',
        forall|j: int| 1 <= j < 12 ==> #[trigger] texture_head()[j] != 's',
        texture_head()[1] == 't',
        texture_middle().len() == 25,
        texture_middle()[0] == '"',
        occurs_at(texture_middle(), ")"@, 1),
        occurs_at(texture_middle(), "sound("@, 3),
        occurs_at(texture_middle(), ")"@, 16),
        occurs_at(texture_middle(), "note("@, 19),
        texture_middle()[24] == '"',
        texture_middle().subrange(9, 16) == "\"piano\""@,
        forall|j: int| 2 <= j < 19 ==> refuted_in(texture_middle(), "note("@, #[trigger] (j + 0)),
        forall|j: int| 9 <= j < 16 ==> #[trigger] texture_middle()[j] != ')',
        forall|j: int| 0 <= j < 25 ==> refuted_in(texture_middle(), "s("@, #[trigger] (j + 0)),
        forall|j: int| 0 <= j < 3 ==> #[trigger] texture_middle()[j] != 's',
        forall|j: int| 17 <= j < 25 ==> #[trigger] texture_middle()[j] != 's',
        texture_tail().len() == 40,
        texture_tail()[0] == '"',
        forall|j: int| 0 <= j < 3 ==> #[trigger] texture_tail()[j] != 's',
        forall|j: int| 0 <= j < 19 ==> #[trigger] texture_tail()[j] != ')' || j == 1,
        occurs_at(texture_tail(), ")"@, 1),
        occurs_at(texture_tail(), "sound("@, 3),
        occurs_at(texture_tail(), ")"@, 19),
        texture_tail().subrange(9, 19) == "\"sawtooth\""@,
        forall|j: int| 9 <= j < 19 ==> #[trigger] texture_tail()[j] != ')',
        forall|j: int| 2 <= j ==> !#[trigger] occurs_at(texture_tail(), "note("@, j),
        forall|j: int| 20 <= j ==> !#[trigger] occurs_at(texture_tail(), "sound("@, j),
        forall|j: int| 0 <= j ==> !#[trigger] occurs_at(texture_tail(), "s("@, j),
{
    reveal_strlit("stack(note(\"");
    reveal_strlit("\").sound(\"piano\"), note(\"");
    reveal_strlit("\").sound(\"sawtooth\").slow(2).gain(0.35))");
    reveal_strlit("note(");
    reveal_strlit("sound(");
    reveal_strlit("s(");
    reveal_strlit(")");
    reveal_strlit("\"piano\"");
    reveal_strlit("\"sawtooth\"");
    let h = texture_head();
    let m = texture_middle();
    let t = texture_tail();
    assert(occurs_at(h, "note("@, 6)) by {
        assert forall|k: int| 0 <= k < 5 implies h[6 + k] == "note("@[k] by {}
    }
    assert(m.subrange(9, 16) =~= "\"piano\""@);
    assert(t.subrange(9, 19) =~= "\"sawtooth\""@);
    assert(occurs_at(m, "sound("@, 3)) by {
        assert forall|k: int| 0 <= k < 6 implies m[3 + k] == "sound("@[k] by {}
    }
    assert(occurs_at(m, "note("@, 19)) by {
        assert forall|k: int| 0 <= k < 5 implies m[19 + k] == "note("@[k] by {}
    }
    assert(occurs_at(t, "sound("@, 3)) by {
        assert forall|k: int| 0 <= k < 6 implies t[3 + k] == "sound("@[k] by {}
    }
    assert forall|j: int| 2 <= j < 19 implies refuted_in(m, "note("@, #[trigger] (j + 0)) by {
        if j == 6 {
            assert(!occurs_at(m, "note("@, j)) by {
                assert(m[j + 1] != "note("@[1]);
            }
        } else if j == 13 {
            assert(!occurs_at(m, "note("@, j)) by {
                assert(m[j + 2] != "note("@[2]);
            }
        } else {
            assert(m[j] != 'n');
        }
    }
    assert forall|j: int| 0 <= j < 25 implies refuted_in(m, "s("@, #[trigger] (j + 0)) by {
        if j == 3 {
            assert(!occurs_at(m, "s("@, j)) by {
                assert(m[j + 1] != "s("@[1]);
            }
        } else {
            assert(m[j] != 's');
        }
    }
    assert forall|j: int| 2 <= j implies !#[trigger] occurs_at(t, "note("@, j) by {
        if j + 5 <= 40 {
            if j == 6 {
                assert(t[j + 1] != "note("@[1]);
            } else if j == 32 {
                assert(t[j + 1] != "note("@[1]);
            } else {
                assert(t[j] != 'n');
                assert(t[j] != "note("@[0]);
            }
        }
    }
    assert forall|j: int| 20 <= j implies !#[trigger] occurs_at(t, "sound("@, j) by {
        if j + 6 <= 40 {
            if j == 21 {
                assert(t[j + 1] != "sound("@[1]);
            } else {
                assert(t[j] != 's');
                assert(t[j] != "sound("@[0]);
            }
        }
    }
    assert forall|j: int| 0 <= j implies !#[trigger] occurs_at(t, "s("@, j) by {
        if j + 2 <= 40 {
            if j == 3 || j == 10 || j == 21 {
                assert(t[j + 1] != "s("@[1]);
            } else {
                assert(t[j] != 's');
                assert(t[j] != "s("@[0]);
            }
        }
    }
}

proof fn lemma_sawtooth_is_silent()
    ensures
        strip("\"sawtooth\""@, CharClass::Quote) == "sawtooth"@,
        argument_events(seq!["sawtooth"@], CallKind::Sound) == Seq::<StrudelEventView>::empty(),
{
    reveal_strlit("\"sawtooth\"");
    reveal_strlit("sawtooth");
    let p = "sawtooth"@;
    assert("\"sawtooth\""@ =~= seq!['"'] + p + seq!['"']);
    lemma_names_none_of_the_drums(p);
    lemma_unnamed_sound(p);
}

/// Texture code for the melody `m`.
pub open spec fn texture_code(m: Seq<char>) -> Seq<char> {
    texture_head() + m + texture_middle() + m + texture_tail()
}

/// Where each part of texture code lies.
proof fn lemma_texture_index(m: Seq<char>)
    requires
        melody_chars(m),
    ensures
        ({
            let n = m.len() as int;
            let code = texture_code(m);
            &&& code.len() == 77 + 2 * n
            &&& code == (texture_head() + m + texture_middle() + m) + texture_tail()
            &&& code == (texture_head() + m) + (texture_middle() + (m + texture_tail()))
            &&& (texture_head() + m + texture_middle() + m).len() == 37 + 2 * n
            &&& (texture_head() + m).len() == 12 + n
            &&& forall|q: int| 0 <= q < 12 ==> #[trigger] code[q] == texture_head()[q]
            &&& forall|q: int| 12 <= q < 12 + n ==> is_melody_char(#[trigger] code[q])
            &&& forall|q: int|
                12 + n <= q < 37 + n ==> #[trigger] code[q] == texture_middle()[q - 12 - n]
            &&& forall|q: int| 37 + n <= q < 37 + 2 * n ==> is_melody_char(#[trigger] code[q])
            &&& forall|q: int|
                37 + 2 * n <= q < 77 + 2 * n ==> #[trigger] code[q] == texture_tail()[q - 37 - 2
                    * n]
            &&& code.subrange(11, 13 + n) == seq!['"'] + m + seq!['"']
            &&& code.subrange(36 + n, 38 + 2 * n) == seq!['"'] + m + seq!['"']
            &&& code.subrange(21 + n, 28 + n) == texture_middle().subrange(9, 16)
            &&& code.subrange(46 + 2 * n, 56 + 2 * n) == texture_tail().subrange(9, 19)
        }),
{
    lemma_texture_shape();
    let n = m.len() as int;
    let h = texture_head();
    let mid = texture_middle();
    let t = texture_tail();
    let a = h + m;
    let b = a + mid;
    let c = b + m;
    let code = texture_code(m);
    assert(code == c + t);
    assert(code =~= a + (mid + (m + t)));
    assert forall|q: int| 0 <= q < 12 implies #[trigger] code[q] == h[q] by {
        assert(code[q] == c[q] && c[q] == b[q] && b[q] == a[q]);
    }
    assert forall|q: int| 12 <= q < 12 + n implies is_melody_char(#[trigger] code[q]) by {
        assert(code[q] == c[q] && c[q] == b[q] && b[q] == a[q]);
        assert(code[q] == m[q - 12]);
    }
    assert forall|q: int| 12 + n <= q < 37 + n implies #[trigger] code[q] == mid[q - 12 - n] by {
        assert(code[q] == c[q] && c[q] == b[q]);
    }
    assert forall|q: int| 37 + n <= q < 37 + 2 * n implies is_melody_char(#[trigger] code[q]) by {
        assert(code[q] == c[q]);
        assert(code[q] == m[q - 37 - n]);
    }
    assert(code.subrange(11, 13 + n) =~= seq!['"'] + m + seq!['"']);
    assert(code.subrange(36 + n, 38 + 2 * n) =~= seq!['"'] + m + seq!['"']);
    assert(code.subrange(21 + n, 28 + n) =~= mid.subrange(9, 16));
    assert(code.subrange(46 + 2 * n, 56 + 2 * n) =~= t.subrange(9, 19));
}

proof fn lemma_texture_note_calls(m: Seq<char>)
    requires
        melody_chars(m),
    ensures
        call_arguments(texture_code(m), "note("@, 0) == seq![m, m],
{
    reveal_strlit("note(");
    reveal_strlit(")");
    lemma_texture_shape();
    lemma_texture_index(m);
    let n = m.len() as int;
    let mid = texture_middle();
    let t = texture_tail();
    let a = texture_head() + m;
    let c = texture_head() + m + mid + m;
    let code = texture_code(m);
    assert forall|q: int| 0 <= q < 6 implies !#[trigger] occurs_at(code, "note("@, q) by {
        assert(code[q] == texture_head()[q]);
        assert(code[q] != "note("@[0]);
    }
    assert(occurs_at(code, "note("@, 6)) by {
        assert forall|k: int| 0 <= k < 5 implies code[6 + k] == "note("@[k] by {
            assert(code[6 + k] == texture_head()[6 + k]);
        }
    }
    lemma_find_first(code, "note("@, 0, 6);
    assert forall|q: int| 11 <= q < 13 + n implies !#[trigger] occurs_at(code, ")"@, q) by {
        if q == 11 {
            assert(code[q] == texture_head()[11]);
        } else if q < 12 + n {
            assert(is_melody_char(code[q]));
        } else {
            assert(code[q] == mid[0]);
        }
        assert(code[q] != ")"@[0]);
    }
    assert(occurs_at(code, ")"@, 13 + n)) by {
        assert(code[13 + n] == mid[1]);
    }
    lemma_find_first(code, ")"@, 11, 13 + n);
    assert(body_chars(m)) by {
        assert forall|k: int| 0 <= k < m.len() implies is_body_char(#[trigger] m[k]) by {
            assert(is_melody_char(m[k]));
        }
    }
    lemma_strip_quoted(m);
    assert forall|q: int| 14 + n <= q < 31 + n implies !#[trigger] occurs_at(code, "note("@, q) by {
        let j = q - 12 - n;
        assert(refuted_in(mid, "note("@, j + 0));
        lemma_occurs_after(a, mid + (m + t), "note("@, q);
        lemma_refuted(mid, m + t, "note("@, j);
    }
    assert(occurs_at(code, "note("@, 31 + n)) by {
        assert forall|k: int| 0 <= k < 5 implies code[31 + n + k] == "note("@[k] by {
            assert(code[31 + n + k] == mid[19 + k]);
        }
    }
    lemma_find_first(code, "note("@, 14 + n, 31 + n);
    assert forall|q: int| 36 + n <= q < 38 + 2 * n implies !#[trigger] occurs_at(code, ")"@, q) by {
        if q == 36 + n {
            assert(code[q] == mid[24]);
        } else if q < 37 + 2 * n {
            assert(is_melody_char(code[q]));
        } else {
            assert(code[q] == t[0]);
        }
        assert(code[q] != ")"@[0]);
    }
    lemma_occurs_after(c, t, ")"@, 38 + 2 * n);
    lemma_find_first(code, ")"@, 36 + n, 38 + 2 * n);
    assert forall|q: int| 39 + 2 * n <= q implies !#[trigger] occurs_at(code, "note("@, q) by {
        lemma_occurs_after(c, t, "note("@, q);
    }
    lemma_find_none(code, "note("@, 39 + 2 * n);
    assert(call_arguments(code, "note("@, 39 + 2 * n) =~= Seq::<Seq<char>>::empty());
    assert(call_arguments(code, "note("@, 14 + n) =~= seq![m]);
    assert(call_arguments(code, "note("@, 0) =~= seq![m, m]);
}

proof fn lemma_texture_sound_calls(m: Seq<char>)
    requires
        melody_chars(m),
    ensures
        call_arguments(texture_code(m), "sound("@, 0) == seq!["piano"@, "sawtooth"@],
        call_arguments(texture_code(m), "s("@, 0) == Seq::<Seq<char>>::empty(),
{
    reveal_strlit("sound(");
    reveal_strlit("s(");
    reveal_strlit(")");
    lemma_texture_shape();
    lemma_texture_index(m);
    lemma_piano_is_silent();
    lemma_sawtooth_is_silent();
    let n = m.len() as int;
    let h = texture_head();
    let mid = texture_middle();
    let t = texture_tail();
    let a = h + m;
    let c = h + m + mid + m;
    let code = texture_code(m);
    // The first sound call, on the piano.
    assert forall|q: int| 0 <= q < 15 + n implies !#[trigger] occurs_at(code, "sound("@, q) by {
        if q == 0 {
            assert(code[1] == h[1]);
            assert(code[q + 1] != "sound("@[1]);
        } else if q < 12 {
            assert(code[q] == h[q]);
            assert(code[q] != "sound("@[0]);
        } else if q < 12 + n {
            assert(is_melody_char(code[q]));
            assert(code[q] != "sound("@[0]);
        } else {
            assert(code[q] == mid[q - 12 - n]);
            assert(code[q] != "sound("@[0]);
        }
    }
    assert(occurs_at(code, "sound("@, 15 + n)) by {
        assert forall|k: int| 0 <= k < 6 implies code[15 + n + k] == "sound("@[k] by {
            assert(code[15 + n + k] == mid[3 + k]);
        }
    }
    lemma_find_first(code, "sound("@, 0, 15 + n);
    assert forall|q: int| 21 + n <= q < 28 + n implies !#[trigger] occurs_at(code, ")"@, q) by {
        assert(code[q] == mid[q - 12 - n]);
        assert(code[q] != ")"@[0]);
    }
    assert(occurs_at(code, ")"@, 28 + n)) by {
        assert(code[28 + n] == mid[16]);
    }
    lemma_find_first(code, ")"@, 21 + n, 28 + n);
    // The second sound call, on the sawtooth.
    assert forall|q: int| 29 + n <= q < 40 + 2 * n implies !#[trigger] occurs_at(code, "sound("@, q) by {
        if q < 37 + n {
            assert(code[q] == mid[q - 12 - n]);
        } else if q < 37 + 2 * n {
            assert(is_melody_char(code[q]));
        } else {
            assert(code[q] == t[q - 37 - 2 * n]);
        }
        assert(code[q] != "sound("@[0]);
    }
    lemma_occurs_after(c, t, "sound("@, 40 + 2 * n);
    lemma_find_first(code, "sound("@, 29 + n, 40 + 2 * n);
    assert forall|q: int| 46 + 2 * n <= q < 56 + 2 * n implies !#[trigger] occurs_at(code, ")"@, q) by {
        assert(code[q] == t[q - 37 - 2 * n]);
        assert(code[q] != ")"@[0]);
    }
    lemma_occurs_after(c, t, ")"@, 56 + 2 * n);
    lemma_find_first(code, ")"@, 46 + 2 * n, 56 + 2 * n);
    assert forall|q: int| 57 + 2 * n <= q implies !#[trigger] occurs_at(code, "sound("@, q) by {
        lemma_occurs_after(c, t, "sound("@, q);
    }
    lemma_find_none(code, "sound("@, 57 + 2 * n);
    assert(call_arguments(code, "sound("@, 57 + 2 * n) =~= Seq::<Seq<char>>::empty());
    assert(call_arguments(code, "sound("@, 29 + n) =~= seq!["sawtooth"@]);
    assert(call_arguments(code, "sound("@, 0) =~= seq!["piano"@, "sawtooth"@]);
    // No s call.
    assert forall|q: int| 0 <= q implies !#[trigger] occurs_at(code, "s("@, q) by {
        if q == 0 {
            assert(code[1] == h[1]);
            assert(code[q + 1] != "s("@[1]);
        } else if q < 12 {
            assert(code[q] == h[q]);
            assert(code[q] != "s("@[0]);
        } else if q < 12 + n {
            assert(is_melody_char(code[q]));
            assert(code[q] != "s("@[0]);
        } else if q < 37 + n {
            let j = q - 12 - n;
            assert(refuted_in(mid, "s("@, j + 0));
            lemma_occurs_after(a, mid + (m + t), "s("@, q);
            lemma_refuted(mid, m + t, "s("@, j);
        } else if q < 37 + 2 * n {
            assert(is_melody_char(code[q]));
            assert(code[q] != "s("@[0]);
        } else {
            lemma_occurs_after(c, t, "s("@, q);
        }
    }
    lemma_find_none(code, "s("@, 0);
    assert(call_arguments(code, "s("@, 0) =~= Seq::<Seq<char>>::empty());
}

/// The texture code of a pattern plays its melody twice: read by the player,
/// the code written for a pattern under any criterion other than melody,
/// harmony and rhythm gives one note event per note of the pattern, in order,
/// and then the same events again for the slower copy; its piano and sawtooth
/// sounds add no event.
pub proof fn law_texture_code_plays_its_melody_twice(
    attractors: Seq<MusicalAttractorView>,
    midis: Seq<int>,
    criterion: Seq<char>,
)
    requires
        attractors.len() >= 1,
        criterion != "melody"@,
        criterion != "harmony"@,
        criterion != "rhythm"@,
        all_i32(midis),
        pattern_notes(attractors) == midis.map_values(|m: int| note_text(m)),
    ensures
        strudel_events(code_text(attractors, criterion)) == midi_events(midis, CallKind::Note)
            + midi_events(midis, CallKind::Note),
{
    reveal_strlit("stack(note(\"");
    reveal_strlit("\").sound(\"piano\"), note(\"");
    reveal_strlit("\").sound(\"sawtooth\").slow(2).gain(0.35))");
    let notes = pattern_notes(attractors);
    assert forall|k: int| 0 <= k < notes.len() implies is_note_word(#[trigger] notes[k]) by {
        assert(notes[k] == note_text(midis[k]));
        assert(i32::MIN <= midis[k] <= i32::MAX);
        lemma_note_text_is_word(midis[k]);
    }
    lemma_melody_tokens(attractors);
    lemma_melody_chars(attractors);
    let m = melody_text(attractors);
    let code = code_text(attractors, criterion);
    assert(code == texture_code(m));
    lemma_texture_note_calls(m);
    lemma_texture_sound_calls(m);
    lemma_piano_is_silent();
    lemma_sawtooth_is_silent();
    lemma_note_events(midis, CallKind::Note);
    let notes_args = seq![m, m];
    assert(notes_args.drop_last() =~= seq![m]);
    assert(seq![m].drop_last() =~= Seq::<Seq<char>>::empty());
    assert(argument_events(Seq::<Seq<char>>::empty(), CallKind::Note) =~= Seq::<StrudelEventView>::empty());
    assert(argument_events(seq![m], CallKind::Note) =~= token_events(notes, CallKind::Note));
    assert(argument_events(notes_args, CallKind::Note) =~= token_events(notes, CallKind::Note)
        + token_events(notes, CallKind::Note));
    let sounds = seq!["piano"@, "sawtooth"@];
    assert(sounds.drop_last() =~= seq!["piano"@]);
    assert(sounds.last() == "sawtooth"@);
    let saw = seq!["sawtooth"@];
    assert(saw.drop_last() =~= Seq::<Seq<char>>::empty());
    assert(saw.last() == "sawtooth"@);
    assert(argument_events(Seq::<Seq<char>>::empty(), CallKind::Sound) =~= Seq::<StrudelEventView>::empty());
    assert(token_events(tokens("sawtooth"@, CharClass::Space), CallKind::Sound) =~= Seq::<
        StrudelEventView,
    >::empty());
    assert(argument_events(sounds, CallKind::Sound) =~= Seq::<StrudelEventView>::empty());
    assert(argument_events(Seq::<Seq<char>>::empty(), CallKind::S) =~= Seq::<StrudelEventView>::empty());
    assert(strudel_events(code) =~= midi_events(midis, CallKind::Note) + midi_events(
        midis,
        CallKind::Note,
    ));
}

/// What follows the melody in rhythm code, up to the rhythm.
pub open spec fn rhythm_middle() -> Seq<char> {
    "\").sound(\"gm_acoustic_bass\"), s(\"bd\").struct(\""@
}

/// What follows the rhythm in rhythm code.
pub open spec fn rhythm_tail() -> Seq<char> {
    "\"))"@
}

/// The characters a rhythm is written with: hits, rests and spaces.
pub open spec fn is_rhythm_char(c: char) -> bool {
    c == 'x' || c == '~' || c == ' '
}

proof fn lemma_rhythm_shape()
    ensures
        rhythm_middle().len() == 46,
        rhythm_middle()[0] == '"',
        occurs_at(rhythm_middle(), ")"@, 1),
        occurs_at(rhythm_middle(), "sound("@, 3),
        forall|j: int| 0 <= j < 3 ==> #[trigger] rhythm_middle()[j] != 's',
        forall|j: int| 9 <= j < 27 ==> #[trigger] rhythm_middle()[j] != ')',
        occurs_at(rhythm_middle(), ")"@, 27),
        rhythm_middle().subrange(9, 27) == "\"gm_acoustic_bass\""@,
        forall|j: int| 2 <= j < 46 ==> refuted_in(rhythm_middle(), "note("@, #[trigger] (j + 0)),
        forall|j: int| 28 <= j < 46 ==> refuted_in(rhythm_middle(), "sound("@, #[trigger] (j + 0)),
        forall|j: int| 0 <= j < 30 ==> refuted_in(rhythm_middle(), "s("@, #[trigger] (j + 0)),
        occurs_at(rhythm_middle(), "s("@, 30),
        forall|j: int| 32 <= j < 36 ==> #[trigger] rhythm_middle()[j] != ')',
        occurs_at(rhythm_middle(), ")"@, 36),
        rhythm_middle().subrange(32, 36) == "\"bd\""@,
        forall|j: int| 37 <= j < 46 ==> refuted_in(rhythm_middle(), "s("@, #[trigger] (j + 0)),
        rhythm_middle()[45] == '"',
        rhythm_tail().len() == 3,
        forall|j: int| 0 <= j ==> !#[trigger] occurs_at(rhythm_tail(), "note("@, j),
        forall|j: int| 0 <= j ==> !#[trigger] occurs_at(rhythm_tail(), "sound("@, j),
        forall|j: int| 0 <= j ==> !#[trigger] occurs_at(rhythm_tail(), "s("@, j),
{
    reveal_strlit("\").sound(\"gm_acoustic_bass\"), s(\"bd\").struct(\"");
    reveal_strlit("\"))");
    reveal_strlit("note(");
    reveal_strlit("sound(");
    reveal_strlit("s(");
    reveal_strlit(")");
    reveal_strlit("\"gm_acoustic_bass\"");
    reveal_strlit("\"bd\"");
    let m = rhythm_middle();
    let t = rhythm_tail();
    assert(m.subrange(9, 27) =~= "\"gm_acoustic_bass\""@);
    assert(m.subrange(32, 36) =~= "\"bd\""@);
    assert(occurs_at(m, "sound("@, 3)) by {
        assert forall|k: int| 0 <= k < 6 implies m[3 + k] == "sound("@[k] by {}
    }
    assert(occurs_at(m, "s("@, 30)) by {
        assert forall|k: int| 0 <= k < 2 implies m[30 + k] == "s("@[k] by {}
    }
    assert forall|j: int| 2 <= j < 46 implies refuted_in(m, "note("@, #[trigger] (j + 0)) by {
        if j == 6 {
            assert(!occurs_at(m, "note("@, j)) by {
                assert(m[j + 1] != "note("@[1]);
            }
        } else {
            assert(m[j] != 'n');
        }
    }
    assert forall|j: int| 28 <= j < 46 implies refuted_in(m, "sound("@, #[trigger] (j + 0)) by {
        if j == 30 || j == 38 {
            assert(!occurs_at(m, "sound("@, j)) by {
                assert(m[j + 1] != "sound("@[1]);
            }
        } else {
            assert(m[j] != 's');
        }
    }
    assert forall|j: int| 0 <= j < 30 implies refuted_in(m, "s("@, #[trigger] (j + 0)) by {
        if j == 3 || j == 17 || j == 24 || j == 25 {
            assert(!occurs_at(m, "s("@, j)) by {
                assert(m[j + 1] != "s("@[1]);
            }
        } else {
            assert(m[j] != 's');
        }
    }
    assert forall|j: int| 37 <= j < 46 implies refuted_in(m, "s("@, #[trigger] (j + 0)) by {
        if j == 38 {
            assert(!occurs_at(m, "s("@, j)) by {
                assert(m[j + 1] != "s("@[1]);
            }
        } else {
            assert(m[j] != 's');
        }
    }
    assert forall|j: int| 0 <= j implies !#[trigger] occurs_at(t, "note("@, j) by {
        if j < 3 {
            assert(t[j] != "note("@[0]);
        }
    }
    assert forall|j: int| 0 <= j implies !#[trigger] occurs_at(t, "sound("@, j) by {}
    assert forall|j: int| 0 <= j implies !#[trigger] occurs_at(t, "s("@, j) by {
        if j + 2 <= 3 {
            assert(t[j] != "s("@[0]);
        }
    }
}

proof fn lemma_rhythm_chars(count: nat)
    ensures
        chars_within(rhythm_text(count), |c: char| is_rhythm_char(c)),
{
    reveal_strlit("x");
    reveal_strlit("~");
    reveal_strlit(" ");
    let allowed = |c: char| is_rhythm_char(c);
    let parts = Seq::new(
        count,
        |i: int|
            if i % 2 == 0 {
                "x"@
            } else {
                "~"@
            },
    );
    assert forall|k: int| 0 <= k < parts.len() implies chars_within(#[trigger] parts[k], allowed) by {
        assert(parts[k].len() == 1);
    }
    lemma_join_within(parts, " "@, allowed);
}

proof fn lemma_bass_and_drum()
    ensures
        strip("\"gm_acoustic_bass\""@, CharClass::Quote) == "gm_acoustic_bass"@,
        argument_events(seq!["gm_acoustic_bass"@], CallKind::Sound)
            == Seq::<StrudelEventView>::empty(),
        strip("\"bd\""@, CharClass::Quote) == "bd"@,
        argument_events(seq!["bd"@], CallKind::S) == seq![
            StrudelEventView { pitches: seq![Pitch::Drum(90)], call: CallKind::S },
        ],
{
    reveal_strlit("\"gm_acoustic_bass\"");
    reveal_strlit("gm_acoustic_bass");
    reveal_strlit("\"bd\"");
    reveal_strlit("bd");
    let p = "gm_acoustic_bass"@;
    assert("\"gm_acoustic_bass\""@ =~= seq!['"'] + p + seq!['"']);
    lemma_names_none_of_the_drums(p);
    lemma_unnamed_sound(p);
    let d = "bd"@;
    assert("\"bd\""@ =~= seq!['"'] + d + seq!['"']);
    lemma_sound_word(d, CallKind::S);
    assert(lowers_to_text(d, "bd"@));
    assert(token_pitch(d) == Some(Pitch::Drum(90)));
}

/// Rhythm code for the melody `m` over the rhythm `r`.
pub open spec fn rhythm_code(m: Seq<char>, r: Seq<char>) -> Seq<char> {
    texture_head() + m + rhythm_middle() + r + rhythm_tail()
}

/// Where each part of rhythm code lies.
proof fn lemma_rhythm_index(m: Seq<char>, r: Seq<char>)
    requires
        melody_chars(m),
        chars_within(r, |c: char| is_rhythm_char(c)),
    ensures
        ({
            let n = m.len() as int;
            let l = r.len() as int;
            let code = rhythm_code(m, r);
            &&& code.len() == 61 + n + l
            &&& code == (texture_head() + m) + (rhythm_middle() + (r + rhythm_tail()))
            &&& code == (texture_head() + m + rhythm_middle()) + (r + rhythm_tail())
            &&& code == (texture_head() + m + rhythm_middle() + r) + rhythm_tail()
            &&& (texture_head() + m).len() == 12 + n
            &&& (texture_head() + m + rhythm_middle()).len() == 58 + n
            &&& (texture_head() + m + rhythm_middle() + r).len() == 58 + n + l
            &&& forall|q: int| 0 <= q < 12 ==> #[trigger] code[q] == texture_head()[q]
            &&& forall|q: int| 12 <= q < 12 + n ==> is_melody_char(#[trigger] code[q])
            &&& forall|q: int|
                12 + n <= q < 58 + n ==> #[trigger] code[q] == rhythm_middle()[q - 12 - n]
            &&& forall|q: int| 58 + n <= q < 58 + n + l ==> is_rhythm_char(#[trigger] code[q])
            &&& code.subrange(11, 13 + n) == seq!['"'] + m + seq!['"']
            &&& code.subrange(21 + n, 39 + n) == rhythm_middle().subrange(9, 27)
            &&& code.subrange(44 + n, 48 + n) == rhythm_middle().subrange(32, 36)
        }),
{
    lemma_texture_shape();
    lemma_rhythm_shape();
    let n = m.len() as int;
    let h = texture_head();
    let mid = rhythm_middle();
    let t = rhythm_tail();
    let a = h + m;
    let b = a + mid;
    let c = b + r;
    let code = rhythm_code(m, r);
    assert(code == c + t);
    assert(code =~= a + (mid + (r + t)));
    assert(code =~= b + (r + t));
    assert forall|q: int| 0 <= q < 12 implies #[trigger] code[q] == h[q] by {
        assert(code[q] == c[q] && c[q] == b[q] && b[q] == a[q]);
    }
    assert forall|q: int| 12 <= q < 12 + n implies is_melody_char(#[trigger] code[q]) by {
        assert(code[q] == c[q] && c[q] == b[q] && b[q] == a[q]);
        assert(code[q] == m[q - 12]);
    }
    assert forall|q: int| 12 + n <= q < 58 + n implies #[trigger] code[q] == mid[q - 12 - n] by {
        assert(code[q] == c[q] && c[q] == b[q]);
    }
    assert forall|q: int| 58 + n <= q < 58 + n + r.len() implies is_rhythm_char(
        #[trigger] code[q],
    ) by {
        assert(code[q] == c[q]);
        assert(code[q] == r[q - 58 - n]);
        let allowed = |ch: char| is_rhythm_char(ch);
        assert(allowed(r[q - 58 - n]));
    }
    assert(code.subrange(11, 13 + n) =~= seq!['"'] + m + seq!['"']);
    assert(code.subrange(21 + n, 39 + n) =~= mid.subrange(9, 27));
    assert(code.subrange(44 + n, 48 + n) =~= mid.subrange(32, 36));
}

proof fn lemma_rhythm_calls(m: Seq<char>, r: Seq<char>)
    requires
        melody_chars(m),
        chars_within(r, |c: char| is_rhythm_char(c)),
    ensures
        call_arguments(rhythm_code(m, r), "note("@, 0) == seq![m],
        call_arguments(rhythm_code(m, r), "sound("@, 0) == seq!["gm_acoustic_bass"@],
        call_arguments(rhythm_code(m, r), "s("@, 0) == seq!["bd"@],
{
    reveal_strlit("note(");
    reveal_strlit("sound(");
    reveal_strlit("s(");
    reveal_strlit(")");
    lemma_texture_shape();
    lemma_rhythm_shape();
    lemma_rhythm_index(m, r);
    lemma_bass_and_drum();
    let n = m.len() as int;
    let l = r.len() as int;
    let h = texture_head();
    let mid = rhythm_middle();
    let t = rhythm_tail();
    let a = h + m;
    let b = a + mid;
    let c = b + r;
    let code = rhythm_code(m, r);
    // Past the middle, the rhythm and the tail hold no call.
    assert forall|q: int| 58 + n <= q implies !#[trigger] occurs_at(code, "note("@, q) by {
        if q < 58 + n + l {
            assert(is_rhythm_char(code[q]));
            assert(code[q] != "note("@[0]);
        } else {
            lemma_occurs_after(c, t, "note("@, q);
        }
    }
    assert forall|q: int| 58 + n <= q implies !#[trigger] occurs_at(code, "sound("@, q) by {
        if q < 58 + n + l {
            assert(is_rhythm_char(code[q]));
            assert(code[q] != "sound("@[0]);
        } else {
            lemma_occurs_after(c, t, "sound("@, q);
        }
    }
    assert forall|q: int| 58 + n <= q implies !#[trigger] occurs_at(code, "s("@, q) by {
        if q < 58 + n + l {
            assert(is_rhythm_char(code[q]));
            assert(code[q] != "s("@[0]);
        } else {
            lemma_occurs_after(c, t, "s("@, q);
        }
    }
    // The note call on the melody.
    assert forall|q: int| 0 <= q < 6 implies !#[trigger] occurs_at(code, "note("@, q) by {
        assert(code[q] == h[q]);
        assert(code[q] != "note("@[0]);
    }
    assert(occurs_at(code, "note("@, 6)) by {
        assert forall|k: int| 0 <= k < 5 implies code[6 + k] == "note("@[k] by {
            assert(code[6 + k] == h[6 + k]);
        }
    }
    lemma_find_first(code, "note("@, 0, 6);
    assert forall|q: int| 11 <= q < 13 + n implies !#[trigger] occurs_at(code, ")"@, q) by {
        if q == 11 {
            assert(code[q] == h[11]);
        } else if q < 12 + n {
            assert(is_melody_char(code[q]));
        } else {
            assert(code[q] == mid[0]);
        }
        assert(code[q] != ")"@[0]);
    }
    assert(occurs_at(code, ")"@, 13 + n)) by {
        assert(code[13 + n] == mid[1]);
    }
    lemma_find_first(code, ")"@, 11, 13 + n);
    assert(body_chars(m)) by {
        assert forall|k: int| 0 <= k < m.len() implies is_body_char(#[trigger] m[k]) by {
            assert(is_melody_char(m[k]));
        }
    }
    lemma_strip_quoted(m);
    assert forall|q: int| 14 + n <= q implies !#[trigger] occurs_at(code, "note("@, q) by {
        if q < 58 + n {
            let j = q - 12 - n;
            assert(refuted_in(mid, "note("@, j + 0));
            lemma_occurs_after(a, mid + (r + t), "note("@, q);
            lemma_refuted(mid, r + t, "note("@, j);
        }
    }
    lemma_find_none(code, "note("@, 14 + n);
    assert(call_arguments(code, "note("@, 14 + n) =~= Seq::<Seq<char>>::empty());
    assert(call_arguments(code, "note("@, 0) =~= seq![m]);
    // The sound call on the bass.
    assert forall|q: int| 0 <= q < 15 + n implies !#[trigger] occurs_at(code, "sound("@, q) by {
        if q == 0 {
            assert(code[1] == h[1]);
            assert(code[q + 1] != "sound("@[1]);
        } else if q < 12 {
            assert(code[q] == h[q]);
            assert(code[q] != "sound("@[0]);
        } else if q < 12 + n {
            assert(is_melody_char(code[q]));
            assert(code[q] != "sound("@[0]);
        } else {
            assert(code[q] == mid[q - 12 - n]);
            assert(code[q] != "sound("@[0]);
        }
    }
    assert(occurs_at(code, "sound("@, 15 + n)) by {
        assert forall|k: int| 0 <= k < 6 implies code[15 + n + k] == "sound("@[k] by {
            assert(code[15 + n + k] == mid[3 + k]);
        }
    }
    lemma_find_first(code, "sound("@, 0, 15 + n);
    assert forall|q: int| 21 + n <= q < 39 + n implies !#[trigger] occurs_at(code, ")"@, q) by {
        assert(code[q] == mid[q - 12 - n]);
        assert(code[q] != ")"@[0]);
    }
    assert(occurs_at(code, ")"@, 39 + n)) by {
        assert(code[39 + n] == mid[27]);
    }
    lemma_find_first(code, ")"@, 21 + n, 39 + n);
    assert forall|q: int| 40 + n <= q implies !#[trigger] occurs_at(code, "sound("@, q) by {
        if q < 58 + n {
            let j = q - 12 - n;
            assert(refuted_in(mid, "sound("@, j + 0));
            lemma_occurs_after(a, mid + (r + t), "sound("@, q);
            lemma_refuted(mid, r + t, "sound("@, j);
        }
    }
    lemma_find_none(code, "sound("@, 40 + n);
    assert(call_arguments(code, "sound("@, 40 + n) =~= Seq::<Seq<char>>::empty());
    assert(call_arguments(code, "sound("@, 0) =~= seq!["gm_acoustic_bass"@]);
    // The s call on the bass drum.
    assert forall|q: int| 0 <= q < 42 + n implies !#[trigger] occurs_at(code, "s("@, q) by {
        if q == 0 {
            assert(code[1] == h[1]);
            assert(code[q + 1] != "s("@[1]);
        } else if q < 12 {
            assert(code[q] == h[q]);
            assert(code[q] != "s("@[0]);
        } else if q < 12 + n {
            assert(is_melody_char(code[q]));
            assert(code[q] != "s("@[0]);
        } else {
            let j = q - 12 - n;
            assert(refuted_in(mid, "s("@, j + 0));
            lemma_occurs_after(a, mid + (r + t), "s("@, q);
            lemma_refuted(mid, r + t, "s("@, j);
        }
    }
    assert(occurs_at(code, "s("@, 42 + n)) by {
        assert forall|k: int| 0 <= k < 2 implies code[42 + n + k] == "s("@[k] by {
            assert(code[42 + n + k] == mid[30 + k]);
        }
    }
    lemma_find_first(code, "s("@, 0, 42 + n);
    assert forall|q: int| 44 + n <= q < 48 + n implies !#[trigger] occurs_at(code, ")"@, q) by {
        assert(code[q] == mid[q - 12 - n]);
        assert(code[q] != ")"@[0]);
    }
    assert(occurs_at(code, ")"@, 48 + n)) by {
        assert(code[48 + n] == mid[36]);
    }
    lemma_find_first(code, ")"@, 44 + n, 48 + n);
    assert forall|q: int| 49 + n <= q implies !#[trigger] occurs_at(code, "s("@, q) by {
        if q < 58 + n {
            let j = q - 12 - n;
            assert(refuted_in(mid, "s("@, j + 0));
            lemma_occurs_after(a, mid + (r + t), "s("@, q);
            lemma_refuted(mid, r + t, "s("@, j);
        }
    }
    lemma_find_none(code, "s("@, 49 + n);
    assert(call_arguments(code, "s("@, 49 + n) =~= Seq::<Seq<char>>::empty());
    assert(call_arguments(code, "s("@, 0) =~= seq!["bd"@]);
}

/// The rhythm code of a pattern plays its bass line over one bass drum: read
/// by the player, the code written for a pattern under the rhythm criterion
/// gives one note event per note of the pattern, in order, each sounding the
/// MIDI note the note was named after, then the one bass-drum event of its
/// `s` call; its bass sound and its rhythm add no event.
pub proof fn law_rhythm_code_plays_its_bass_line(
    attractors: Seq<MusicalAttractorView>,
    midis: Seq<int>,
)
    requires
        attractors.len() >= 1,
        all_i32(midis),
        pattern_notes(attractors) == midis.map_values(|m: int| note_text(m)),
    ensures
        strudel_events(code_text(attractors, "rhythm"@)) == midi_events(midis, CallKind::Note)
            + seq![StrudelEventView { pitches: seq![Pitch::Drum(90)], call: CallKind::S }],
{
    reveal_strlit("rhythm");
    reveal_strlit("melody");
    reveal_strlit("harmony");
    reveal_strlit("stack(note(\"");
    reveal_strlit("\").sound(\"gm_acoustic_bass\"), s(\"bd\").struct(\"");
    reveal_strlit("\"))");
    let notes = pattern_notes(attractors);
    assert forall|k: int| 0 <= k < notes.len() implies is_note_word(#[trigger] notes[k]) by {
        assert(notes[k] == note_text(midis[k]));
        assert(i32::MIN <= midis[k] <= i32::MAX);
        lemma_note_text_is_word(midis[k]);
    }
    lemma_melody_tokens(attractors);
    lemma_melody_chars(attractors);
    let m = melody_text(attractors);
    let r = rhythm_text(word_count(m));
    lemma_rhythm_chars(word_count(m));
    assert("rhythm"@ != "melody"@) by {
        assert("rhythm"@[0] != "melody"@[0]);
    }
    assert("rhythm"@ != "harmony"@) by {
        assert("rhythm"@[0] != "harmony"@[0]);
    }
    let code = code_text(attractors, "rhythm"@);
    assert(code == rhythm_code(m, r));
    lemma_rhythm_calls(m, r);
    lemma_bass_and_drum();
    lemma_note_events(midis, CallKind::Note);
    let args = seq![m];
    assert(args.drop_last() =~= Seq::<Seq<char>>::empty());
    assert(args.last() == m);
    assert(argument_events(args.drop_last(), CallKind::Note) =~= Seq::<StrudelEventView>::empty());
    assert(argument_events(args, CallKind::Note) =~= token_events(notes, CallKind::Note));
    assert(strudel_events(code) =~= midi_events(midis, CallKind::Note) + seq![
        StrudelEventView { pitches: seq![Pitch::Drum(90)], call: CallKind::S },
    ]);
}

/// The chords of a pattern whose notes are note names are written with body
/// characters.
proof fn lemma_chords_body_chars(attractors: Seq<MusicalAttractorView>)
    requires
        forall|k: int|
            0 <= k < pattern_notes(attractors).len() ==> is_note_word(
                #[trigger] pattern_notes(attractors)[k],
            ),
    ensures
        body_chars(chords_text(attractors)),
{
    reveal_strlit(" ");
    reveal_strlit(",");
    reveal_strlit("[");
    reveal_strlit("]");
    let allowed = |c: char| is_body_char(c);
    let groups = attractors.map_values(
        |a: MusicalAttractorView| "["@ + join(a.notes, ","@) + "]"@,
    );
    assert forall|i: int| 0 <= i < groups.len() implies chars_within(#[trigger] groups[i], allowed) by {
        lemma_notes_in_pattern(attractors, i);
        let notes = attractors[i].notes;
        assert forall|k: int| 0 <= k < notes.len() implies chars_within(#[trigger] notes[k], allowed) by {
            assert(is_note_word(notes[k]));
            assert forall|q: int| 0 <= q < notes[k].len() implies allowed(#[trigger] notes[k][q]) by {
                assert(is_note_char(notes[k][q]));
            }
        }
        lemma_join_within(notes, ","@, allowed);
        let inner = join(notes, ","@);
        let g = groups[i];
        assert(g == "["@ + inner + "]"@);
        assert forall|q: int| 0 <= q < g.len() implies allowed(#[trigger] g[q]) by {
            if q == 0 {
                assert(g[q] == '[');
            } else if q <= inner.len() {
                assert(g[q] == inner[q - 1]);
            } else {
                assert(g[q] == ']');
            }
        }
    }
    lemma_join_within(groups, " "@, allowed);
    let c = chords_text(attractors);
    assert(c == join(groups, " "@));
    assert forall|q: int| 0 <= q < c.len() implies is_body_char(#[trigger] c[q]) by {
        assert(allowed(c[q]));
    }
}

/// The code written for a pattern is explained call by call: under the
/// melody criterion, its notes and then its piano; under harmony, its chords
/// and then its electric piano; under rhythm, its bass line, its bass sound
/// and its bass drum; under any other criterion (texture), its notes twice,
/// then its piano and its sawtooth.
pub proof fn law_generated_code_is_explained_call_by_call(
    attractors: Seq<MusicalAttractorView>,
    criterion: Seq<char>,
)
    requires
        attractors.len() >= 1,
        forall|k: int|
            0 <= k < pattern_notes(attractors).len() ==> is_note_word(
                #[trigger] pattern_notes(attractors)[k],
            ),
    ensures
        criterion == "melody"@ ==> strudel_explanations(code_text(attractors, criterion)) == seq![
            note_explanation(melody_text(attractors)),
            sound_explanation("piano"@),
        ],
        criterion == "harmony"@ ==> strudel_explanations(code_text(attractors, criterion))
            == seq![note_explanation(chords_text(attractors)), sound_explanation("gm_epiano1"@)],
        criterion == "rhythm"@ ==> strudel_explanations(code_text(attractors, criterion)) == seq![
            note_explanation(melody_text(attractors)),
            sound_explanation("gm_acoustic_bass"@),
            sound_explanation("bd"@),
        ],
        criterion != "melody"@ && criterion != "harmony"@ && criterion != "rhythm"@
            ==> strudel_explanations(code_text(attractors, criterion)) == seq![
            note_explanation(melody_text(attractors)),
            note_explanation(melody_text(attractors)),
            sound_explanation("piano"@),
            sound_explanation("sawtooth"@),
        ],
{
    reveal_strlit("melody");
    reveal_strlit("harmony");
    reveal_strlit("rhythm");
    assert("rhythm"@ != "melody"@) by {
        assert("rhythm"@[0] != "melody"@[0]);
    }
    assert("rhythm"@ != "harmony"@) by {
        assert("rhythm"@[0] != "harmony"@[0]);
    }
    assert("harmony"@ != "melody"@) by {
        assert("harmony"@[0] != "melody"@[0]);
    }
    lemma_melody_chars(attractors);
    let m = melody_text(attractors);
    let code = code_text(attractors, criterion);
    assert(body_chars(m)) by {
        assert forall|k: int| 0 <= k < m.len() implies is_body_char(#[trigger] m[k]) by {
            assert(is_melody_char(m[k]));
        }
    }
    if criterion == "melody"@ {
        reveal_strlit("note(\"");
        reveal_strlit("\").sound(\"piano\").slow(2)");
        lemma_tail_shape();
        lemma_piano_is_silent();
        lemma_note_code_calls(m, melody_code_tail(), 16);
        assert(code == "note(\""@ + m + melody_code_tail());
        assert(strudel_explanations(code) =~= seq![note_explanation(m), sound_explanation("piano"@)]);
    } else if criterion == "harmony"@ {
        reveal_strlit("note(\"");
        reveal_strlit("\").sound(\"gm_epiano1\").slow(2)");
        let c = chords_text(attractors);
        lemma_chords_body_chars(attractors);
        lemma_harmony_tail_shape();
        lemma_epiano_is_silent();
        lemma_note_code_calls(c, harmony_code_tail(), 21);
        assert(code == "note(\""@ + c + harmony_code_tail());
        assert(strudel_explanations(code) =~= seq![
            note_explanation(c),
            sound_explanation("gm_epiano1"@),
        ]);
    } else if criterion == "rhythm"@ {
        reveal_strlit("stack(note(\"");
        reveal_strlit("\").sound(\"gm_acoustic_bass\"), s(\"bd\").struct(\"");
        reveal_strlit("\"))");
        let r = rhythm_text(word_count(m));
        lemma_rhythm_chars(word_count(m));
        assert(code == rhythm_code(m, r));
        lemma_rhythm_calls(m, r);
        assert(strudel_explanations(code) =~= seq![
            note_explanation(m),
            sound_explanation("gm_acoustic_bass"@),
            sound_explanation("bd"@),
        ]);
    } else {
        reveal_strlit("stack(note(\"");
        reveal_strlit("\").sound(\"piano\"), note(\"");
        reveal_strlit("\").sound(\"sawtooth\").slow(2).gain(0.35))");
        assert(code == texture_code(m));
        lemma_texture_note_calls(m);
        lemma_texture_sound_calls(m);
        assert(strudel_explanations(code) =~= seq![
            note_explanation(m),
            note_explanation(m),
            sound_explanation("piano"@),
            sound_explanation("sawtooth"@),
        ]);
    }
}

} // verus!
