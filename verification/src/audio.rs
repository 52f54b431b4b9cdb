//! Reading the playable part of Strudel code: the arguments of its `note`,
//! `sound` and `s` calls.
use vstd::prelude::*;

use crate::music::letter_semitone;
use crate::text::{
    CharClass, chars_of, find, find_from, lemma_find_from_found, lowers_to_text, parse_i32,
    parse_i32_range, range_contains, range_lowers_to, strip, strip_bounds, token_bounds, tokens,
    within,
};

verus! {

/// The arguments of the calls that start with `pat` (a function name and its
/// opening bracket) at or after `offset`, each running to the next `)` and
/// stripped of surrounding quotes. A call without a closing `)` ends the scan.
pub open spec fn call_arguments(code: Seq<char>, pat: Seq<char>, offset: int) -> Seq<Seq<char>>
    decreases code.len() - offset,
{
    match find_from(code, pat, offset) {
        None => seq![],
        Some(p) => {
            let start = p + pat.len();
            match find_from(code, ")"@, start) {
                None => seq![],
                Some(e) => if offset <= p && start <= e && e < code.len() && pat.len() >= 1 {
                    seq![strip(code.subrange(start, e), CharClass::Quote)] + call_arguments(
                        code,
                        pat,
                        e + 1,
                    )
                } else {
                    seq![]
                },
            }
        },
    }
}

/// Whether `b` is a range within a text of `len` characters.
pub open spec fn bounded(b: (usize, usize), len: nat) -> bool {
    b.0 <= b.1 <= len
}

/// The bounds of the arguments of the calls that start with `pat`.
fn argument_bounds(v: &Vec<char>, pat: &Vec<char>) -> (r: Vec<(usize, usize)>)
    requires
        pat@.len() >= 1,
    ensures
        r@.len() == call_arguments(v@, pat@, 0).len(),
        forall|k: int|
            0 <= k < r@.len() ==> #[trigger] r@[k].0 <= r@[k].1 <= v@.len() && v@.subrange(
                r@[k].0 as int,
                r@[k].1 as int,
            ) == call_arguments(v@, pat@, 0)[k],
{
    proof {
        reveal_strlit(")");
    }
    let close = chars_of(")");
    assert(close@.len() == 1);
    let mut r: Vec<(usize, usize)> = Vec::new();
    let mut offset: usize = 0;
    let n: usize = v.len();
    loop
        invariant
            n == v@.len(),
            close@ == ")"@,
            close@.len() == 1,
            pat@.len() >= 1,
            offset <= v@.len(),
            call_arguments(v@, pat@, 0) == r@.map_values(
                |b: (usize, usize)| v@.subrange(b.0 as int, b.1 as int),
            ) + call_arguments(v@, pat@, offset as int),
            forall|k: int| 0 <= k < r@.len() ==> bounded(#[trigger] r@[k], v@.len()),
        ensures
            call_arguments(v@, pat@, 0) == r@.map_values(
                |b: (usize, usize)| v@.subrange(b.0 as int, b.1 as int),
            ),
            forall|k: int| 0 <= k < r@.len() ==> bounded(#[trigger] r@[k], v@.len()),
        decreases v@.len() - offset,
    {
        let ghost f = |b: (usize, usize)| v@.subrange(b.0 as int, b.1 as int);
        let found = find(v, pat, offset);
        if found.is_none() {
            assert(call_arguments(v@, pat@, offset as int) =~= Seq::<Seq<char>>::empty());
            assert(r@.map_values(f) + Seq::<Seq<char>>::empty() =~= r@.map_values(f));
            break ;
        }
        let p = found.unwrap();
        proof {
            lemma_find_from_found(v@, pat@, offset as int);
        }
        let start = p + pat.len();
        let closing = find(v, &close, start);
        if closing.is_none() {
            assert(call_arguments(v@, pat@, offset as int) =~= Seq::<Seq<char>>::empty());
            assert(r@.map_values(f) + Seq::<Seq<char>>::empty() =~= r@.map_values(f));
            break ;
        }
        let e = closing.unwrap();
        proof {
            lemma_find_from_found(v@, close@, start as int);
        }
        let (a, b) = strip_bounds(v, start, e, CharClass::Quote);
        let ghost old_r = r@;
        r.push((a, b));
        assert(r@.map_values(f) =~= old_r.map_values(f) + seq![v@.subrange(a as int, b as int)]);
        assert forall|k: int| 0 <= k < r@.len() implies #[trigger] r@[k].0 <= r@[k].1 <= v@.len() by {
            if k < old_r.len() {
                assert(r@[k] == old_r[k]);
            }
        }
        offset = e + 1;
    }
    let ghost f = |b: (usize, usize)| v@.subrange(b.0 as int, b.1 as int);
    assert forall|k: int| 0 <= k < r@.len() implies #[trigger] r@[k].0 <= r@[k].1 <= v@.len()
        && v@.subrange(r@[k].0 as int, r@[k].1 as int) == call_arguments(v@, pat@, 0)[k] by {
        assert(r@.map_values(f)[k] == v@.subrange(r@[k].0 as int, r@[k].1 as int));
    }
    r
}

/// How a `note` argument is explained: a chord when it holds `[`, a sequence
/// of notes otherwise.
pub open spec fn note_explanation(arg: Seq<char>) -> Seq<char> {
    if arg.contains('[') {
        "Acorde "@ + arg + ": las notas entre corchetes se tocan simultáneamente."@
    } else {
        "Notas "@ + arg + ": se tocan en secuencia, de izquierda a derecha."@
    }
}

/// How a `sound` or `s` argument is explained: a rhythmic event.
pub open spec fn sound_explanation(arg: Seq<char>) -> Seq<char> {
    "Sonido "@ + arg + ": se dispara como evento rítmico."@
}

/// The explanations of a piece of Strudel code: those of its `note` calls,
/// then of its `sound` calls, then of its `s` calls, each in order.
pub open spec fn strudel_explanations(code: Seq<char>) -> Seq<Seq<char>> {
    call_arguments(code, "note("@, 0).map_values(|a: Seq<char>| note_explanation(a))
        + call_arguments(code, "sound("@, 0).map_values(|a: Seq<char>| sound_explanation(a))
        + call_arguments(code, "s("@, 0).map_values(|a: Seq<char>| sound_explanation(a))
}

/// Every call of Strudel code is explained once, in order: there are as many
/// explanations as `note`, `sound` and `s` calls together; the note calls
/// come first, each explained as notes or a chord, then every `sound` call
/// and every `s` call, each explained as the sound it fires.
pub proof fn law_each_call_is_explained_once(code: Seq<char>)
    ensures
        strudel_explanations(code).len() == call_arguments(code, "note("@, 0).len()
            + call_arguments(code, "sound("@, 0).len() + call_arguments(code, "s("@, 0).len(),
        forall|k: int|
            0 <= k < call_arguments(code, "note("@, 0).len() ==> strudel_explanations(code)[k]
                == note_explanation(#[trigger] call_arguments(code, "note("@, 0)[k]),
        forall|k: int|
            0 <= k < call_arguments(code, "sound("@, 0).len() ==> strudel_explanations(
                code,
            )[call_arguments(code, "note("@, 0).len() + k] == sound_explanation(
                #[trigger] call_arguments(code, "sound("@, 0)[k],
            ),
        forall|k: int|
            0 <= k < call_arguments(code, "s("@, 0).len() ==> strudel_explanations(
                code,
            )[call_arguments(code, "note("@, 0).len() + call_arguments(code, "sound("@, 0).len()
                + k] == sound_explanation(#[trigger] call_arguments(code, "s("@, 0)[k]),
{
}

fn push_explanations(
    code: &str,
    v: &Vec<char>,
    pat: &Vec<char>,
    is_note: bool,
    out: &mut Vec<String>,
)
    requires
        v@ == code@,
        pat@.len() >= 1,
    ensures
        final(out)@.map_values(|s: String| s@) == old(out)@.map_values(|s: String| s@)
            + call_arguments(code@, pat@, 0).map_values(
            |a: Seq<char>|
                if is_note {
                    note_explanation(a)
                } else {
                    sound_explanation(a)
                },
        ),
{
    let bounds = argument_bounds(v, pat);
    let ghost args = call_arguments(code@, pat@, 0);
    let ghost g = |a: Seq<char>|
        if is_note {
            note_explanation(a)
        } else {
            sound_explanation(a)
        };
    let ghost h = |s: String| s@;
    let ghost start = out@.map_values(h);
    let mut k: usize = 0;
    while k < bounds.len()
        invariant
            k <= bounds@.len(),
            v@ == code@,
            bounds@.len() == args.len(),
            args == call_arguments(code@, pat@, 0),
            forall|m: int|
                0 <= m < bounds@.len() ==> #[trigger] bounds@[m].0 <= bounds@[m].1 <= v@.len()
                    && v@.subrange(bounds@[m].0 as int, bounds@[m].1 as int) == args[m],
            g == (|a: Seq<char>|
                if is_note {
                    note_explanation(a)
                } else {
                    sound_explanation(a)
                }),
            h == (|s: String| s@),
            out@.map_values(h) == start + args.take(k as int).map_values(g),
        decreases bounds.len() - k,
    {
        let (a, b) = bounds[k];
        let arg = code.substring_char(a, b);
        assert(arg@ == args[k as int]);
        let mut message: String;
        if is_note {
            if range_contains(v, a, b, '[') {
                message = String::from_str("Acorde ");
                message.append(arg);
                message.append(": las notas entre corchetes se tocan simultáneamente.");
            } else {
                message = String::from_str("Notas ");
                message.append(arg);
                message.append(": se tocan en secuencia, de izquierda a derecha.");
            }
        } else {
            message = String::from_str("Sonido ");
            message.append(arg);
            message.append(": se dispara como evento rítmico.");
        }
        assert(message@ =~= g(args[k as int]));
        let ghost before = out@;
        out.push(message);
        assert(out@.map_values(h) =~= before.map_values(h) + seq![message@]);
        assert(args.take(k as int + 1).map_values(g) =~= args.take(k as int).map_values(g) + seq![
            g(args[k as int]),
        ]);
        k = k + 1;
    }
    assert(args.take(bounds@.len() as int) =~= args);
}

/// Explains, in Spanish, each `note`, `sound` and `s` call of a piece of
/// Strudel code: chords, note sequences and rhythmic sounds.
pub fn describe_strudel(code: &str) -> (r: Vec<String>)
    ensures
        r@.map_values(|s: String| s@) == strudel_explanations(code@),
{
    let v = chars_of(code);
    let mut out: Vec<String> = Vec::new();
    let note = chars_of("note(");
    let sound = chars_of("sound(");
    let s = chars_of("s(");
    proof {
        reveal_strlit("note(");
        reveal_strlit("sound(");
        reveal_strlit("s(");
    }
    push_explanations(code, &v, &note, true, &mut out);
    push_explanations(code, &v, &sound, false, &mut out);
    push_explanations(code, &v, &s, false, &mut out);
    assert(out@.map_values(|s: String| s@) =~= strudel_explanations(code@));
    out
}

// ---------------------------------------------------------------------------
// Playable events
// ---------------------------------------------------------------------------

/// What one token of Strudel code sounds.
#[derive(Debug, Clone, Copy, PartialEq, Eq, Structural)]
pub enum Pitch {
    /// A percussion sound, played as a tone of this many hertz.
    Drum(u32),
    /// A note: MIDI `12 * (octave + 1) + semitone`, where the semitone is that
    /// of its letter raised by `#` or lowered by `b` (from -1 to 12).
    Note { octave: i32, semitone: i32 },
}

/// The call that a playable event comes from.
#[derive(Debug, Clone, Copy, PartialEq, Eq, Structural)]
pub enum CallKind {
    /// A `note(...)` call; its events last 0.24 s.
    Note,
    /// A `sound(...)` call; its events last 0.16 s.
    Sound,
    /// An `s(...)` call; its events last 0.16 s.
    S,
}

/// The sound of one token: a drum for bd/bass (90 Hz), sd/snare (180 Hz),
/// hh/hihat (7000 Hz) and cp/clap (420 Hz) in any letter case; nothing for
/// silence and `~`; otherwise a note letter (either case), an optional `#` or
/// `b` and an octave number.
pub open spec fn token_pitch(t: Seq<char>) -> Option<Pitch> {
    if lowers_to_text(t, "bd"@) || lowers_to_text(t, "bass"@) {
        Some(Pitch::Drum(90))
    } else if lowers_to_text(t, "sd"@) || lowers_to_text(t, "snare"@) {
        Some(Pitch::Drum(180))
    } else if lowers_to_text(t, "hh"@) || lowers_to_text(t, "hihat"@) {
        Some(Pitch::Drum(7000))
    } else if lowers_to_text(t, "cp"@) || lowers_to_text(t, "clap"@) {
        Some(Pitch::Drum(420))
    } else if lowers_to_text(t, "silence"@) || lowers_to_text(t, "~"@) {
        None
    } else if t.len() == 0 {
        None
    } else {
        match letter_semitone(t[0]) {
            None => None,
            Some(base) => {
                let sharp = t.len() > 1 && t[1] == '#';
                let flat = t.len() > 1 && t[1] == 'b';
                let accidental: int = if sharp {
                    1
                } else if flat {
                    -1
                } else {
                    0
                };
                let digits_from: int = if sharp || flat {
                    2
                } else {
                    1
                };
                match parse_i32(t.skip(digits_from)) {
                    None => None,
                    Some(octave) => Some(
                        Pitch::Note { octave: octave as i32, semitone: (base + accidental) as i32 },
                    ),
                }
            },
        }
    }
}

/// The sounds of the tokens in `ts` that sound, in order.
pub open spec fn known_pitches(ts: Seq<Seq<char>>) -> Seq<Pitch>
    decreases ts.len(),
{
    if ts.len() == 0 {
        seq![]
    } else {
        known_pitches(ts.drop_last()) + match token_pitch(ts.last()) {
            Some(p) => seq![p],
            None => seq![],
        }
    }
}

/// The sounds of one whitespace-separated token, without its angle brackets:
/// a bracketed chord sounds each of its comma- or space-separated members at
/// once.
pub open spec fn token_pitches(token: Seq<char>) -> Seq<Pitch> {
    let t = strip(token, CharClass::Angle);
    if t.len() >= 2 && t[0] == '[' && t.last() == ']' {
        known_pitches(tokens(t.subrange(1, t.len() - 1), CharClass::CommaOrSpace))
    } else {
        match token_pitch(t) {
            Some(p) => seq![p],
            None => seq![],
        }
    }
}

/// A playable event: sounds started together, from one call.
#[derive(Debug, Clone, PartialEq, Eq)]
pub struct StrudelEvent {
    pub pitches: Vec<Pitch>,
    pub call: CallKind,
}

pub struct StrudelEventView {
    pub pitches: Seq<Pitch>,
    pub call: CallKind,
}

impl View for StrudelEvent {
    type V = StrudelEventView;

    open spec fn view(&self) -> StrudelEventView {
        StrudelEventView { pitches: self.pitches@, call: self.call }
    }
}

pub open spec fn event_views(v: Seq<StrudelEvent>) -> Seq<StrudelEventView> {
    v.map_values(|e: StrudelEvent| e@)
}

/// One event per token of `ts` that sounds.
pub open spec fn token_events(ts: Seq<Seq<char>>, call: CallKind) -> Seq<StrudelEventView>
    decreases ts.len(),
{
    if ts.len() == 0 {
        seq![]
    } else {
        token_events(ts.drop_last(), call) + if token_pitches(ts.last()).len() > 0 {
            seq![StrudelEventView { pitches: token_pitches(ts.last()), call: call }]
        } else {
            seq![]
        }
    }
}

/// The events of the calls whose arguments are `args`, argument after argument.
pub open spec fn argument_events(args: Seq<Seq<char>>, call: CallKind) -> Seq<StrudelEventView>
    decreases args.len(),
{
    if args.len() == 0 {
        seq![]
    } else {
        argument_events(args.drop_last(), call) + token_events(
            tokens(args.last(), CharClass::Space),
            call,
        )
    }
}

/// The playable events of Strudel code: those of its `note` calls, then of its
/// `sound` calls, then of its `s` calls.
pub open spec fn strudel_events(code: Seq<char>) -> Seq<StrudelEventView> {
    argument_events(call_arguments(code, "note("@, 0), CallKind::Note) + argument_events(
        call_arguments(code, "sound("@, 0),
        CallKind::Sound,
    ) + argument_events(call_arguments(code, "s("@, 0), CallKind::S)
}

/// The sound of the token `v[lo..hi]`.
pub fn parse_token(v: &Vec<char>, lo: usize, hi: usize) -> (r: Option<Pitch>)
    requires
        lo <= hi <= v@.len(),
    ensures
        r == token_pitch(v@.subrange(lo as int, hi as int)),
{
    let ghost t = v@.subrange(lo as int, hi as int);
    if range_lowers_to(v, lo, hi, "bd") || range_lowers_to(v, lo, hi, "bass") {
        return Some(Pitch::Drum(90));
    }
    if range_lowers_to(v, lo, hi, "sd") || range_lowers_to(v, lo, hi, "snare") {
        return Some(Pitch::Drum(180));
    }
    if range_lowers_to(v, lo, hi, "hh") || range_lowers_to(v, lo, hi, "hihat") {
        return Some(Pitch::Drum(7000));
    }
    if range_lowers_to(v, lo, hi, "cp") || range_lowers_to(v, lo, hi, "clap") {
        return Some(Pitch::Drum(420));
    }
    if range_lowers_to(v, lo, hi, "silence") || range_lowers_to(v, lo, hi, "~") {
        return None;
    }
    if lo == hi {
        return None;
    }
    let c = v[lo];
    let base: i32 = if c == 'c' || c == 'C' {
        0
    } else if c == 'd' || c == 'D' {
        2
    } else if c == 'e' || c == 'E' {
        4
    } else if c == 'f' || c == 'F' {
        5
    } else if c == 'g' || c == 'G' {
        7
    } else if c == 'a' || c == 'A' {
        9
    } else if c == 'b' || c == 'B' {
        11
    } else {
        return None;
    };
    let sharp = hi - lo > 1 && v[lo + 1] == '#';
    let flat = hi - lo > 1 && v[lo + 1] == 'b';
    let accidental: i32 = if sharp {
        1
    } else if flat {
        -1
    } else {
        0
    };
    let digits_from: usize = if sharp || flat {
        2
    } else {
        1
    };
    assert(t.skip(digits_from as int) =~= v@.subrange(lo + digits_from, hi as int));
    match parse_i32_range(v, lo + digits_from, hi) {
        None => None,
        Some(octave) => Some(Pitch::Note { octave, semitone: base + accidental }),
    }
}

/// The sounds of the whitespace-separated token `v[lo..hi]`.
fn parse_token_pitches(v: &Vec<char>, lo: usize, hi: usize) -> (r: Vec<Pitch>)
    requires
        lo <= hi <= v@.len(),
    ensures
        r@ == token_pitches(v@.subrange(lo as int, hi as int)),
{
    let (a, b) = strip_bounds(v, lo, hi, CharClass::Angle);
    let ghost t = v@.subrange(a as int, b as int);
    let mut r: Vec<Pitch> = Vec::new();
    if b - a >= 2 && v[a] == '[' && v[b - 1] == ']' {
        assert(t[0] == v@[a as int]);
        assert(t.last() == v@[b - 1]);
        assert(t.subrange(1, t.len() - 1) =~= v@.subrange(a + 1, b - 1));
        let members = token_bounds(v, a + 1, b - 1, CharClass::CommaOrSpace);
        let ghost ts = tokens(v@.subrange(a + 1, b - 1), CharClass::CommaOrSpace);
        let mut k: usize = 0;
        while k < members.len()
            invariant
                k <= members@.len(),
                a + 1 <= b - 1 <= v@.len(),
                members@.len() == ts.len(),
                forall|m: int|
                    0 <= m < members@.len() ==> #[trigger] within(
                        members@[m],
                        a + 1,
                        b - 1,
                    ) && v@.subrange(members@[m].0 as int, members@[m].1 as int) == ts[m],
                r@ == known_pitches(ts.take(k as int)),
            decreases members.len() - k,
        {
            let (x, y) = members[k];
            assert(within(members@[k as int], a + 1, b - 1));
            assert(ts.take(k as int + 1).drop_last() =~= ts.take(k as int));
            match parse_token(v, x, y) {
                Some(p) => {
                    r.push(p);
                },
                None => {},
            }
            k = k + 1;
        }
        assert(ts.take(members@.len() as int) =~= ts);
    } else {
        proof {
            if t.len() >= 2 {
                assert(t[0] == v@[a as int]);
                assert(t.last() == v@[b - 1]);
            }
        }
        match parse_token(v, a, b) {
            Some(p) => {
                r.push(p);
                assert(r@ =~= seq![p]);
            },
            None => {},
        }
    }
    r
}

/// Appends the events of the calls that start with `pat` to `out`.
fn push_events(v: &Vec<char>, pat: &Vec<char>, call: CallKind, out: &mut Vec<StrudelEvent>)
    requires
        pat@.len() >= 1,
    ensures
        event_views(final(out)@) == event_views(old(out)@) + argument_events(
            call_arguments(v@, pat@, 0),
            call,
        ),
{
    let args = argument_bounds(v, pat);
    let ghost all = call_arguments(v@, pat@, 0);
    let ghost start = event_views(out@);
    let mut i: usize = 0;
    while i < args.len()
        invariant
            i <= args@.len(),
            args@.len() == all.len(),
            all == call_arguments(v@, pat@, 0),
            forall|m: int|
                0 <= m < args@.len() ==> #[trigger] bounded(args@[m], v@.len()) && v@.subrange(
                    args@[m].0 as int,
                    args@[m].1 as int,
                ) == all[m],
            event_views(out@) == start + argument_events(all.take(i as int), call),
        decreases args.len() - i,
    {
        let (lo, hi) = args[i];
        assert(bounded(args@[i as int], v@.len()));
        let ghost arg = v@.subrange(lo as int, hi as int);
        let words = token_bounds(v, lo, hi, CharClass::Space);
        let ghost ts = tokens(arg, CharClass::Space);
        let ghost before = event_views(out@);
        let mut k: usize = 0;
        while k < words.len()
            invariant
                k <= words@.len(),
                lo <= hi <= v@.len(),
                arg == v@.subrange(lo as int, hi as int),
                words@.len() == ts.len(),
                forall|m: int|
                    0 <= m < words@.len() ==> #[trigger] within(words@[m], lo as int, hi as int)
                        && v@.subrange(words@[m].0 as int, words@[m].1 as int) == ts[m],
                event_views(out@) == before + token_events(ts.take(k as int), call),
            decreases words.len() - k,
        {
            let (x, y) = words[k];
            assert(within(words@[k as int], lo as int, hi as int));
            assert(ts.take(k as int + 1).drop_last() =~= ts.take(k as int));
            let pitches = parse_token_pitches(v, x, y);
            if pitches.len() > 0 {
                let e = StrudelEvent { pitches, call };
                let ghost old_out = out@;
                out.push(e);
                assert(event_views(out@) =~= event_views(old_out) + seq![e@]);
            }
            k = k + 1;
        }
        assert(ts.take(words@.len() as int) =~= ts);
        assert(all.take(i as int + 1).drop_last() =~= all.take(i as int));
        i = i + 1;
    }
    assert(all.take(args@.len() as int) =~= all);
}

/// The playable events of Strudel code, in the order in which they are played:
/// the tokens of every `note` call, then of every `sound` call, then of every
/// `s` call.
pub fn parse_strudel_events(code: &str) -> (r: Vec<StrudelEvent>)
    ensures
        event_views(r@) == strudel_events(code@),
{
    let v = chars_of(code);
    let mut out: Vec<StrudelEvent> = Vec::new();
    let note = chars_of("note(");
    let sound = chars_of("sound(");
    let s = chars_of("s(");
    proof {
        reveal_strlit("note(");
        reveal_strlit("sound(");
        reveal_strlit("s(");
    }
    push_events(&v, &note, CallKind::Note, &mut out);
    push_events(&v, &sound, CallKind::Sound, &mut out);
    push_events(&v, &s, CallKind::S, &mut out);
    assert(event_views(out@) =~= strudel_events(code@));
    out
}

} // verus!
