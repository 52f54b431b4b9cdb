//! Character-level text handling shared by the musical and parsing modules.
//!
//! Text is read as a sequence of `char`s; every operation here is stated over
//! `Seq<char>` so that callers can describe their results exactly.
use vstd::prelude::*;

verus! {

/// The Unicode `White_Space` property, which `char::is_whitespace` tests.
pub open spec fn is_space(c: char) -> bool {
    ||| ('\u{9}' <= c && c <= '\u{d}')
    ||| c == ' '
    ||| c == '\u{85}'
    ||| c == '\u{a0}'
    ||| c == '\u{1680}'
    ||| ('\u{2000}' <= c && c <= '\u{200a}')
    ||| c == '\u{2028}'
    ||| c == '\u{2029}'
    ||| c == '\u{202f}'
    ||| c == '\u{205f}'
    ||| c == '\u{3000}'
}

/// A set of characters that can be stripped from both ends of a text.
#[derive(Debug, Clone, Copy, PartialEq, Eq, Structural)]
pub enum CharClass {
    /// Unicode white space (what `str::trim` removes).
    Space,
    /// Double and single quotes.
    Quote,
    /// Angle brackets `<` and `>`.
    Angle,
    /// Commas and Unicode white space.
    CommaOrSpace,
}

pub open spec fn in_class(c: char, class: CharClass) -> bool {
    match class {
        CharClass::Space => is_space(c),
        CharClass::Quote => c == '"' || c == '\'',
        CharClass::Angle => c == '<' || c == '>',
        CharClass::CommaOrSpace => c == ',' || is_space(c),
    }
}

/// `s` without its leading characters of `class`.
pub open spec fn strip_start(s: Seq<char>, class: CharClass) -> Seq<char>
    decreases s.len(),
{
    if s.len() > 0 && in_class(s[0], class) {
        strip_start(s.drop_first(), class)
    } else {
        s
    }
}

/// `s` without its trailing characters of `class`.
pub open spec fn strip_end(s: Seq<char>, class: CharClass) -> Seq<char>
    decreases s.len(),
{
    if s.len() > 0 && in_class(s.last(), class) {
        strip_end(s.drop_last(), class)
    } else {
        s
    }
}

/// `s` without the characters of `class` at either end (`str::trim`,
/// `str::trim_matches`).
pub open spec fn strip(s: Seq<char>, class: CharClass) -> Seq<char> {
    strip_end(strip_start(s, class), class)
}

/// Whether `c` is one of the characters of `class`.
pub fn class_contains(c: char, class: CharClass) -> (r: bool)
    ensures
        r == in_class(c, class),
{
    let space = ('\u{9}' <= c && c <= '\u{d}') || c == ' ' || c == '\u{85}' || c == '\u{a0}' || c
        == '\u{1680}' || ('\u{2000}' <= c && c <= '\u{200a}') || c == '\u{2028}' || c == '\u{2029}'
        || c == '\u{202f}' || c == '\u{205f}' || c == '\u{3000}';
    match class {
        CharClass::Space => {
            ('\u{9}' <= c && c <= '\u{d}') || c == ' ' || c == '\u{85}' || c == '\u{a0}' || c
                == '\u{1680}' || ('\u{2000}' <= c && c <= '\u{200a}') || c == '\u{2028}' || c
                == '\u{2029}' || c == '\u{202f}' || c == '\u{205f}' || c == '\u{3000}'
        },
        CharClass::Quote => c == '"' || c == '\'',
        CharClass::Angle => c == '<' || c == '>',
        CharClass::CommaOrSpace => c == ',' || space,
    }
}

/// The characters of `s`, in order.
pub fn chars_of(s: &str) -> (v: Vec<char>)
    ensures
        v@ == s@,
{
    let mut v: Vec<char> = Vec::new();
    for c in it: s.chars()
        invariant
            v@ == it.seq().take(it.index() as int),
            it.seq() == s@,
    {
        v.push(c);
    }
    v
}

/// Whether `a` and `b` hold the same characters.
pub fn same_text(a: &str, b: &str) -> (r: bool)
    ensures
        r == (a@ == b@),
{
    let x = chars_of(a);
    let y = chars_of(b);
    if x.len() != y.len() {
        return false;
    }
    let mut i: usize = 0;
    while i < x.len()
        invariant
            x@ == a@,
            y@ == b@,
            x@.len() == y@.len(),
            i <= x@.len(),
            forall|k: int| 0 <= k < i ==> x@[k] == y@[k],
        decreases x.len() - i,
    {
        if x[i] != y[i] {
            return false;
        }
        i = i + 1;
    }
    assert(x@ =~= y@);
    true
}

/// The bounds, inside `v[lo..hi]`, of that range with the characters of
/// `class` removed from both ends.
pub fn strip_bounds(v: &Vec<char>, lo: usize, hi: usize, class: CharClass) -> (r: (usize, usize))
    requires
        lo <= hi <= v@.len(),
    ensures
        lo <= r.0 <= r.1 <= hi,
        v@.subrange(r.0 as int, r.1 as int) == strip(v@.subrange(lo as int, hi as int), class),
{
    let mut i: usize = lo;
    while i < hi && class_contains(v[i], class)
        invariant
            lo <= i <= hi <= v@.len(),
            strip_start(v@.subrange(lo as int, hi as int), class) == strip_start(
                v@.subrange(i as int, hi as int),
                class,
            ),
        decreases hi - i,
    {
        assert(v@.subrange(i as int, hi as int).drop_first() =~= v@.subrange(
            i as int + 1,
            hi as int,
        ));
        i = i + 1;
    }
    let mut j: usize = hi;
    while j > i && class_contains(v[j - 1], class)
        invariant
            lo <= i <= j <= hi <= v@.len(),
            strip_start(v@.subrange(lo as int, hi as int), class) == v@.subrange(
                i as int,
                hi as int,
            ),
            strip_end(v@.subrange(i as int, hi as int), class) == strip_end(
                v@.subrange(i as int, j as int),
                class,
            ),
        decreases j - i,
    {
        assert(v@.subrange(i as int, j as int).drop_last() =~= v@.subrange(
            i as int,
            j as int - 1,
        ));
        j = j - 1;
    }
    (i, j)
}

/// Whether `pat` occurs in `s` at position `i`.
pub open spec fn occurs_at(s: Seq<char>, pat: Seq<char>, i: int) -> bool {
    &&& 0 <= i
    &&& i + pat.len() <= s.len()
    &&& forall|k: int| 0 <= k < pat.len() ==> s[i + k] == pat[k]
}

/// The first position at or after `i` where `pat` occurs in `s` (`str::find`
/// on `&s[i..]`, with the offset added back).
pub open spec fn find_from(s: Seq<char>, pat: Seq<char>, i: int) -> Option<int>
    decreases s.len() - i,
{
    if i < 0 || i + pat.len() > s.len() {
        None
    } else if occurs_at(s, pat, i) {
        Some(i)
    } else if i >= s.len() {
        None
    } else {
        find_from(s, pat, i + 1)
    }
}

pub proof fn lemma_find_from_found(s: Seq<char>, pat: Seq<char>, i: int)
    requires
        find_from(s, pat, i) is Some,
    ensures
        i <= find_from(s, pat, i)->0,
        occurs_at(s, pat, find_from(s, pat, i)->0),
    decreases s.len() - i,
{
    if i < 0 || i + pat.len() > s.len() {
    } else if occurs_at(s, pat, i) {
    } else if i >= s.len() {
    } else {
        lemma_find_from_found(s, pat, i + 1);
    }
}

/// Whether `pat` occurs in `v` at position `i`.
pub fn occurs_at_exec(v: &Vec<char>, pat: &Vec<char>, i: usize) -> (r: bool)
    ensures
        r == occurs_at(v@, pat@, i as int),
{
    let n: usize = v.len();
    if i > n || pat.len() > n - i {
        return false;
    }
    let mut k: usize = 0;
    while k < pat.len()
        invariant
            n == v@.len(),
            i + pat@.len() <= v@.len(),
            k <= pat@.len(),
            forall|m: int| 0 <= m < k ==> v@[i + m] == pat@[m],
        decreases pat.len() - k,
    {
        if v[i + k] != pat[k] {
            return false;
        }
        k = k + 1;
    }
    true
}

/// The first position at or after `from` where `pat` occurs in `v`.
pub fn find(v: &Vec<char>, pat: &Vec<char>, from: usize) -> (r: Option<usize>)
    ensures
        r matches Some(p) ==> find_from(v@, pat@, from as int) == Some(p as int),
        r is None ==> find_from(v@, pat@, from as int) is None,
{
    let mut i: usize = from;
    loop
        invariant
            from <= i,
            find_from(v@, pat@, from as int) == find_from(v@, pat@, i as int),
        decreases v@.len() + 1 - i,
    {
        if i > v.len() || pat.len() > v.len() - i {
            return None;
        }
        if occurs_at_exec(v, pat, i) {
            return Some(i);
        }
        if i >= v.len() {
            return None;
        }
        i = i + 1;
    }
}

/// Whether `c` occurs in `v[lo..hi]`.
pub fn range_contains(v: &Vec<char>, lo: usize, hi: usize, c: char) -> (r: bool)
    requires
        lo <= hi <= v@.len(),
    ensures
        r == v@.subrange(lo as int, hi as int).contains(c),
{
    let mut i: usize = lo;
    while i < hi
        invariant
            lo <= i <= hi <= v@.len(),
            forall|m: int| lo <= m < i ==> v@[m] != c,
        decreases hi - i,
    {
        if v[i] == c {
            assert(v@.subrange(lo as int, hi as int)[i - lo] == c);
            return true;
        }
        i = i + 1;
    }
    assert forall|m: int| 0 <= m < hi - lo implies v@.subrange(lo as int, hi as int)[m] != c by {
        assert(v@[lo + m] != c);
    }
    false
}

/// The character of a decimal digit `d` (`0 <= d < 10`).
pub open spec fn digit_char(d: int) -> char {
    if d == 0 {
        '0'
    } else if d == 1 {
        '1'
    } else if d == 2 {
        '2'
    } else if d == 3 {
        '3'
    } else if d == 4 {
        '4'
    } else if d == 5 {
        '5'
    } else if d == 6 {
        '6'
    } else if d == 7 {
        '7'
    } else if d == 8 {
        '8'
    } else {
        '9'
    }
}

/// The decimal writing of `n`, without leading zeros (`usize::to_string`).
pub open spec fn decimal(n: nat) -> Seq<char>
    decreases n,
{
    if n < 10 {
        seq![digit_char(n as int)]
    } else {
        decimal(n / 10) + seq![digit_char((n % 10) as int)]
    }
}

/// The decimal writing of `i`, with a minus sign when it is negative
/// (`i32::to_string`).
pub open spec fn signed_decimal(i: int) -> Seq<char> {
    if i < 0 {
        seq!['-'] + decimal((-i) as nat)
    } else {
        decimal(i as nat)
    }
}

fn digit_str(d: usize) -> (s: &'static str)
    requires
        d < 10,
    ensures
        s@ == seq![digit_char(d as int)],
{
    proof {
        reveal_strlit("0");
        reveal_strlit("1");
        reveal_strlit("2");
        reveal_strlit("3");
        reveal_strlit("4");
        reveal_strlit("5");
        reveal_strlit("6");
        reveal_strlit("7");
        reveal_strlit("8");
        reveal_strlit("9");
    }
    if d == 0 {
        "0"
    } else if d == 1 {
        "1"
    } else if d == 2 {
        "2"
    } else if d == 3 {
        "3"
    } else if d == 4 {
        "4"
    } else if d == 5 {
        "5"
    } else if d == 6 {
        "6"
    } else if d == 7 {
        "7"
    } else if d == 8 {
        "8"
    } else {
        "9"
    }
}

/// Appends the decimal writing of `n` to `out`.
pub fn push_decimal(out: &mut String, n: usize)
    ensures
        final(out)@ == old(out)@ + decimal(n as nat),
    decreases n,
{
    if n < 10 {
        out.append(digit_str(n));
    } else {
        push_decimal(out, n / 10);
        out.append(digit_str(n % 10));
        assert(final(out)@ =~= old(out)@ + decimal(n as nat));
    }
}

/// Appends the decimal writing of `i` to `out`, with a minus sign when negative.
pub fn push_signed_decimal(out: &mut String, i: i32)
    ensures
        final(out)@ == old(out)@ + signed_decimal(i as int),
{
    proof {
        reveal_strlit("-");
    }
    if i < 0 {
        out.append("-");
        let magnitude: i64 = -(i as i64);
        push_decimal(out, magnitude as usize);
        assert(final(out)@ =~= old(out)@ + signed_decimal(i as int));
    } else {
        push_decimal(out, i as usize);
    }
}

/// The value of the digits `d`, all of which are ASCII digits.
pub open spec fn digits_value(d: Seq<char>) -> int
    decreases d.len(),
{
    if d.len() == 0 {
        0
    } else {
        digits_value(d.drop_last()) * 10 + (d.last() as int - '0' as int)
    }
}

pub open spec fn all_digits(d: Seq<char>) -> bool {
    forall|k: int| 0 <= k < d.len() ==> '0' <= #[trigger] d[k] && d[k] <= '9'
}

/// What `str::parse::<i32>` gives for `s`: an optional sign followed by at
/// least one ASCII digit, with a value that fits in `i32`.
pub open spec fn parse_i32(s: Seq<char>) -> Option<int> {
    if s.len() == 0 {
        None
    } else {
        let negative = s[0] == '-';
        let digits = if s[0] == '-' || s[0] == '+' {
            s.drop_first()
        } else {
            s
        };
        if digits.len() == 0 || !all_digits(digits) {
            None
        } else {
            let value = if negative {
                -digits_value(digits)
            } else {
                digits_value(digits)
            };
            if i32::MIN <= value <= i32::MAX {
                Some(value)
            } else {
                None
            }
        }
    }
}

proof fn lemma_digits_value_nonneg(d: Seq<char>)
    requires
        all_digits(d),
    ensures
        digits_value(d) >= 0,
    decreases d.len(),
{
    if d.len() > 0 {
        assert(all_digits(d.drop_last())) by {
            assert forall|k: int| 0 <= k < d.drop_last().len() implies '0' <= #[trigger] d.drop_last()[k]
                && d.drop_last()[k] <= '9' by {
                assert(d.drop_last()[k] == d[k]);
            }
        }
        lemma_digits_value_nonneg(d.drop_last());
        assert('0' <= d[d.len() - 1]);
    }
}

/// The value of `v[lo..hi]` read as a decimal `i32` (`str::parse::<i32>`).
pub fn parse_i32_range(v: &Vec<char>, lo: usize, hi: usize) -> (r: Option<i32>)
    requires
        lo <= hi <= v@.len(),
    ensures
        r matches Some(x) ==> parse_i32(v@.subrange(lo as int, hi as int)) == Some(x as int),
        r is None ==> parse_i32(v@.subrange(lo as int, hi as int)) is None,
{
    let ghost s = v@.subrange(lo as int, hi as int);
    if lo == hi {
        return None;
    }
    let negative = v[lo] == '-';
    let start: usize = if v[lo] == '-' || v[lo] == '+' {
        lo + 1
    } else {
        lo
    };
    let ghost digits = v@.subrange(start as int, hi as int);
    assert(digits =~= (if s[0] == '-' || s[0] == '+' {
        s.drop_first()
    } else {
        s
    }));
    if start == hi {
        assert(digits.len() == 0);
        assert(s.len() > 0);
        return None;
    }
    // The magnitude is bounded by 2^31 while it is tracked exactly.
    let limit: u64 = 0x8000_0000;
    let mut magnitude: u64 = 0;
    let mut overflow = false;
    let mut i: usize = start;
    while i < hi
        invariant
            lo <= start <= i <= hi <= v@.len(),
            limit == 0x8000_0000,
            digits == v@.subrange(start as int, hi as int),
            s == v@.subrange(lo as int, hi as int),
            s.len() > 0,
            negative == (s[0] == '-'),
            digits == (if s[0] == '-' || s[0] == '+' {
                s.drop_first()
            } else {
                s
            }),
            all_digits(v@.subrange(start as int, i as int)),
            !overflow ==> magnitude == digits_value(v@.subrange(start as int, i as int)),
            !overflow ==> magnitude <= limit,
            overflow ==> digits_value(v@.subrange(start as int, i as int)) > limit,
        decreases hi - i,
    {
        let c = v[i];
        if !('0' <= c && c <= '9') {
            assert(digits[i - start] == c);
            return None;
        }
        let d: u64 = (c as u32 - '0' as u32) as u64;
        let ghost prefix = v@.subrange(start as int, i as int);
        let ghost next = v@.subrange(start as int, i as int + 1);
        assert(next.drop_last() =~= prefix);
        assert(next.last() == c);
        assert(all_digits(next)) by {
            assert forall|k: int| 0 <= k < next.len() implies '0' <= #[trigger] next[k] && next[k]
                <= '9' by {
                if k < prefix.len() {
                    assert(next[k] == prefix[k]);
                }
            }
        }
        proof {
            lemma_digits_value_nonneg(prefix);
        }
        if !overflow {
            let candidate: u64 = magnitude * 10 + d;
            if candidate > limit {
                overflow = true;
            } else {
                magnitude = candidate;
            }
        }
        i = i + 1;
    }
    assert(v@.subrange(start as int, i as int) =~= digits);
    if overflow {
        return None;
    }
    if negative {
        let value: i64 = -(magnitude as i64);
        Some(value as i32)
    } else {
        if magnitude > 0x7fff_ffff {
            return None;
        }
        Some(magnitude as i32)
    }
}

/// The views of a sequence of strings.
pub open spec fn texts(v: Seq<String>) -> Seq<Seq<char>> {
    v.map_values(|s: String| s@)
}

/// `parts` joined with `sep` between consecutive parts (`slice::join`).
pub open spec fn join(parts: Seq<Seq<char>>, sep: Seq<char>) -> Seq<char>
    decreases parts.len(),
{
    if parts.len() == 0 {
        seq![]
    } else if parts.len() == 1 {
        parts[0]
    } else {
        join(parts.drop_last(), sep) + sep + parts.last()
    }
}

/// The strings of `parts` joined with `sep` between consecutive ones.
pub fn join_texts(parts: &Vec<String>, sep: &str) -> (r: String)
    ensures
        r@ == join(texts(parts@), sep@),
{
    let mut r = String::new();
    let ghost views = texts(parts@);
    let mut i: usize = 0;
    while i < parts.len()
        invariant
            i <= parts@.len(),
            views == texts(parts@),
            r@ == join(views.take(i as int), sep@),
        decreases parts.len() - i,
    {
        assert(views.take(i as int + 1).drop_last() =~= views.take(i as int));
        if i > 0 {
            r.append(sep);
        }
        r.append(parts[i].as_str());
        proof {
            if i == 0 {
                assert(r@ =~= join(views.take(1), sep@));
            }
        }
        i = i + 1;
    }
    assert(views.take(parts@.len() as int) =~= views);
    r
}

/// The number of maximal runs of non-space characters in `s`
/// (`str::split_whitespace().count()`).
pub open spec fn word_count(s: Seq<char>) -> nat
    decreases s.len(),
{
    if s.len() == 0 {
        0
    } else {
        word_count(s.drop_last()) + if !is_space(s.last()) && (s.len() == 1 || is_space(
            s[s.len() - 2],
        )) {
            1nat
        } else {
            0nat
        }
    }
}

/// The number of whitespace-separated words of `s`.
pub fn count_words(s: &str) -> (n: usize)
    ensures
        n == word_count(s@),
{
    let v = chars_of(s);
    let mut n: usize = 0;
    let mut i: usize = 0;
    while i < v.len()
        invariant
            v@ == s@,
            i <= v@.len(),
            n <= i,
            n == word_count(v@.take(i as int)),
        decreases v.len() - i,
    {
        assert(v@.take(i as int + 1).drop_last() =~= v@.take(i as int));
        let starts = !class_contains(v[i], CharClass::Space) && (i == 0 || class_contains(
            v[i - 1],
            CharClass::Space,
        ));
        if starts {
            n = n + 1;
        }
        i = i + 1;
    }
    assert(v@.take(v@.len() as int) =~= v@);
    n
}

/// The number of leading characters of `s` that are not in `class`.
pub open spec fn lead_len(s: Seq<char>, class: CharClass) -> nat
    decreases s.len(),
{
    if s.len() == 0 || in_class(s[0], class) {
        0
    } else {
        1 + lead_len(s.drop_first(), class)
    }
}

pub proof fn lemma_lead_len_bounds(s: Seq<char>, class: CharClass)
    ensures
        lead_len(s, class) <= s.len(),
        s.len() > 0 && !in_class(s[0], class) ==> lead_len(s, class) >= 1,
    decreases s.len(),
{
    if s.len() > 0 && !in_class(s[0], class) {
        lemma_lead_len_bounds(s.drop_first(), class);
    }
}

/// The maximal runs of characters outside `class` in `s`, in order
/// (`str::split_whitespace`, or `str::split` on a class with the empty pieces
/// left out).
pub open spec fn tokens(s: Seq<char>, class: CharClass) -> Seq<Seq<char>>
    decreases s.len(),
{
    if s.len() == 0 {
        seq![]
    } else if in_class(s[0], class) {
        tokens(s.drop_first(), class)
    } else {
        let w = lead_len(s, class);
        proof {
            lemma_lead_len_bounds(s, class);
        }
        seq![s.take(w as int)] + tokens(s.skip(w as int), class)
    }
}

/// The bounds of the tokens of `v[lo..hi]` separated by `class`.
pub fn token_bounds(v: &Vec<char>, lo: usize, hi: usize, class: CharClass) -> (r: Vec<
    (usize, usize),
>)
    requires
        lo <= hi <= v@.len(),
    ensures
        r@.len() == tokens(v@.subrange(lo as int, hi as int), class).len(),
        forall|k: int|
            0 <= k < r@.len() ==> #[trigger] within(r@[k], lo as int, hi as int) && v@.subrange(
                r@[k].0 as int,
                r@[k].1 as int,
            ) == tokens(v@.subrange(lo as int, hi as int), class)[k],
{
    let ghost f = |b: (usize, usize)| v@.subrange(b.0 as int, b.1 as int);
    let mut r: Vec<(usize, usize)> = Vec::new();
    let mut i: usize = lo;
    while i < hi
        invariant
            lo <= i <= hi <= v@.len(),
            f == (|b: (usize, usize)| v@.subrange(b.0 as int, b.1 as int)),
            tokens(v@.subrange(lo as int, hi as int), class) == r@.map_values(f) + tokens(
                v@.subrange(i as int, hi as int),
                class,
            ),
            forall|k: int| 0 <= k < r@.len() ==> #[trigger] within(r@[k], lo as int, hi as int),
        decreases hi - i,
    {
        let ghost rest = v@.subrange(i as int, hi as int);
        if class_contains(v[i], class) {
            assert(rest.drop_first() =~= v@.subrange(i as int + 1, hi as int));
            i = i + 1;
        } else {
            let mut j: usize = i + 1;
            assert(rest.drop_first() =~= v@.subrange(i as int + 1, hi as int));
            while j < hi && !class_contains(v[j], class)
                invariant
                    i < j <= hi <= v@.len(),
                    rest == v@.subrange(i as int, hi as int),
                    lead_len(rest, class) == (j - i) + lead_len(
                        v@.subrange(j as int, hi as int),
                        class,
                    ),
                decreases hi - j,
            {
                assert(v@.subrange(j as int, hi as int).drop_first() =~= v@.subrange(
                    j as int + 1,
                    hi as int,
                ));
                j = j + 1;
            }
            assert(lead_len(v@.subrange(j as int, hi as int), class) == 0);
            assert(rest.take(j - i) =~= v@.subrange(i as int, j as int));
            assert(rest.skip(j - i) =~= v@.subrange(j as int, hi as int));
            let ghost old_r = r@;
            r.push((i, j));
            assert(r@.map_values(f) =~= old_r.map_values(f) + seq![v@.subrange(i as int, j as int)]);
            assert forall|k: int| 0 <= k < r@.len() implies #[trigger] within(
                r@[k],
                lo as int,
                hi as int,
            ) by {
                if k < old_r.len() {
                    assert(r@[k] == old_r[k]);
                }
            }
            i = j;
        }
    }
    assert(tokens(v@.subrange(i as int, hi as int), class) =~= Seq::<Seq<char>>::empty());
    assert forall|k: int| 0 <= k < r@.len() implies #[trigger] within(r@[k], lo as int, hi as int)
        && v@.subrange(r@[k].0 as int, r@[k].1 as int) == tokens(
        v@.subrange(lo as int, hi as int),
        class,
    )[k] by {
        assert(r@.map_values(f)[k] == v@.subrange(r@[k].0 as int, r@[k].1 as int));
    }
    r
}

/// Whether range `b` lies within `lo..hi`.
pub open spec fn within(b: (usize, usize), lo: int, hi: int) -> bool {
    lo <= b.0 <= b.1 <= hi
}

/// Whether `c` lowered to ASCII lower case is `w`, for a lower-case `w`.
pub open spec fn lowers_to(c: char, w: char) -> bool {
    c == w || ('a' <= w && w <= 'z' && c as int == w as int - 32)
}

/// Whether `s` lowered to ASCII lower case equals `word`, a text without
/// ASCII upper-case letters (`s.to_ascii_lowercase() == word`).
pub open spec fn lowers_to_text(s: Seq<char>, word: Seq<char>) -> bool {
    &&& s.len() == word.len()
    &&& forall|k: int| 0 <= k < s.len() ==> lowers_to(#[trigger] s[k], word[k])
}

/// Whether `v[lo..hi]` lowered to ASCII lower case equals `word`.
pub fn range_lowers_to(v: &Vec<char>, lo: usize, hi: usize, word: &str) -> (r: bool)
    requires
        lo <= hi <= v@.len(),
    ensures
        r == lowers_to_text(v@.subrange(lo as int, hi as int), word@),
{
    let w = chars_of(word);
    if hi - lo != w.len() {
        return false;
    }
    let mut k: usize = 0;
    while k < w.len()
        invariant
            w@ == word@,
            lo <= hi <= v@.len(),
            hi - lo == w@.len(),
            k <= w@.len(),
            forall|m: int| 0 <= m < k ==> lowers_to(v@[lo + m], w@[m]),
        decreases w.len() - k,
    {
        let c = v[lo + k];
        let x = w[k];
        let ok = c == x || ('a' <= x && x <= 'z' && 'A' <= c && c <= 'Z' && c as u32 == x as u32 - 32);
        if !ok {
            assert(v@.subrange(lo as int, hi as int)[k as int] == c);
            return false;
        }
        k = k + 1;
    }
    assert forall|m: int| 0 <= m < hi - lo implies lowers_to(
        #[trigger] v@.subrange(lo as int, hi as int)[m],
        word@[m],
    ) by {
        assert(v@.subrange(lo as int, hi as int)[m] == v@[lo + m]);
    }
    true
}

proof fn lemma_digit_char(d: int)
    requires
        0 <= d < 10,
    ensures
        '0' <= digit_char(d) <= '9',
        digit_char(d) as int - '0' as int == d,
{
}

/// The decimal writing of `n` is a non-empty run of digits whose value is `n`.
pub proof fn lemma_decimal_digits(n: nat)
    ensures
        decimal(n).len() >= 1,
        all_digits(decimal(n)),
        digits_value(decimal(n)) == n,
    decreases n,
{
    if n < 10 {
        lemma_digit_char(n as int);
        let d = decimal(n);
        assert(d.drop_last() =~= Seq::<char>::empty());
        assert(digits_value(d.drop_last()) == 0);
        assert(d.last() == digit_char(n as int));
        assert(digits_value(d) == digits_value(d.drop_last()) * 10 + (d.last() as int - '0' as int));
    } else {
        lemma_decimal_digits(n / 10);
        lemma_digit_char((n % 10) as int);
        let d = decimal(n);
        let head = decimal(n / 10);
        assert(d.drop_last() =~= head);
        assert(d.last() == digit_char((n % 10) as int));
        assert forall|k: int| 0 <= k < d.len() implies '0' <= #[trigger] d[k] && d[k] <= '9' by {
            if k < head.len() {
                assert(d[k] == head[k]);
            }
        }
        assert((n / 10) * 10 + n % 10 == n) by (nonlinear_arith);
        assert(digits_value(d) == digits_value(head) * 10 + (n % 10));
    }
}

/// Reading back the decimal writing of an `i32` gives the same number.
pub proof fn lemma_parse_signed_decimal(x: int)
    requires
        i32::MIN <= x <= i32::MAX,
    ensures
        parse_i32(signed_decimal(x)) == Some(x),
{
    if x < 0 {
        let s = signed_decimal(x);
        let d = decimal((-x) as nat);
        lemma_decimal_digits((-x) as nat);
        assert(s.drop_first() =~= d);
        assert(s[0] == '-');
    } else {
        let d = decimal(x as nat);
        lemma_decimal_digits(x as nat);
        assert('0' <= d[0] && d[0] <= '9');
    }
}

/// The pieces of `s` between occurrences of `sep` (`str::split` with a
/// character): one more piece than there are separators, empty pieces kept.
pub open spec fn split_on(s: Seq<char>, sep: char) -> Seq<Seq<char>>
    decreases s.len(),
{
    if s.len() == 0 {
        seq![seq![]]
    } else {
        let init = split_on(s.drop_last(), sep);
        if s.last() == sep {
            init.push(seq![])
        } else {
            init.update(init.len() - 1, init.last().push(s.last()))
        }
    }
}

/// The pieces of `fields` with the white space at their ends trimmed.
pub open spec fn trimmed(fields: Seq<Seq<char>>) -> Seq<Seq<char>> {
    fields.map_values(|f: Seq<char>| strip(f, CharClass::Space))
}

/// The pieces of `text` between occurrences of `sep`, each trimmed.
pub fn split_trimmed(text: &str, sep: char) -> (r: Vec<String>)
    ensures
        texts(r@) == trimmed(split_on(text@, sep)),
{
    let v = chars_of(text);
    let n = v.len();
    let mut out: Vec<String> = Vec::new();
    let ghost mut raw: Seq<Seq<char>> = seq![];
    let mut start: usize = 0;
    let mut i: usize = 0;
    assert(v@.take(0) =~= Seq::<char>::empty());
    assert(v@.subrange(0, 0) =~= Seq::<char>::empty());
    while i < n
        invariant
            start <= i <= n,
            n == v@.len(),
            v@ == text@,
            split_on(v@.take(i as int), sep) == raw.push(v@.subrange(start as int, i as int)),
            texts(out@) == trimmed(raw),
        decreases n - i,
    {
        let ghost t = v@.take(i as int + 1);
        assert(t.drop_last() =~= v@.take(i as int));
        assert(t.last() == v@[i as int]);
        if v[i] == sep {
            let (lo, hi) = strip_bounds(&v, start, i, CharClass::Space);
            let piece = text.substring_char(lo, hi);
            let ghost before = out@;
            out.push(String::from_str(piece));
            proof {
                let field = v@.subrange(start as int, i as int);
                assert(texts(out@) =~= texts(before).push(strip(field, CharClass::Space)));
                assert(trimmed(raw.push(field)) =~= trimmed(raw).push(strip(field, CharClass::Space)));
                raw = raw.push(field);
                assert(v@.subrange(i as int + 1, i as int + 1) =~= Seq::<char>::empty());
            }
            start = i + 1;
        } else {
            proof {
                let field = v@.subrange(start as int, i as int);
                let init = raw.push(field);
                assert(init.len() - 1 == raw.len());
                assert(v@.subrange(start as int, i as int + 1) =~= field.push(v@[i as int]));
                assert(init.update(init.len() - 1, init.last().push(v@[i as int])) =~= raw.push(
                    v@.subrange(start as int, i as int + 1),
                ));
            }
        }
        i = i + 1;
    }
    let (lo, hi) = strip_bounds(&v, start, n, CharClass::Space);
    let piece = text.substring_char(lo, hi);
    let ghost before = out@;
    out.push(String::from_str(piece));
    proof {
        let field = v@.subrange(start as int, n as int);
        assert(v@.take(n as int) =~= v@);
        assert(texts(out@) =~= texts(before).push(strip(field, CharClass::Space)));
        assert(trimmed(raw.push(field)) =~= trimmed(raw).push(strip(field, CharClass::Space)));
    }
    out
}

} // verus!
