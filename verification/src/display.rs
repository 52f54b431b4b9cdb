//! Choices made when showing results: the language of the interface, the
//! points kept when a trajectory is too long to draw whole, and how the cell
//! indices of a point are written.
use vstd::prelude::*;

use indexmap::IndexMap;

use crate::axis_maps::{axis_entries, entries_of, pair_views};
use crate::text::{decimal, join, join_texts, push_decimal, texts};

verus! {

/// The languages of the interface.
#[derive(Debug, Clone, Copy, PartialEq, Eq, Structural)]
pub enum Language {
    Spanish,
    English,
}

/// The text for `language` among its Spanish and English versions.
pub fn localized<'a>(language: Language, spanish: &'a str, english: &'a str) -> (r: &'a str)
    ensures
        r == (match language {
            Language::Spanish => spanish,
            Language::English => english,
        }),
{
    match language {
        Language::Spanish => spanish,
        Language::English => english,
    }
}

/// The positions kept of `count` points when at most `maximum` are drawn:
/// all of them when they fit (or when `maximum < 2`), otherwise `maximum`
/// positions spread evenly from the first to the last, position `k` being
/// `k * (count - 1) / (maximum - 1)` rounded down.
pub open spec fn kept_positions(count: int, maximum: int) -> Seq<int> {
    if count <= maximum || maximum < 2 {
        Seq::new(count as nat, |k: int| k)
    } else {
        Seq::new(maximum as nat, |k: int| k * (count - 1) / (maximum - 1))
    }
}

/// The points drawn of `points` when at most `maximum` are drawn.
pub fn thin_points<T: Copy>(points: &Vec<T>, maximum: usize) -> (r: Vec<T>)
    requires
        maximum >= 2 && points@.len() > maximum ==> (maximum - 1) * (points@.len() - 1)
            <= usize::MAX,
    ensures
        r@ == kept_positions(points@.len() as int, maximum as int).map_values(
            |k: int| points@[k],
        ),
{
    let n = points.len();
    let ghost positions = kept_positions(n as int, maximum as int);
    let ghost f = |k: int| points@[k];
    let mut r: Vec<T> = Vec::new();
    if n <= maximum || maximum < 2 {
        let mut i: usize = 0;
        while i < n
            invariant
                i <= n,
                n == points@.len(),
                n <= maximum || maximum < 2,
                positions == kept_positions(n as int, maximum as int),
                f == (|k: int| points@[k]),
                r@ == positions.take(i as int).map_values(f),
            decreases n - i,
        {
            r.push(points[i]);
            assert(r@ =~= positions.take(i as int + 1).map_values(f));
            i = i + 1;
        }
        assert(positions.take(n as int) =~= positions);
        return r;
    }
    let last = n - 1;
    let mut k: usize = 0;
    while k < maximum
        invariant
            k <= maximum,
            maximum >= 2,
            n == points@.len(),
            n > maximum,
            last == n - 1,
            (maximum - 1) * last <= usize::MAX,
            positions == kept_positions(n as int, maximum as int),
            f == (|k: int| points@[k]),
            r@ == positions.take(k as int).map_values(f),
        decreases maximum - k,
    {
        assert(k * last <= (maximum - 1) * last) by (nonlinear_arith)
            requires
                k <= maximum - 1,
        ;
        let index = k * last / (maximum - 1);
        assert(index <= last) by (nonlinear_arith)
            requires
                k <= maximum - 1,
                maximum >= 2,
                index == k * last / (maximum - 1),
        ;
        assert(positions[k as int] == index);
        r.push(points[index]);
        assert(r@ =~= positions.take(k as int + 1).map_values(f));
        k = k + 1;
    }
    assert(positions.take(maximum as int) =~= positions);
    r
}

/// When points are thinned, exactly `maximum` of them are kept, in
/// increasing order of position, starting with the first point and ending
/// with the last.
pub proof fn law_thinning_keeps_ends(count: int, maximum: int)
    requires
        count > maximum >= 2,
    ensures
        kept_positions(count, maximum).len() == maximum,
        kept_positions(count, maximum)[0] == 0,
        kept_positions(count, maximum)[maximum - 1] == count - 1,
        forall|k: int|
            0 <= k < maximum - 1 ==> #[trigger] kept_positions(count, maximum)[k] < kept_positions(
                count,
                maximum,
            )[k + 1],
        forall|k: int|
            0 <= k < maximum ==> 0 <= #[trigger] kept_positions(count, maximum)[k] < count,
{
    let q = maximum - 1;
    let l = count - 1;
    assert((q * l) / q == l) by (nonlinear_arith)
        requires
            q >= 1,
    ;
    assert forall|k: int| 0 <= k < maximum - 1 implies #[trigger] kept_positions(count, maximum)[k]
        < kept_positions(count, maximum)[k + 1] by {
        assert(k * l / q < (k + 1) * l / q) by (nonlinear_arith)
            requires
                q >= 1,
                l >= q + 1,
                k >= 0,
        {
            assert((k + 1) * l == k * l + l);
            assert(k * l + l >= k * l + q);
            assert((k * l + q) / q == k * l / q + 1);
        }
    }
    assert forall|k: int| 0 <= k < maximum implies 0 <= #[trigger] kept_positions(count, maximum)[k]
        < count by {
        assert(0 <= k * l / q <= l) by (nonlinear_arith)
            requires
                q >= 1,
                l >= 0,
                0 <= k <= q,
        {
            assert(k * l <= q * l);
        }
    }
}

/// How one axis of a cell is shown: `axis=index`.
pub open spec fn index_entry(e: (Seq<char>, usize)) -> Seq<char> {
    e.0 + "="@ + decimal(e.1 as nat)
}

/// How the cell indices of a point are shown: `-` when the point has none,
/// otherwise `axis=index` for each axis, in order, separated by `, `.
pub open spec fn index_mapping_text(mapping: Option<Seq<(Seq<char>, usize)>>) -> Seq<char> {
    match mapping {
        None => "-"@,
        Some(m) => join(m.map_values(|e: (Seq<char>, usize)| index_entry(e)), ", "@),
    }
}

/// Shows the cell indices of a point, axis by axis.
pub fn format_index_mapping(mapping: Option<&IndexMap<String, usize>>) -> (r: String)
    ensures
        r@ == index_mapping_text(
            match mapping {
                Some(m) => Some(axis_entries(*m)),
                None => None,
            },
        ),
{
    proof {
        reveal_strlit("=");
        reveal_strlit("-");
    }
    match mapping {
        None => String::from_str("-"),
        Some(map) => {
            let m = entries_of(map);
            let ghost views = pair_views(m@);
            let ghost entries = views.map_values(|e: (Seq<char>, usize)| index_entry(e));
            let mut parts: Vec<String> = Vec::new();
            let mut i: usize = 0;
            while i < m.len()
                invariant
                    i <= m@.len(),
                    views == pair_views(m@),
                    entries == views.map_values(|e: (Seq<char>, usize)| index_entry(e)),
                    texts(parts@) == entries.take(i as int),
                decreases m.len() - i,
            {
                let pair = &m[i];
                assert(views[i as int] == (pair.0@, pair.1));
                let mut entry = pair.0.clone();
                entry.append("=");
                push_decimal(&mut entry, pair.1);
                assert(entry@ == entries[i as int]);
                let ghost before = parts@;
                parts.push(entry);
                assert(texts(parts@) =~= texts(before).push(entries[i as int]));
                assert(entries.take(i as int + 1) =~= entries.take(i as int).push(entries[i as int]));
                i = i + 1;
            }
            assert(entries.take(m@.len() as int) =~= entries);
            join_texts(&parts, ", ")
        },
    }
}

} // verus!
