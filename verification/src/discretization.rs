//! The shape of a discretization grid: its axes, in order, and how many
//! uniform cells each axis is divided into, with the numbering of the cells.
use vstd::prelude::*;

use indexmap::IndexMap;

use crate::axis_maps::{
    axis_entries, entries_of, entry_names, entry_numbers, find_value, pair_views, value_of,
};
use crate::text::{join, join_texts, same_text, texts};

verus! {

/// Why a grid could not be built.
#[derive(Debug, Clone, PartialEq, Eq)]
pub enum GridError {
    /// A grid needs at least one axis.
    NoAxes,
    /// The cell indices of a point lack this axis of the grid.
    MissingIndex(String),
}

impl GridError {
    /// The message reported for this error.
    pub fn message(&self) -> (r: String)
        ensures
            r@ == match self {
                GridError::NoAxes => "grid requires at least one subdivision"@,
                GridError::MissingIndex(a) => "missing index for axis: "@ + a@,
            },
    {
        match self {
            GridError::NoAxes => String::from_str("grid requires at least one subdivision"),
            GridError::MissingIndex(a) => {
                let mut r = String::from_str("missing index for axis: ");
                r.append(a.as_str());
                r
            },
        }
    }
}

/// The axes of a grid with the number of cells along each, kept in the
/// order in which the axes were inserted.
#[derive(Debug, PartialEq, Eq)]
pub struct GridLayout {
    subdivisions: IndexMap<String, usize>,
}

/// The number of cells of a grid whose axes have `steps` cells each.
pub open spec fn product(steps: Seq<usize>) -> int
    decreases steps.len(),
{
    if steps.len() == 0 {
        1
    } else {
        steps[0] * product(steps.drop_first())
    }
}

/// The number of a cell from its index along each axis, the last axis varying
/// fastest: `indices[0] * (steps[1] * ... * steps[n-1]) + ... + indices[n-1]`.
pub open spec fn mixed_radix(indices: Seq<usize>, steps: Seq<usize>) -> int
    decreases indices.len(),
{
    if indices.len() == 0 || steps.len() == 0 {
        0
    } else {
        indices[0] * product(steps.drop_first()) + mixed_radix(
            indices.drop_first(),
            steps.drop_first(),
        )
    }
}

/// Whether every index lies within its axis.
pub open spec fn indices_within(indices: Seq<usize>, steps: Seq<usize>) -> bool {
    &&& indices.len() == steps.len()
    &&& forall|k: int| 0 <= k < indices.len() ==> #[trigger] indices[k] < steps[k]
}

/// Whether the products of the first `k` counts, for every `k`, fit in a
/// `usize`: the running total of a product taken from the first axis on.
pub open spec fn prefix_products_fit(steps: Seq<usize>) -> bool {
    forall|k: int| 0 <= k <= steps.len() ==> #[trigger] product(steps.take(k)) <= usize::MAX
}

/// Whether the products of the last counts, from every axis on, fit in a
/// `usize`: the running multiplier of a product taken from the last axis
/// back.
pub open spec fn suffix_products_fit(steps: Seq<usize>) -> bool {
    forall|k: int| 0 <= k <= steps.len() ==> #[trigger] product(steps.skip(k)) <= usize::MAX
}

proof fn lemma_product_nonneg(steps: Seq<usize>)
    ensures
        product(steps) >= 0,
    decreases steps.len(),
{
    if steps.len() > 0 {
        lemma_product_nonneg(steps.drop_first());
        assert(steps[0] * product(steps.drop_first()) >= 0) by (nonlinear_arith)
            requires
                steps[0] >= 0,
                product(steps.drop_first()) >= 0,
        ;
    }
}

proof fn lemma_product_push(steps: Seq<usize>, x: usize)
    ensures
        product(steps.push(x)) == product(steps) * x,
    decreases steps.len(),
{
    if steps.len() == 0 {
        assert(steps.push(x).drop_first() =~= Seq::<usize>::empty());
        assert(steps.push(x)[0] == x);
        assert(product(steps.push(x)) == x * product(Seq::<usize>::empty()));
    } else {
        let rest = steps.drop_first();
        assert(steps.push(x).drop_first() =~= rest.push(x));
        assert(steps.push(x)[0] == steps[0]);
        lemma_product_push(rest, x);
        assert(steps[0] * (product(rest) * x) == (steps[0] * product(rest)) * x) by (nonlinear_arith);
    }
}

/// Every cell number lies below the number of cells of the grid.
pub proof fn law_cell_number_in_range(indices: Seq<usize>, steps: Seq<usize>)
    requires
        indices_within(indices, steps),
    ensures
        0 <= mixed_radix(indices, steps) < product(steps),
    decreases indices.len(),
{
    if indices.len() > 0 {
        let rest_i = indices.drop_first();
        let rest_s = steps.drop_first();
        assert(indices_within(rest_i, rest_s)) by {
            assert forall|k: int| 0 <= k < rest_i.len() implies #[trigger] rest_i[k] < rest_s[k] by {
                assert(rest_i[k] == indices[k + 1]);
                assert(rest_s[k] == steps[k + 1]);
            }
        }
        law_cell_number_in_range(rest_i, rest_s);
        let p = product(rest_s);
        let m = mixed_radix(rest_i, rest_s);
        assert(indices[0] < steps[0]);
        assert(0 <= indices[0] * p + m < steps[0] * p) by (nonlinear_arith)
            requires
                0 <= m < p,
                0 <= indices[0] < steps[0],
        ;
    }
}

/// Distinct cells have distinct numbers: two index lists within the grid
/// with the same number are the same list.
pub proof fn law_cell_number_injective(a: Seq<usize>, b: Seq<usize>, steps: Seq<usize>)
    requires
        indices_within(a, steps),
        indices_within(b, steps),
        mixed_radix(a, steps) == mixed_radix(b, steps),
    ensures
        a == b,
    decreases a.len(),
{
    if a.len() > 0 {
        let ra = a.drop_first();
        let rb = b.drop_first();
        let rs = steps.drop_first();
        assert(indices_within(ra, rs)) by {
            assert forall|k: int| 0 <= k < ra.len() implies #[trigger] ra[k] < rs[k] by {
                assert(ra[k] == a[k + 1]);
                assert(rs[k] == steps[k + 1]);
            }
        }
        assert(indices_within(rb, rs)) by {
            assert forall|k: int| 0 <= k < rb.len() implies #[trigger] rb[k] < rs[k] by {
                assert(rb[k] == b[k + 1]);
                assert(rs[k] == steps[k + 1]);
            }
        }
        law_cell_number_in_range(ra, rs);
        law_cell_number_in_range(rb, rs);
        let p = product(rs);
        let ma = mixed_radix(ra, rs);
        let mb = mixed_radix(rb, rs);
        assert(a[0] == b[0] && ma == mb) by (nonlinear_arith)
            requires
                0 <= ma < p,
                0 <= mb < p,
                a[0] >= 0,
                b[0] >= 0,
                a[0] * p + ma == b[0] * p + mb,
        ;
        law_cell_number_injective(ra, rb, rs);
        assert(a =~= seq![a[0]] + ra);
        assert(b =~= seq![b[0]] + rb);
    } else {
        assert(a =~= b);
    }
}

proof fn lemma_tail_bounds(indices: Seq<usize>, steps: Seq<usize>, k: int)
    requires
        0 <= k <= indices.len(),
        indices.len() == steps.len(),
    ensures
        mixed_radix(indices.skip(k), steps.skip(k)) <= mixed_radix(indices, steps),
        mixed_radix(indices.skip(k), steps.skip(k)) >= 0,
    decreases k,
{
    if k == 0 {
        assert(steps.skip(0) =~= steps);
        assert(indices.skip(0) =~= indices);
        lemma_mixed_radix_nonneg(indices, steps);
    } else {
        lemma_tail_bounds(indices, steps, k - 1);
        let s1 = steps.skip(k - 1);
        let i1 = indices.skip(k - 1);
        assert(s1.drop_first() =~= steps.skip(k));
        assert(i1.drop_first() =~= indices.skip(k));
        lemma_product_nonneg(steps.skip(k));
        lemma_mixed_radix_nonneg(indices.skip(k), steps.skip(k));
        assert(i1[0] * product(steps.skip(k)) >= 0) by (nonlinear_arith)
            requires
                i1[0] >= 0,
                product(steps.skip(k)) >= 0,
        ;
    }
}

proof fn lemma_mixed_radix_nonneg(indices: Seq<usize>, steps: Seq<usize>)
    requires
        indices.len() == steps.len(),
    ensures
        mixed_radix(indices, steps) >= 0,
    decreases indices.len(),
{
    if indices.len() > 0 {
        lemma_mixed_radix_nonneg(indices.drop_first(), steps.drop_first());
        lemma_product_nonneg(steps.drop_first());
        assert(indices[0] * product(steps.drop_first()) >= 0) by (nonlinear_arith)
            requires
                indices[0] >= 0,
                product(steps.drop_first()) >= 0,
        ;
    }
}

/// The mathematical content of a grid layout.
pub struct GridView {
    pub axes: Seq<Seq<char>>,
    pub steps: Seq<usize>,
}

impl View for GridLayout {
    type V = GridView;

    closed spec fn view(&self) -> GridView {
        GridView {
            axes: entry_names(axis_entries(self.subdivisions)),
            steps: entry_numbers(axis_entries(self.subdivisions)),
        }
    }
}

/// Whether axis `k` is the last of `axes` that has no index among `given`.
pub open spec fn last_unindexed(
    axes: Seq<Seq<char>>,
    given: Seq<(Seq<char>, usize)>,
    k: int,
) -> bool {
    &&& value_of(given, axes[k]) is None
    &&& forall|m: int| k < m < axes.len() ==> #[trigger] value_of(given, axes[m]) is Some
}

impl GridLayout {
    #[verifier::type_invariant]
    closed spec fn well_formed(self) -> bool {
        axis_entries(self.subdivisions).len() >= 1
    }

    /// A grid with the axes of `subdivisions`, in their order, each divided
    /// into the number of cells stored for it. A grid needs an axis.
    pub fn new(subdivisions: IndexMap<String, usize>) -> (r: Result<GridLayout, GridError>)
        ensures
            r is Ok <==> axis_entries(subdivisions).len() >= 1,
            r matches Ok(g) ==> g@.axes == entry_names(axis_entries(subdivisions)) && g@.steps
                == entry_numbers(axis_entries(subdivisions)),
            r matches Err(e) ==> e == GridError::NoAxes,
    {
        let entries = entries_of(&subdivisions);
        if entries.len() == 0 {
            return Err(GridError::NoAxes);
        }
        Ok(GridLayout { subdivisions })
    }

    /// The axes of the grid and the number of cells along each, in order.
    fn parts(&self) -> (r: (Vec<String>, Vec<usize>))
        ensures
            texts(r.0@) == self@.axes,
            r.1@ == self@.steps,
            self@.axes.len() >= 1,
            self@.axes.len() == self@.steps.len(),
            self@.axes.no_duplicates(),
    {
        proof {
            use_type_invariant(self);
        }
        let entries = entries_of(&self.subdivisions);
        let ghost e = pair_views(entries@);
        let ghost names = entry_names(e);
        let ghost numbers = entry_numbers(e);
        let mut axes: Vec<String> = Vec::new();
        let mut steps: Vec<usize> = Vec::new();
        let mut i: usize = 0;
        while i < entries.len()
            invariant
                i <= entries@.len(),
                e == pair_views(entries@),
                names == entry_names(e),
                numbers == entry_numbers(e),
                texts(axes@) == names.take(i as int),
                steps@ == numbers.take(i as int),
            decreases entries.len() - i,
        {
            assert(numbers[i as int] == entries@[i as int].1);
            assert(names[i as int] == entries@[i as int].0@);
            let ghost old_axes = axes@;
            axes.push(entries[i].0.clone());
            steps.push(entries[i].1);
            assert(texts(axes@) =~= names.take(i as int + 1)) by {
                assert(texts(axes@) =~= texts(old_axes) + seq![names[i as int]]);
            }
            assert(steps@ =~= numbers.take(i as int + 1));
            i = i + 1;
        }
        assert(names.take(entries@.len() as int) =~= names);
        assert(numbers.take(entries@.len() as int) =~= numbers);
        (axes, steps)
    }

    /// The axes of the grid, in order.
    pub fn axes(&self) -> (r: Vec<String>)
        ensures
            texts(r@) == self@.axes,
            self@.axes.len() >= 1,
            self@.axes.len() == self@.steps.len(),
            self@.axes.no_duplicates(),
    {
        self.parts().0
    }

    /// The number of cells along each axis, in order.
    pub fn steps(&self) -> (r: Vec<usize>)
        ensures
            r@ == self@.steps,
    {
        self.parts().1
    }

    /// The number of cells of the grid, multiplied from the first axis on.
    pub fn total_cells(&self) -> (r: usize)
        requires
            prefix_products_fit(self@.steps),
        ensures
            r == product(self@.steps),
    {
        let steps = self.steps();
        let n = steps.len();
        let mut i: usize = 0;
        let mut total: usize = 1;
        assert(steps@.take(0) =~= Seq::<usize>::empty());
        while i < n
            invariant
                i <= n,
                n == steps@.len(),
                prefix_products_fit(steps@),
                total == product(steps@.take(i as int)),
            decreases n - i,
        {
            proof {
                assert(steps@.take(i as int + 1) =~= steps@.take(i as int).push(steps@[i as int]));
                lemma_product_push(steps@.take(i as int), steps@[i as int]);
                assert(product(steps@.take(i as int + 1)) <= usize::MAX);
            }
            total = total * steps[i];
            i = i + 1;
        }
        assert(steps@.take(n as int) =~= steps@);
        total
    }

    /// The number of the cell with the given index along each axis, the last
    /// axis varying fastest.
    pub fn cell_id(&self, indices: &Vec<usize>) -> (r: usize)
        requires
            indices@.len() == self@.steps.len(),
            suffix_products_fit(self@.steps),
            mixed_radix(indices@, self@.steps) <= usize::MAX,
        ensures
            r == mixed_radix(indices@, self@.steps),
    {
        let steps = self.steps();
        let n = steps.len();
        let mut k: usize = n;
        let mut cell: usize = 0;
        let mut multiplier: usize = 1;
        assert(steps@.skip(n as int) =~= Seq::<usize>::empty());
        assert(indices@.skip(n as int) =~= Seq::<usize>::empty());
        while k > 0
            invariant
                k <= n,
                n == steps@.len(),
                n == indices@.len(),
                suffix_products_fit(steps@),
                mixed_radix(indices@, steps@) <= usize::MAX,
                multiplier == product(steps@.skip(k as int)),
                cell == mixed_radix(indices@.skip(k as int), steps@.skip(k as int)),
            decreases k,
        {
            proof {
                lemma_tail_bounds(indices@, steps@, k as int - 1);
                lemma_tail_bounds(indices@, steps@, k as int);
                lemma_product_nonneg(steps@.skip(k as int));
                assert(steps@.skip(k as int - 1).drop_first() =~= steps@.skip(k as int));
                assert(indices@.skip(k as int - 1).drop_first() =~= indices@.skip(k as int));
                assert(product(steps@.skip(k as int - 1)) <= usize::MAX);
            }
            k = k - 1;
            assert(multiplier * steps@[k as int] == steps@.skip(k as int)[0] * product(
                steps@.skip(k as int + 1),
            )) by (nonlinear_arith)
                requires
                    multiplier == product(steps@.skip(k as int + 1)),
                    steps@.skip(k as int)[0] == steps@[k as int],
            ;
            assert(indices@.skip(k as int)[0] == indices@[k as int]);
            cell = cell + indices[k] * multiplier;
            multiplier = multiplier * steps[k];
        }
        assert(steps@.skip(0) =~= steps@);
        assert(indices@.skip(0) =~= indices@);
        cell
    }

    /// The number of the cell with the given index along each axis, or `None`
    /// when a running multiplier or the cell's number does not fit in a
    /// `usize`.
    pub fn cell_id_checked(&self, indices: &Vec<usize>) -> (r: Option<usize>)
        requires
            indices@.len() == self@.steps.len(),
        ensures
            r is Some <==> suffix_products_fit(self@.steps) && mixed_radix(indices@, self@.steps)
                <= usize::MAX,
            r matches Some(c) ==> c == mixed_radix(indices@, self@.steps),
    {
        let steps = self.steps();
        let n = steps.len();
        let mut k: usize = n;
        let mut cell: usize = 0;
        let mut multiplier: usize = 1;
        assert(steps@.skip(n as int) =~= Seq::<usize>::empty());
        assert(indices@.skip(n as int) =~= Seq::<usize>::empty());
        while k > 0
            invariant
                k <= n,
                n == steps@.len(),
                n == indices@.len(),
                steps@ == self@.steps,
                forall|j: int| k <= j <= n ==> #[trigger] product(steps@.skip(j)) <= usize::MAX,
                multiplier == product(steps@.skip(k as int)),
                cell == mixed_radix(indices@.skip(k as int), steps@.skip(k as int)),
            decreases k,
        {
            proof {
                lemma_tail_bounds(indices@, steps@, k as int - 1);
                lemma_tail_bounds(indices@, steps@, k as int);
                lemma_product_nonneg(steps@.skip(k as int));
                assert(steps@.skip(k as int - 1).drop_first() =~= steps@.skip(k as int));
                assert(indices@.skip(k as int - 1).drop_first() =~= indices@.skip(k as int));
            }
            k = k - 1;
            assert(multiplier * steps@[k as int] == steps@.skip(k as int)[0] * product(
                steps@.skip(k as int + 1),
            )) by (nonlinear_arith)
                requires
                    multiplier == product(steps@.skip(k as int + 1)),
                    steps@.skip(k as int)[0] == steps@[k as int],
            ;
            assert(indices@.skip(k as int)[0] == indices@[k as int]);
            assert(cell >= 0);
            assert(mixed_radix(indices@.skip(k as int), steps@.skip(k as int)) == indices@[k as int]
                * multiplier + cell);
            assert(mixed_radix(indices@.skip(k as int), steps@.skip(k as int)) <= mixed_radix(
                indices@,
                steps@,
            ));
            let term = match indices[k].checked_mul(multiplier) {
                Some(t) => t,
                None => {
                    return None;
                },
            };
            cell = match cell.checked_add(term) {
                Some(c) => c,
                None => return None,
            };
            assert(product(steps@.skip(k as int)) == multiplier * steps@[k as int]);
            multiplier = match multiplier.checked_mul(steps[k]) {
                Some(m) => m,
                None => {
                    assert(product(steps@.skip(k as int)) > usize::MAX);
                    assert(!suffix_products_fit(steps@));
                    return None;
                },
            };
        }
        assert(steps@.skip(0) =~= steps@);
        assert(indices@.skip(0) =~= indices@);
        Some(cell)
    }

    /// The index of each axis of the grid, in order, read from the cell
    /// indices of a point; when some axis has none, the last such axis of the
    /// grid is reported.
    pub fn aligned_indices(&self, indices: &IndexMap<String, usize>) -> (r: Result<
        Vec<usize>,
        GridError,
    >)
        ensures
            r is Ok <==> forall|k: int|
                0 <= k < self@.axes.len() ==> #[trigger] value_of(
                    axis_entries(*indices),
                    self@.axes[k],
                ) is Some,
            r matches Ok(v) ==> v@.len() == self@.axes.len() && forall|k: int|
                0 <= k < self@.axes.len() ==> value_of(axis_entries(*indices), self@.axes[k])
                    == Some(#[trigger] v@[k]),
            r matches Err(e) ==> exists|k: int|
                0 <= k < self@.axes.len() && #[trigger] last_unindexed(
                    self@.axes,
                    axis_entries(*indices),
                    k,
                ) && (e matches GridError::MissingIndex(a) && a@ == self@.axes[k]),
    {
        let entries = entries_of(indices);
        let axes = self.axes();
        let ghost names = texts(axes@);
        let ghost given = axis_entries(*indices);
        let n = axes.len();
        let mut k: usize = n;
        while k > 0
            invariant
                k <= n,
                n == axes@.len(),
                names == texts(axes@),
                names == self@.axes,
                given == axis_entries(*indices),
                pair_views(entries@) == given,
                forall|m: int| k <= m < n ==> #[trigger] value_of(given, names[m]) is Some,
            decreases k,
        {
            k = k - 1;
            assert(names[k as int] == axes@[k as int]@);
            if find_value(&entries, axes[k].as_str()).is_none() {
                assert(last_unindexed(names, given, k as int));
                return Err(GridError::MissingIndex(axes[k].clone()));
            }
        }
        let mut v: Vec<usize> = Vec::new();
        let mut i: usize = 0;
        while i < n
            invariant
                i <= n,
                n == axes@.len(),
                names == texts(axes@),
                names == self@.axes,
                given == axis_entries(*indices),
                pair_views(entries@) == given,
                forall|m: int| 0 <= m < n ==> #[trigger] value_of(given, names[m]) is Some,
                v@.len() == i,
                forall|m: int| 0 <= m < i ==> value_of(given, names[m]) == Some(#[trigger] v@[m]),
            decreases n - i,
        {
            assert(names[i as int] == axes@[i as int]@);
            let found = find_value(&entries, axes[i].as_str());
            assert(value_of(given, names[i as int]) is Some);
            let index = match found {
                Some(x) => x,
                None => {
                    assert(false);
                    0
                },
            };
            v.push(index);
            i = i + 1;
        }
        Ok(v)
    }

    /// The axes of the grid that `provided` lacks, in order.
    pub fn missing_axes(&self, provided: &[&str]) -> (r: Vec<String>)
        ensures
            texts(r@) == self@.axes.filter(
                |a: Seq<char>| !provided@.map_values(|p: &str| p@).contains(a),
            ),
    {
        let ghost given = provided@.map_values(|p: &str| p@);
        let ghost keep = |a: Seq<char>| !given.contains(a);
        let axes = self.axes();
        let ghost names = texts(axes@);
        let mut r: Vec<String> = Vec::new();
        let mut i: usize = 0;
        while i < axes.len()
            invariant
                i <= axes@.len(),
                names == texts(axes@),
                given == provided@.map_values(|p: &str| p@),
                keep == (|a: Seq<char>| !given.contains(a)),
                texts(r@) == names.take(i as int).filter(keep),
            decreases axes.len() - i,
        {
            let name = &axes[i];
            let mut found = false;
            let mut j: usize = 0;
            while j < provided.len()
                invariant
                    j <= provided@.len(),
                    i < axes@.len(),
                    *name == axes@[i as int],
                    given == provided@.map_values(|p: &str| p@),
                    found <==> exists|k: int| 0 <= k < j && given[k] == name@,
                decreases provided.len() - j,
            {
                assert(given[j as int] == provided@[j as int]@);
                if same_text(provided[j], name.as_str()) {
                    found = true;
                }
                j = j + 1;
            }
            assert(names[i as int] == name@);
            assert(names.take(i as int + 1).drop_last() =~= names.take(i as int));
            proof {
                reveal_with_fuel(Seq::<_>::filter, 1);
                if given.contains(name@) {
                    let k = choose|k: int| 0 <= k < given.len() && given[k] == name@;
                    assert(found);
                }
            }
            if !found {
                let ghost before = r@;
                r.push(name.clone());
                assert(texts(r@) =~= texts(before) + seq![name@]);
            }
            i = i + 1;
        }
        assert(names.take(axes@.len() as int) =~= names);
        r
    }
}

/// The message for a coordinate system that lacks axes of the grid.
pub open spec fn missing_axes_message(missing: Seq<Seq<char>>) -> Seq<char> {
    "coordinate system does not provide axes: "@ + join(missing, ", "@)
}

/// The message reported when a coordinate system lacks the axes `missing`.
pub fn missing_axes_text(missing: &Vec<String>) -> (r: String)
    ensures
        r@ == missing_axes_message(texts(missing@)),
{
    let mut r = String::from_str("coordinate system does not provide axes: ");
    let list = join_texts(missing, ", ");
    r.append(list.as_str());
    r
}

} // verus!
