//! The book of explored cases: each stored case has an identifier numbered
//! from a running counter and a signature that tells its recurrence apart, so
//! that storing a recurrence already in the book finds it instead of adding
//! it again, unless a new case is forced; cases can be deleted by identifier
//! or all cleared.
use vstd::prelude::*;

use crate::session::{case_identifier, case_identifier_text};
use crate::text::same_text;

verus! {

/// A stored case: its identifier, the signature of its recurrence and what
/// else is kept of it.
pub struct StoredCase<T> {
    pub identifier: String,
    pub signature: String,
    pub payload: T,
}

/// The cases stored so far, in order, with the counter that numbers new ones.
pub struct CaseBook<T> {
    cases: Vec<StoredCase<T>>,
    counter: usize,
}

pub struct CaseBookView<T> {
    pub cases: Seq<StoredCase<T>>,
    pub counter: nat,
}

impl<T> View for CaseBook<T> {
    type V = CaseBookView<T>;

    closed spec fn view(&self) -> CaseBookView<T> {
        CaseBookView { cases: self.cases@, counter: self.counter as nat }
    }
}

/// The position of the first case whose recurrence has `signature`.
pub open spec fn first_with_signature<T>(cases: Seq<StoredCase<T>>, signature: Seq<char>) -> Option<
    int,
>
    decreases cases.len(),
{
    if cases.len() == 0 {
        None
    } else {
        match first_with_signature(cases.drop_last(), signature) {
            Some(i) => Some(i),
            None => if cases.last().signature@ == signature {
                Some(cases.len() - 1)
            } else {
                None
            },
        }
    }
}

/// Whether a case is kept when the cases with the `selected` identifiers are
/// deleted.
pub open spec fn unselected<T>(selected: Seq<Seq<char>>) -> spec_fn(StoredCase<T>) -> bool {
    |c: StoredCase<T>| !selected.contains(c.identifier@)
}

/// The identifiers of a list of strings.
pub open spec fn identifier_views(v: Seq<String>) -> Seq<Seq<char>> {
    v.map_values(|s: String| s@)
}

impl<T> CaseBook<T> {
    /// An empty book whose first case will be numbered 1.
    pub fn new() -> (r: Self)
        ensures
            r@.cases == Seq::<StoredCase<T>>::empty(),
            r@.counter == 0,
    {
        CaseBook { cases: Vec::new(), counter: 0 }
    }

    /// A book holding the cases of an imported session, in order; the counter
    /// resumes at the number of cases.
    pub fn restored(cases: Vec<StoredCase<T>>) -> (r: Self)
        ensures
            r@.cases == cases@,
            r@.counter == cases@.len(),
    {
        let counter = cases.len();
        CaseBook { cases, counter }
    }

    /// The stored cases, in order.
    pub fn cases(&self) -> (r: &Vec<StoredCase<T>>)
        ensures
            r@ == self@.cases,
    {
        &self.cases
    }

    /// The number of the last case added (0 before any).
    pub fn counter(&self) -> (r: usize)
        ensures
            r == self@.counter,
    {
        self.counter
    }

    /// The position of the first stored case whose recurrence has `signature`.
    pub fn find_signature(&self, signature: &str) -> (r: Option<usize>)
        ensures
            r matches Some(i) ==> first_with_signature(self@.cases, signature@) == Some(i as int),
            r is None ==> first_with_signature(self@.cases, signature@) is None,
    {
        let mut i: usize = 0;
        while i < self.cases.len()
            invariant
                i <= self.cases@.len(),
                first_with_signature(self.cases@.take(i as int), signature@) is None,
            decreases self.cases.len() - i,
        {
            assert(self.cases@.take(i as int + 1).drop_last() =~= self.cases@.take(i as int));
            if same_text(self.cases[i].signature.as_str(), signature) {
                assert(first_with_signature(self.cases@, signature@) == Some(i as int)) by {
                    lemma_first_with_prefix(self.cases@, signature@, i as int + 1);
                }
                return Some(i);
            }
            i = i + 1;
        }
        assert(self.cases@.take(i as int) =~= self.cases@);
        None
    }

    /// The number and identifier the next added case gets.
    pub fn next_case(&self) -> (r: (usize, String))
        requires
            self@.counter < usize::MAX,
        ensures
            r.0 == self@.counter + 1,
            r.1@ == case_identifier_text(self@.counter + 1),
    {
        let number = self.counter + 1;
        (number, case_identifier(number))
    }

    /// Adds a case with the next number, whose recurrence has `signature`.
    pub fn add(&mut self, signature: String, payload: T)
        requires
            old(self)@.counter < usize::MAX,
        ensures
            final(self)@.counter == old(self)@.counter + 1,
            final(self)@.cases.len() == old(self)@.cases.len() + 1,
            final(self)@.cases.drop_last() == old(self)@.cases,
            final(self)@.cases.last().identifier@ == case_identifier_text(old(self)@.counter + 1),
            final(self)@.cases.last().signature@ == signature@,
            final(self)@.cases.last().payload == payload,
    {
        self.counter = self.counter + 1;
        let identifier = case_identifier(self.counter);
        self.cases.push(StoredCase { identifier, signature, payload });
        assert(self.cases@.drop_last() =~= old(self)@.cases);
    }

    /// Whether storing a recurrence with `signature` adds a case: when a new
    /// case is forced, or no stored case has that signature.
    pub fn stores_new(&self, signature: &str, force_new: bool) -> (r: bool)
        ensures
            r == (force_new || first_with_signature(self@.cases, signature@) is None),
    {
        force_new || self.find_signature(signature).is_none()
    }

    /// Stores a recurrence with `signature`: unless a new case is forced, the
    /// first stored case with that signature is found and the book is left
    /// as it is; otherwise `payload` is added as the next case. Gives the
    /// position of the case found or added.
    pub fn store(&mut self, signature: String, force_new: bool, payload: T) -> (r: usize)
        requires
            force_new || first_with_signature(old(self)@.cases, signature@) is None ==> old(
                self,
            )@.counter < usize::MAX,
        ensures
            !force_new && first_with_signature(old(self)@.cases, signature@) is Some ==> {
                &&& first_with_signature(old(self)@.cases, signature@) == Some(r as int)
                &&& final(self)@ == old(self)@
            },
            force_new || first_with_signature(old(self)@.cases, signature@) is None ==> {
                &&& r == old(self)@.cases.len()
                &&& final(self)@.counter == old(self)@.counter + 1
                &&& final(self)@.cases.drop_last() == old(self)@.cases
                &&& final(self)@.cases.len() == old(self)@.cases.len() + 1
                &&& final(self)@.cases.last().identifier@ == case_identifier_text(
                    old(self)@.counter + 1,
                )
                &&& final(self)@.cases.last().signature@ == signature@
                &&& final(self)@.cases.last().payload == payload
            },
    {
        if !force_new {
            match self.find_signature(signature.as_str()) {
                Some(i) => {
                    return i;
                },
                None => {},
            }
        }
        let position = self.cases.len();
        self.add(signature, payload);
        position
    }

    /// Deletes the cases whose identifiers are `selected`; the others stay, in
    /// order, and the counter is kept.
    pub fn delete_selected(&mut self, selected: &Vec<String>)
        ensures
            final(self)@.counter == old(self)@.counter,
            final(self)@.cases == old(self)@.cases.filter(
                unselected::<T>(identifier_views(selected@)),
            ),
    {
        let ghost chosen = identifier_views(selected@);
        let ghost keep = unselected::<T>(chosen);
        let ghost initial = self.cases@;
        let mut rest: Vec<StoredCase<T>> = Vec::new();
        std::mem::swap(&mut rest, &mut self.cases);
        let mut kept: Vec<StoredCase<T>> = Vec::new();
        let ghost mut k: int = 0;
        assert(initial.skip(0) =~= initial);
        while rest.len() > 0
            invariant
                0 <= k <= initial.len(),
                rest@ == initial.skip(k),
                kept@ == initial.take(k).filter(keep),
                chosen == identifier_views(selected@),
                keep == unselected::<T>(chosen),
            decreases rest.len(),
        {
            let case = rest.remove(0);
            assert(case == initial[k]);
            let mut found = false;
            let mut j: usize = 0;
            while j < selected.len()
                invariant
                    j <= selected@.len(),
                    chosen == identifier_views(selected@),
                    found <==> exists|m: int| 0 <= m < j && chosen[m] == case.identifier@,
                decreases selected.len() - j,
            {
                assert(chosen[j as int] == selected@[j as int]@);
                if same_text(selected[j].as_str(), case.identifier.as_str()) {
                    found = true;
                }
                j = j + 1;
            }
            proof {
                assert(initial.take(k + 1).drop_last() =~= initial.take(k));
                assert(initial.take(k + 1).last() == case);
                reveal_with_fuel(Seq::<_>::filter, 1);
                if chosen.contains(case.identifier@) {
                    let m = choose|m: int| 0 <= m < chosen.len() && chosen[m] == case.identifier@;
                    assert(found);
                }
                assert(keep(case) == !found);
                assert(initial.skip(k + 1) =~= initial.skip(k).remove(0));
            }
            if !found {
                kept.push(case);
            }
            proof {
                k = k + 1;
            }
        }
        assert(k == initial.len());
        assert(initial.take(k) =~= initial);
        self.cases = kept;
    }

    /// Deletes every case and restarts the numbering.
    pub fn clear(&mut self)
        ensures
            final(self)@.cases == Seq::<StoredCase<T>>::empty(),
            final(self)@.counter == 0,
    {
        self.cases = Vec::new();
        self.counter = 0;
    }
}

proof fn lemma_first_with_prefix<T>(cases: Seq<StoredCase<T>>, signature: Seq<char>, n: int)
    requires
        0 <= n <= cases.len(),
        first_with_signature(cases.take(n), signature) is Some,
    ensures
        first_with_signature(cases, signature) == first_with_signature(cases.take(n), signature),
    decreases cases.len() - n,
{
    if n < cases.len() {
        assert(cases.take(n + 1).drop_last() =~= cases.take(n));
        lemma_first_with_prefix(cases, signature, n + 1);
    } else {
        assert(cases.take(n) =~= cases);
    }
}

/// Storing a recurrence that is not yet in the book and then looking its
/// signature up finds the case just added; looking up any signature already
/// in the book still finds the same case.
pub proof fn law_added_case_is_found<T>(
    cases: Seq<StoredCase<T>>,
    added: StoredCase<T>,
    signature: Seq<char>,
)
    ensures
        first_with_signature(cases, signature) is Some ==> first_with_signature(
            cases.push(added),
            signature,
        ) == first_with_signature(cases, signature),
        first_with_signature(cases, added.signature@) is None ==> first_with_signature(
            cases.push(added),
            added.signature@,
        ) == Some(cases.len() as int),
{
    assert(cases.push(added).drop_last() =~= cases);
}

/// After deleting the selected cases, no remaining case has a selected
/// identifier, and every case that was not selected remains.
pub proof fn law_delete_keeps_exactly_the_unselected<T>(
    cases: Seq<StoredCase<T>>,
    selected: Seq<Seq<char>>,
)
    ensures
        forall|k: int|
            0 <= k < cases.filter(unselected::<T>(selected)).len() ==> !selected.contains(
                #[trigger] cases.filter(unselected::<T>(selected))[k].identifier@,
            ),
        forall|k: int|
            0 <= k < cases.len() && !selected.contains(#[trigger] cases[k].identifier@)
                ==> cases.filter(unselected::<T>(selected)).contains(cases[k]),
{
    let keep = unselected::<T>(selected);
    assert forall|k: int|
        0 <= k < cases.filter(keep).len() implies !selected.contains(
        #[trigger] cases.filter(keep)[k].identifier@,
    ) by {
        cases.filter_lemma(keep);
        assert(keep(cases.filter(keep)[k]));
    }
    assert forall|k: int|
        0 <= k < cases.len() && !selected.contains(#[trigger] cases[k].identifier@) implies cases.filter(
        keep,
    ).contains(cases[k]) by {
        cases.filter_lemma(keep);
        assert(keep(cases[k]));
    }
}

} // verus!
