use fractal_music::cases::{CaseBook, StoredCase};

fn identifiers(book: &CaseBook<u32>) -> Vec<String> {
    book.cases().iter().map(|c| c.identifier.clone()).collect()
}

fn store(book: &mut CaseBook<u32>, signature: &str, payload: u32) -> usize {
    book.store(String::from(signature), false, payload)
}

#[test]
fn new_cases_are_numbered_from_one() {
    let mut book: CaseBook<u32> = CaseBook::new();
    assert_eq!(book.counter(), 0);
    assert_eq!(book.next_case(), (1, String::from("case-001")));
    book.add(String::from("logistic r=3.2"), 7);
    book.add(String::from("cosine x0=1"), 8);
    assert_eq!(book.counter(), 2);
    assert_eq!(identifiers(&book), vec!["case-001", "case-002"]);
    assert_eq!(book.cases()[1].signature, "cosine x0=1");
    assert_eq!(book.cases()[1].payload, 8);
}

#[test]
fn storing_a_known_recurrence_finds_it() {
    let mut book: CaseBook<u32> = CaseBook::new();
    assert_eq!(store(&mut book, "a", 1), 0);
    assert_eq!(store(&mut book, "b", 2), 1);
    assert_eq!(store(&mut book, "a", 3), 0);
    assert_eq!(book.cases().len(), 2);
    assert_eq!(book.find_signature("b"), Some(1));
    assert_eq!(book.find_signature("c"), None);
    book.add(String::from("a"), 4);
    assert_eq!(book.find_signature("a"), Some(0));
}

#[test]
fn deleting_keeps_the_unselected_cases_in_order() {
    let mut book: CaseBook<u32> = CaseBook::new();
    for (signature, payload) in [("a", 1), ("b", 2), ("c", 3), ("d", 4)] {
        store(&mut book, signature, payload);
    }
    book.delete_selected(&vec![String::from("case-002"), String::from("case-004"), String::from("case-009")]);
    assert_eq!(identifiers(&book), vec!["case-001", "case-003"]);
    assert_eq!(book.counter(), 4);
    book.delete_selected(&vec![]);
    assert_eq!(identifiers(&book), vec!["case-001", "case-003"]);
    assert_eq!(book.next_case().1, "case-005");
}

#[test]
fn clearing_restarts_the_numbering() {
    let mut book: CaseBook<u32> = CaseBook::new();
    store(&mut book, "a", 1);
    store(&mut book, "b", 2);
    book.clear();
    assert!(book.cases().is_empty());
    assert_eq!(book.counter(), 0);
    assert_eq!(book.next_case().1, "case-001");
}

#[test]
fn restored_books_resume_after_their_cases() {
    let cases = vec![
        StoredCase { identifier: String::from("case-001"), signature: String::from("a"), payload: 1u32 },
        StoredCase { identifier: String::from("case-003"), signature: String::from("b"), payload: 2u32 },
    ];
    let book = CaseBook::restored(cases);
    assert_eq!(book.counter(), 2);
    assert_eq!(book.next_case().1, "case-003");
    assert_eq!(book.find_signature("b"), Some(1));
}

#[test]
fn forcing_a_new_case_adds_it_again() {
    let mut book: CaseBook<u32> = CaseBook::new();
    assert!(book.stores_new("a", false));
    assert_eq!(store(&mut book, "a", 1), 0);
    assert!(!book.stores_new("a", false));
    assert!(book.stores_new("a", true));
    assert_eq!(book.store(String::from("a"), true, 2), 1);
    assert_eq!(identifiers(&book), vec!["case-001", "case-002"]);
    assert_eq!(book.cases()[1].payload, 2);
    // Found again, the first case is given back and nothing is added.
    assert_eq!(store(&mut book, "a", 3), 0);
    assert_eq!(book.cases().len(), 2);
    assert_eq!(book.counter(), 2);
}
