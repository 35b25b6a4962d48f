use term_prep_plus::catalog::{
    choose_source, directory_usable, exam_sources, is_exam_source, DirectoryOutcome,
    SelectionError,
};

#[test]
fn a_source_is_a_file_with_the_json_extension() {
    for name in ["a.json", "rust basics.json", "x.y.json", "..json", "é.json"] {
        assert!(is_exam_source(name));
    }
}

#[test]
fn other_files_are_no_sources() {
    let others =
        ["", "json", ".json", "a.JSON", "a.Json", "a.json.bak", "a.jso", "ajson", "a.json "];
    for name in others {
        assert!(!is_exam_source(name));
    }
}

#[test]
fn sources_are_listed_in_the_order_of_the_directory() {
    let names: Vec<String> = ["notes.txt", "b.json", ".json", "a.json", "readme", "c.json"]
        .iter()
        .map(|s| s.to_string())
        .collect();
    assert_eq!(exam_sources(&names), vec![1, 3, 5]);
    assert_eq!(exam_sources(&Vec::new()), Vec::<usize>::new());
    assert_eq!(exam_sources(&vec!["a.txt".to_string()]), Vec::<usize>::new());
}

#[test]
fn a_source_is_picked_by_its_number_counted_from_one() {
    assert_eq!(choose_source("1", 3), Ok(0));
    assert_eq!(choose_source("2", 3), Ok(1));
    assert_eq!(choose_source("3", 3), Ok(2));
    assert_eq!(choose_source("+2", 3), Ok(1));
    assert_eq!(choose_source("1", 1), Ok(0));
}

#[test]
fn a_number_outside_the_listing_is_refused() {
    for line in ["0", "4", "99", "-1", "", "one", "1.", "18446744073709551616"] {
        assert_eq!(choose_source(line, 3), Err(SelectionError::OutOfRange));
    }
}

#[test]
fn nothing_can_be_picked_from_an_empty_listing() {
    assert_eq!(choose_source("1", 0), Err(SelectionError::NoExamFiles));
    assert_eq!(choose_source("", 0), Err(SelectionError::NoExamFiles));
}

#[test]
fn a_directory_is_usable_when_made_or_there_already() {
    assert!(directory_usable(DirectoryOutcome::Created));
    assert!(directory_usable(DirectoryOutcome::AlreadyExists));
    assert!(!directory_usable(DirectoryOutcome::Failed));
}
