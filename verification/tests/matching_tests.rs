use messy_folder_reorganizer_ai::matching::assemble_match_results;
use messy_folder_reorganizer_ai::matching::sort_match_results;
use messy_folder_reorganizer_ai::matching::strip_root;
use messy_folder_reorganizer_ai::matching::FileProcessingResult;
use messy_folder_reorganizer_ai::matching::FileRecord;
use messy_folder_reorganizer_ai::matching::MatchError;
use messy_folder_reorganizer_ai::matching::SearchResult;

fn record(file_name: &str, relative_path: &str) -> FileRecord {
    FileRecord {
        file_name: file_name.to_string(),
        relative_path: relative_path.to_string(),
    }
}

fn search(absolute_path: &str, score: u64, query_vector: Vec<u32>) -> SearchResult {
    SearchResult {
        absolute_path: absolute_path.to_string(),
        score,
        query_vector,
    }
}

fn result(destination: &str, score: u64) -> FileProcessingResult {
    FileProcessingResult {
        destination_relative_path: destination.to_string(),
        source_relative_path: String::new(),
        score,
        source_file_name: String::new(),
        vector: Vec::new(),
    }
}

#[test]
fn strips_root_prefix() {
    assert_eq!(strip_root("/dest/docs/work", "/dest"), Some("docs/work".to_string()));
}

#[test]
fn root_itself_becomes_empty_relative_path() {
    assert_eq!(strip_root("/dest", "/dest"), Some(String::new()));
}

#[test]
fn rejects_path_outside_root() {
    assert_eq!(strip_root("/elsewhere/docs", "/dest"), None);
}

#[test]
fn rejects_sibling_with_common_prefix() {
    assert_eq!(strip_root("/destX/docs", "/dest"), None);
}

#[test]
fn pairs_each_record_with_its_search_result_in_order() {
    let files = vec![record("a.txt", "in/a"), record("b.txt", "in/b"), record("c.txt", "")];
    let results = vec![
        search("/dest/docs", 9, vec![1, 2]),
        search("/dest", 7, vec![3]),
        search("/dest/pics/cats", 5, vec![]),
    ];
    let matches = assemble_match_results(&files, &results, "/dest").unwrap();
    assert_eq!(matches.len(), 3);
    assert_eq!(matches[0].source_file_name, "a.txt");
    assert_eq!(matches[0].source_relative_path, "in/a");
    assert_eq!(matches[0].destination_relative_path, "docs");
    assert_eq!(matches[0].score, 9);
    assert_eq!(matches[0].vector, vec![1, 2]);
    assert_eq!(matches[1].source_file_name, "b.txt");
    assert_eq!(matches[1].destination_relative_path, "");
    assert_eq!(matches[2].source_file_name, "c.txt");
    assert_eq!(matches[2].destination_relative_path, "pics/cats");
}

#[test]
fn mismatched_lengths_are_a_defined_failure() {
    let files = vec![record("a.txt", ""), record("b.txt", "")];
    let results = vec![search("/dest/docs", 9, vec![])];
    match assemble_match_results(&files, &results, "/dest") {
        Err(MatchError::LengthMismatch { files: nf, search_results: ns }) => {
            assert_eq!(nf, 2);
            assert_eq!(ns, 1);
        },
        _ => panic!("expected a length mismatch"),
    }
}

#[test]
fn path_outside_destination_root_is_a_fatal_error() {
    let files = vec![record("a.txt", ""), record("b.txt", "")];
    let results = vec![
        search("/dest/docs", 9, vec![]),
        search("/elsewhere/docs", 8, vec![]),
    ];
    match assemble_match_results(&files, &results, "/dest") {
        Err(MatchError::PathInvariantViolation { position, absolute_path }) => {
            assert_eq!(position, 1);
            assert_eq!(absolute_path, "/elsewhere/docs");
        },
        _ => panic!("expected a path invariant violation"),
    }
}

#[test]
fn sorts_by_path_ascending_then_score_descending() {
    let input = vec![
        result("b", 100),
        result("a", 5),
        result("a", 9),
        result("", 1),
    ];
    let sorted = sort_match_results(input);
    let keys: Vec<(String, u64)> = sorted
        .iter()
        .map(|m| (m.destination_relative_path.clone(), m.score))
        .collect();
    assert_eq!(
        keys,
        vec![
            (String::new(), 1),
            ("a".to_string(), 9),
            ("a".to_string(), 5),
            ("b".to_string(), 100),
        ]
    );
}

#[test]
fn higher_score_comes_first_within_one_destination() {
    let sorted = sort_match_results(vec![result("docs", 3), result("docs", 8)]);
    assert_eq!(sorted[0].score, 8);
    assert_eq!(sorted[1].score, 3);
}

#[test]
fn ties_keep_their_relative_input_order() {
    let mut first = result("docs", 7);
    first.source_file_name = "first.txt".to_string();
    let mut second = result("docs", 7);
    second.source_file_name = "second.txt".to_string();
    let sorted = sort_match_results(vec![first, second]);
    assert_eq!(sorted[0].source_file_name, "first.txt");
    assert_eq!(sorted[1].source_file_name, "second.txt");
}

#[test]
fn smaller_path_comes_first_regardless_of_score() {
    let sorted = sort_match_results(vec![result("z", 1000), result("a", 1)]);
    assert_eq!(sorted[0].destination_relative_path, "a");
    assert_eq!(sorted[1].destination_relative_path, "z");
}
