use smart_sorter::file_ops::{generate_unique_path, get_extension, move_file_with_dedup};

fn names(list: &[&str]) -> Vec<String> {
    list.iter().map(|s| s.to_string()).collect()
}

#[test]
fn test_generate_unique_path_no_conflict() {
    let existing = names(&[]);
    let result = generate_unique_path(&existing, "test.txt");
    assert_eq!(result, "test.txt");
}

#[test]
fn test_generate_unique_path_with_conflict() {
    let existing = names(&["test.txt"]);
    let result = generate_unique_path(&existing, "test.txt");
    assert_eq!(result, "test_1.txt");
}

#[test]
fn test_generate_unique_path_multiple_conflicts() {
    let existing = names(&["test.txt", "test_1.txt", "test_2.txt"]);
    let result = generate_unique_path(&existing, "test.txt");
    assert_eq!(result, "test_3.txt");
}

#[test]
fn test_generate_unique_path_no_extension() {
    let existing = names(&["README"]);
    let result = generate_unique_path(&existing, "README");
    assert_eq!(result, "README_1");
}

#[test]
fn test_generate_unique_path_picks_first_gap() {
    let existing = names(&["a.log", "a_2.log"]);
    let result = generate_unique_path(&existing, "a.log");
    assert_eq!(result, "a_1.log");
}

#[test]
fn test_generate_unique_path_hidden_file() {
    let existing = names(&[".bashrc"]);
    let result = generate_unique_path(&existing, ".bashrc");
    assert_eq!(result, ".bashrc_1");
}

#[test]
fn test_get_extension() {
    assert_eq!(get_extension("test.txt"), Some("txt".to_string()));
    assert_eq!(get_extension("test.PDF"), Some("pdf".to_string()));
    assert_eq!(get_extension("test.tar.gz"), Some("gz".to_string()));
    assert_eq!(get_extension("README"), None);
}

#[test]
fn test_get_extension_of_path_with_directories() {
    assert_eq!(get_extension("dir/test.txt"), Some("txt".to_string()));
    assert_eq!(get_extension("some.dir/README"), None);
    assert_eq!(get_extension(".hidden"), None);
}

#[test]
fn test_move_file_with_dedup_no_conflict() {
    let existing = names(&["other.txt"]);
    let result = move_file_with_dedup(&existing, "report.pdf");
    assert_eq!(result.source, "report.pdf");
    assert_eq!(result.destination, "report.pdf");
    assert!(!result.was_renamed);
}

#[test]
fn test_move_file_with_dedup_conflict() {
    let existing = names(&["report.pdf"]);
    let result = move_file_with_dedup(&existing, "report.pdf");
    assert_eq!(result.source, "report.pdf");
    assert_eq!(result.destination, "report_1.pdf");
    assert!(result.was_renamed);
}
