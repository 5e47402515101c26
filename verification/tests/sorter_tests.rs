use smart_sorter::config::Category;
use smart_sorter::file_ops::{is_directory, is_file, is_symlink};
use smart_sorter::sorter::{Sorter, SorterConfig};
use smart_sorter::tree::{DirEntry, FsNode};

fn file(name: &str) -> DirEntry {
    DirEntry { name: name.to_string(), node: FsNode::File }
}

fn symlink(name: &str) -> DirEntry {
    DirEntry { name: name.to_string(), node: FsNode::Symlink }
}

fn dir(name: &str, children: Vec<DirEntry>) -> DirEntry {
    DirEntry { name: name.to_string(), node: FsNode::Dir(children) }
}

fn sorter(dry_run: bool, recursive: bool) -> Sorter {
    Sorter::new(SorterConfig { target_dir: "/tmp/test".to_string(), dry_run, recursive })
}

fn path(components: &[&str]) -> Vec<String> {
    components.iter().map(|s| s.to_string()).collect()
}

#[test]
fn test_categorize_file() {
    let s = sorter(true, false);
    assert_eq!(s.categorize_file("test.jpg"), Category::Images);
    assert_eq!(s.categorize_file("test.mp4"), Category::Videos);
    assert_eq!(s.categorize_file("test.pdf"), Category::Documents);
    assert_eq!(s.categorize_file("test.mp3"), Category::Music);
    assert_eq!(s.categorize_file("test.zip"), Category::Archives);
    assert_eq!(s.categorize_file("test.rs"), Category::Code);
    assert_eq!(s.categorize_file("test.xyz"), Category::Others);
}

#[test]
fn test_collect_files_non_recursive() {
    let root = vec![
        file("file1.txt"),
        file("file2.jpg"),
        dir("subdir", vec![file("file3.txt")]),
    ];
    let s = sorter(true, false);
    let files = s.collect_files(&root);
    assert_eq!(files.len(), 2);
}

#[test]
fn test_collect_files_recursive() {
    let root = vec![file("file1.txt"), dir("subdir", vec![file("file2.txt")])];
    let s = sorter(true, true);
    let files = s.collect_files(&root);
    assert_eq!(files.len(), 2);
}

#[test]
fn test_collect_skips_symlinks_and_category_folders() {
    let root = vec![
        file("a.txt"),
        symlink("link.txt"),
        dir("Images", vec![file("old.jpg")]),
        dir("deep", vec![symlink("inner-link"), dir("Videos", vec![file("v.mp4")]), file("b.txt")]),
    ];
    let s = sorter(true, true);
    let files = s.collect_files(&root);
    assert_eq!(files, vec![path(&["a.txt"]), path(&["deep", "b.txt"])]);
}

#[test]
fn test_create_plans() {
    let root = vec![file("photo.jpg"), file("document.pdf")];
    let s = sorter(true, false);
    let files = s.collect_files(&root);
    let plans = s.create_plans(&root, &files);
    assert_eq!(plans.len(), 2);
    for plan in &plans {
        let filename = plan.source.last().unwrap().as_str();
        match filename {
            "photo.jpg" => assert_eq!(plan.category, Category::Images),
            "document.pdf" => assert_eq!(plan.category, Category::Documents),
            _ => panic!("Unexpected file: {}", filename),
        }
    }
}

#[test]
fn test_create_plans_conflict_flag() {
    let root = vec![file("photo.jpg"), dir("Images", vec![file("photo.jpg")])];
    let s = sorter(false, false);
    let files = s.collect_files(&root);
    assert_eq!(files.len(), 1);
    let plans = s.create_plans(&root, &files);
    assert!(plans[0].has_conflict);
    assert_eq!(plans[0].destination, path(&["Images", "photo.jpg"]));
}

#[test]
fn test_execute_scenario_with_conflict() {
    let root = vec![
        file("photo.jpg"),
        file("doc.pdf"),
        file("note"),
        dir("Images", vec![file("photo.jpg")]),
    ];
    let s = sorter(false, false);
    let (stats, results) = s.run(&root);
    assert_eq!(stats.total_files, 3);
    assert_eq!(stats.moved_files, 3);
    assert_eq!(stats.renamed_files, 1);
    assert_eq!(stats.error_count, 0);
    assert_eq!(stats.count_for(Category::Images), 1);
    assert_eq!(stats.count_for(Category::Documents), 1);
    assert_eq!(stats.count_for(Category::Others), 1);
    assert_eq!(results.len(), 3);
    assert_eq!(results[0].source, "photo.jpg");
    assert_eq!(results[0].destination, "photo_1.jpg");
    assert!(results[0].was_renamed);
    assert_eq!(results[1].destination, "doc.pdf");
    assert!(!results[1].was_renamed);
    assert_eq!(results[2].destination, "note");
    assert!(!results[2].was_renamed);
}

#[test]
fn test_execute_dedups_within_one_batch() {
    let root = vec![file("a.txt"), dir("sub", vec![file("a.txt")])];
    let s = sorter(false, true);
    let (stats, results) = s.run(&root);
    assert_eq!(stats.moved_files, 2);
    assert_eq!(stats.renamed_files, 1);
    assert_eq!(results[0].destination, "a.txt");
    assert_eq!(results[1].destination, "a_1.txt");
}

#[test]
fn test_empty_directory_zero_stats() {
    let root: Vec<DirEntry> = Vec::new();
    let s = sorter(false, false);
    let (stats, results) = s.run(&root);
    assert_eq!(stats.total_files, 0);
    assert_eq!(stats.moved_files, 0);
    assert_eq!(stats.renamed_files, 0);
    assert_eq!(stats.skipped_files, 0);
    assert_eq!(stats.error_count, 0);
    for c in Category::all() {
        assert_eq!(stats.count_for(c), 0);
    }
    assert!(results.is_empty());
}

#[test]
fn test_dry_run_counts_conflicts_as_renames() {
    let root = vec![
        file("photo.jpg"),
        file("doc.pdf"),
        dir("Images", vec![file("photo.jpg")]),
    ];
    let s = sorter(true, false);
    let (stats, previews) = s.run(&root);
    assert_eq!(stats.total_files, 2);
    assert_eq!(stats.moved_files, 2);
    assert_eq!(stats.renamed_files, 1);
    assert_eq!(stats.error_count, 0);
    assert_eq!(previews[0].destination, "photo_1.jpg");
    assert!(previews[0].was_renamed);
    assert_eq!(previews[1].destination, "doc.pdf");
}

#[test]
fn test_second_run_moves_nothing() {
    let root = vec![
        file("photo.jpg"),
        file("doc.pdf"),
        dir("sub", vec![file("code.rs")]),
    ];
    let s = sorter(false, true);
    let (stats, results) = s.run(&root);
    assert_eq!(stats.moved_files, 3);
    assert_eq!(stats.error_count, 0);
    assert_eq!(results.len(), 3);

    // The tree as it stands after the moves were carried out.
    let after = vec![
        dir("sub", vec![]),
        dir("Images", vec![file("photo.jpg")]),
        dir("Documents", vec![file("doc.pdf")]),
        dir("Code", vec![file("code.rs")]),
    ];
    let (stats2, results2) = s.run(&after);
    assert_eq!(stats2.total_files, 0);
    assert_eq!(stats2.moved_files, 0);
    assert_eq!(stats2.renamed_files, 0);
    assert_eq!(stats2.error_count, 0);
    assert!(results2.is_empty());
}

#[test]
fn test_is_category_folder() {
    let s = sorter(false, false);
    assert!(s.is_category_folder(&path(&["Images", "photo.jpg"])));
    assert!(!s.is_category_folder(&path(&["photo.jpg"])));
    assert!(!s.is_category_folder(&path(&["sub", "photo.jpg"])));
    assert!(!s.is_category_folder(&path(&["sub", "Images", "photo.jpg"])));
}

#[test]
fn test_stats_record_success_and_error() {
    let mut stats = smart_sorter::sorter::SortStats::new();
    stats.set_total(2);
    stats.record_success(Category::Music, true);
    stats.record_error();
    assert_eq!(stats.total_files, 2);
    assert_eq!(stats.moved_files, 1);
    assert_eq!(stats.renamed_files, 1);
    assert_eq!(stats.error_count, 1);
    assert_eq!(stats.count_for(Category::Music), 1);
    assert_eq!(stats.count_for(Category::Images), 0);
}

#[test]
fn test_node_kind_predicates() {
    let d = dir("x", vec![]);
    let f = file("y");
    let l = symlink("z");
    assert!(is_directory(&d.node) && !is_file(&d.node) && !is_symlink(&d.node));
    assert!(is_file(&f.node) && !is_directory(&f.node));
    assert!(is_symlink(&l.node) && !is_file(&l.node));
}
