use smart_sorter::config::{get_category, get_default_category, Category};

#[test]
fn test_image_extensions() {
    assert_eq!(get_category("jpg"), Category::Images);
    assert_eq!(get_category("PNG"), Category::Images);
    assert_eq!(get_category("HEIC"), Category::Images);
}

#[test]
fn test_video_extensions() {
    assert_eq!(get_category("mp4"), Category::Videos);
    assert_eq!(get_category("MKV"), Category::Videos);
}

#[test]
fn test_document_extensions() {
    assert_eq!(get_category("pdf"), Category::Documents);
    assert_eq!(get_category("docx"), Category::Documents);
}

#[test]
fn test_music_extensions() {
    assert_eq!(get_category("mp3"), Category::Music);
    assert_eq!(get_category("flac"), Category::Music);
}

#[test]
fn test_archive_extensions() {
    assert_eq!(get_category("zip"), Category::Archives);
    assert_eq!(get_category("tar"), Category::Archives);
}

#[test]
fn test_code_extensions() {
    assert_eq!(get_category("rs"), Category::Code);
    assert_eq!(get_category("py"), Category::Code);
    assert_eq!(get_category("js"), Category::Code);
}

#[test]
fn test_unknown_extension() {
    assert_eq!(get_category("xyz"), Category::Others);
    assert_eq!(get_category("unknown"), Category::Others);
}

#[test]
fn test_folder_name() {
    assert_eq!(Category::Images.folder_name(), "Images");
    assert_eq!(Category::Others.folder_name(), "Others");
}

#[test]
fn test_all_categories() {
    let all = Category::all();
    assert_eq!(all.len(), 7);
    assert_eq!(all[0], Category::Images);
    assert_eq!(all[6], Category::Others);
}

#[test]
fn test_classification_case_insensitive() {
    assert_eq!(get_category("PnG"), get_category("png"));
    assert_eq!(get_category("pNg"), Category::Images);
}

#[test]
fn test_default_category() {
    assert_eq!(get_default_category(), Category::Others);
}

#[test]
fn test_extension_listed_twice_lands_in_later_group() {
    assert_eq!(get_category("ts"), Category::Code);
}
