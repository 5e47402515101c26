//! File categories and the extension table that classifies files.
//!
//! A `Category` is one of a closed set of file-type buckets; each doubles as
//! the literal name of the destination folder that receives its files.  The
//! mapping from a lowercased extension to a category is a pure, total
//! function with `Others` as the fallback.

use crate::text::{chars_eq_str, lower_seq, to_lower_chars};
use vstd::prelude::*;

verus! {

/// A file-type bucket.  The variant name equals its destination folder name.
#[derive(Clone, Copy, Debug, PartialEq, Eq, Hash, Structural)]
pub enum Category {
    Images,
    Videos,
    Documents,
    Music,
    Archives,
    Code,
    Others,
}

impl Category {
    /// The folder name this category sorts into, as a character sequence.
    pub open spec fn folder_name_spec(self) -> Seq<char> {
        match self {
            Category::Images => "Images"@,
            Category::Videos => "Videos"@,
            Category::Documents => "Documents"@,
            Category::Music => "Music"@,
            Category::Archives => "Archives"@,
            Category::Code => "Code"@,
            Category::Others => "Others"@,
        }
    }

    /// The folder name this category sorts into.
    pub fn folder_name(&self) -> (r: &'static str)
        ensures
            r@ == self.folder_name_spec(),
    {
        match self {
            Category::Images => "Images",
            Category::Videos => "Videos",
            Category::Documents => "Documents",
            Category::Music => "Music",
            Category::Archives => "Archives",
            Category::Code => "Code",
            Category::Others => "Others",
        }
    }

    /// Every category, in a fixed order.
    pub open spec fn all_spec() -> Seq<Category> {
        seq![
            Category::Images,
            Category::Videos,
            Category::Documents,
            Category::Music,
            Category::Archives,
            Category::Code,
            Category::Others,
        ]
    }

    /// Every category, in a fixed order.
    pub fn all() -> (r: Vec<Category>)
        ensures
            r@ == Category::all_spec(),
    {
        let r: Vec<Category> = vec![
            Category::Images,
            Category::Videos,
            Category::Documents,
            Category::Music,
            Category::Archives,
            Category::Code,
            Category::Others,
        ];
        proof {
            assert(r@ =~= Category::all_spec());
        }
        r
    }
}

/// True when `s` is the folder name of some category.
pub open spec fn is_category_name(s: Seq<char>) -> bool {
    ||| s == "Images"@
    ||| s == "Videos"@
    ||| s == "Documents"@
    ||| s == "Music"@
    ||| s == "Archives"@
    ||| s == "Code"@
    ||| s == "Others"@
}

/// Every category's folder name is a category name.
pub proof fn lemma_folder_name_is_category(c: Category)
    ensures
        is_category_name(c.folder_name_spec()),
{
}

/// True when `name` is the folder name of some category.
pub fn is_category_folder_name(name: &str) -> (r: bool)
    ensures
        r == is_category_name(name@),
{
    crate::text::str_eq(name, "Images") || crate::text::str_eq(name, "Videos")
        || crate::text::str_eq(name, "Documents") || crate::text::str_eq(name, "Music")
        || crate::text::str_eq(name, "Archives") || crate::text::str_eq(name, "Code")
        || crate::text::str_eq(name, "Others")
}

/// The position of a category in `Category::all_spec()`.
pub open spec fn cat_index_spec(c: Category) -> int {
    match c {
        Category::Images => 0,
        Category::Videos => 1,
        Category::Documents => 2,
        Category::Music => 3,
        Category::Archives => 4,
        Category::Code => 5,
        Category::Others => 6,
    }
}

/// `cat_index_spec` gives each category's own position in `all_spec`.
pub proof fn lemma_cat_index(c: Category)
    ensures
        0 <= cat_index_spec(c) < Category::all_spec().len(),
        Category::all_spec()[cat_index_spec(c)] == c,
{
}

/// The position of a category in `Category::all()`.
pub fn cat_index(c: Category) -> (r: usize)
    ensures
        r == cat_index_spec(c),
        r < Category::all_spec().len(),
        Category::all_spec()[r as int] == c,
{
    match c {
        Category::Images => 0,
        Category::Videos => 1,
        Category::Documents => 2,
        Category::Music => 3,
        Category::Archives => 4,
        Category::Code => 5,
        Category::Others => 6,
    }
}

/// The category for files with no usable extension.
pub fn get_default_category() -> (r: Category)
    ensures
        r == Category::Others,
{
    Category::Others
}

/// True when `s` is an extension of the Images group, lowercased.
pub open spec fn is_image_ext(s: Seq<char>) -> bool {
    ||| s == "jpg"@
    ||| s == "jpeg"@
    ||| s == "png"@
    ||| s == "gif"@
    ||| s == "bmp"@
    ||| s == "svg"@
    ||| s == "webp"@
    ||| s == "ico"@
    ||| s == "tiff"@
    ||| s == "tif"@
    ||| s == "heic"@
    ||| s == "heif"@
    ||| s == "raw"@
    ||| s == "cr2"@
    ||| s == "nef"@
    ||| s == "arw"@
    ||| s == "dng"@
    ||| s == "psd"@
    ||| s == "ai"@
    ||| s == "eps"@
}

fn matches_image_ext(s: &Vec<char>) -> (r: bool)
    ensures
        r == is_image_ext(s@),
{
    chars_eq_str(s, "jpg")
        || chars_eq_str(s, "jpeg")
        || chars_eq_str(s, "png")
        || chars_eq_str(s, "gif")
        || chars_eq_str(s, "bmp")
        || chars_eq_str(s, "svg")
        || chars_eq_str(s, "webp")
        || chars_eq_str(s, "ico")
        || chars_eq_str(s, "tiff")
        || chars_eq_str(s, "tif")
        || chars_eq_str(s, "heic")
        || chars_eq_str(s, "heif")
        || chars_eq_str(s, "raw")
        || chars_eq_str(s, "cr2")
        || chars_eq_str(s, "nef")
        || chars_eq_str(s, "arw")
        || chars_eq_str(s, "dng")
        || chars_eq_str(s, "psd")
        || chars_eq_str(s, "ai")
        || chars_eq_str(s, "eps")
}

/// True when `s` is an extension of the Videos group, lowercased.
pub open spec fn is_video_ext(s: Seq<char>) -> bool {
    ||| s == "mp4"@
    ||| s == "avi"@
    ||| s == "mkv"@
    ||| s == "mov"@
    ||| s == "wmv"@
    ||| s == "flv"@
    ||| s == "webm"@
    ||| s == "m4v"@
    ||| s == "mpeg"@
    ||| s == "mpg"@
    ||| s == "3gp"@
    ||| s == "3g2"@
    ||| s == "vob"@
    ||| s == "ogv"@
    ||| s == "mts"@
    ||| s == "m2ts"@
    ||| s == "ts"@
}

fn matches_video_ext(s: &Vec<char>) -> (r: bool)
    ensures
        r == is_video_ext(s@),
{
    chars_eq_str(s, "mp4")
        || chars_eq_str(s, "avi")
        || chars_eq_str(s, "mkv")
        || chars_eq_str(s, "mov")
        || chars_eq_str(s, "wmv")
        || chars_eq_str(s, "flv")
        || chars_eq_str(s, "webm")
        || chars_eq_str(s, "m4v")
        || chars_eq_str(s, "mpeg")
        || chars_eq_str(s, "mpg")
        || chars_eq_str(s, "3gp")
        || chars_eq_str(s, "3g2")
        || chars_eq_str(s, "vob")
        || chars_eq_str(s, "ogv")
        || chars_eq_str(s, "mts")
        || chars_eq_str(s, "m2ts")
        || chars_eq_str(s, "ts")
}

/// True when `s` is an extension of the Documents group, lowercased.
pub open spec fn is_document_ext(s: Seq<char>) -> bool {
    ||| s == "pdf"@
    ||| s == "doc"@
    ||| s == "docx"@
    ||| s == "xls"@
    ||| s == "xlsx"@
    ||| s == "ppt"@
    ||| s == "pptx"@
    ||| s == "txt"@
    ||| s == "rtf"@
    ||| s == "odt"@
    ||| s == "ods"@
    ||| s == "odp"@
    ||| s == "csv"@
    ||| s == "pages"@
    ||| s == "numbers"@
    ||| s == "key"@
    ||| s == "epub"@
    ||| s == "mobi"@
    ||| s == "djvu"@
    ||| s == "xps"@
}

fn matches_document_ext(s: &Vec<char>) -> (r: bool)
    ensures
        r == is_document_ext(s@),
{
    chars_eq_str(s, "pdf")
        || chars_eq_str(s, "doc")
        || chars_eq_str(s, "docx")
        || chars_eq_str(s, "xls")
        || chars_eq_str(s, "xlsx")
        || chars_eq_str(s, "ppt")
        || chars_eq_str(s, "pptx")
        || chars_eq_str(s, "txt")
        || chars_eq_str(s, "rtf")
        || chars_eq_str(s, "odt")
        || chars_eq_str(s, "ods")
        || chars_eq_str(s, "odp")
        || chars_eq_str(s, "csv")
        || chars_eq_str(s, "pages")
        || chars_eq_str(s, "numbers")
        || chars_eq_str(s, "key")
        || chars_eq_str(s, "epub")
        || chars_eq_str(s, "mobi")
        || chars_eq_str(s, "djvu")
        || chars_eq_str(s, "xps")
}

/// True when `s` is an extension of the Music group, lowercased.
pub open spec fn is_music_ext(s: Seq<char>) -> bool {
    ||| s == "mp3"@
    ||| s == "wav"@
    ||| s == "flac"@
    ||| s == "aac"@
    ||| s == "ogg"@
    ||| s == "wma"@
    ||| s == "m4a"@
    ||| s == "aiff"@
    ||| s == "aif"@
    ||| s == "ape"@
    ||| s == "alac"@
    ||| s == "opus"@
    ||| s == "mid"@
    ||| s == "midi"@
}

fn matches_music_ext(s: &Vec<char>) -> (r: bool)
    ensures
        r == is_music_ext(s@),
{
    chars_eq_str(s, "mp3")
        || chars_eq_str(s, "wav")
        || chars_eq_str(s, "flac")
        || chars_eq_str(s, "aac")
        || chars_eq_str(s, "ogg")
        || chars_eq_str(s, "wma")
        || chars_eq_str(s, "m4a")
        || chars_eq_str(s, "aiff")
        || chars_eq_str(s, "aif")
        || chars_eq_str(s, "ape")
        || chars_eq_str(s, "alac")
        || chars_eq_str(s, "opus")
        || chars_eq_str(s, "mid")
        || chars_eq_str(s, "midi")
}

/// True when `s` is an extension of the Archives group, lowercased.
pub open spec fn is_archive_ext(s: Seq<char>) -> bool {
    ||| s == "zip"@
    ||| s == "rar"@
    ||| s == "7z"@
    ||| s == "tar"@
    ||| s == "gz"@
    ||| s == "bz2"@
    ||| s == "xz"@
    ||| s == "dmg"@
    ||| s == "iso"@
    ||| s == "tgz"@
    ||| s == "tbz2"@
    ||| s == "txz"@
    ||| s == "cab"@
    ||| s == "lzh"@
    ||| s == "lha"@
    ||| s == "z"@
    ||| s == "sit"@
    ||| s == "sitx"@
}

fn matches_archive_ext(s: &Vec<char>) -> (r: bool)
    ensures
        r == is_archive_ext(s@),
{
    chars_eq_str(s, "zip")
        || chars_eq_str(s, "rar")
        || chars_eq_str(s, "7z")
        || chars_eq_str(s, "tar")
        || chars_eq_str(s, "gz")
        || chars_eq_str(s, "bz2")
        || chars_eq_str(s, "xz")
        || chars_eq_str(s, "dmg")
        || chars_eq_str(s, "iso")
        || chars_eq_str(s, "tgz")
        || chars_eq_str(s, "tbz2")
        || chars_eq_str(s, "txz")
        || chars_eq_str(s, "cab")
        || chars_eq_str(s, "lzh")
        || chars_eq_str(s, "lha")
        || chars_eq_str(s, "z")
        || chars_eq_str(s, "sit")
        || chars_eq_str(s, "sitx")
}

/// True when `s` is an extension of the Code group, lowercased.
pub open spec fn is_code_ext(s: Seq<char>) -> bool {
    ||| s == "rs"@
    ||| s == "py"@
    ||| s == "js"@
    ||| s == "ts"@
    ||| s == "jsx"@
    ||| s == "tsx"@
    ||| s == "html"@
    ||| s == "htm"@
    ||| s == "css"@
    ||| s == "scss"@
    ||| s == "sass"@
    ||| s == "less"@
    ||| s == "json"@
    ||| s == "xml"@
    ||| s == "yaml"@
    ||| s == "yml"@
    ||| s == "toml"@
    ||| s == "md"@
    ||| s == "markdown"@
    ||| s == "sh"@
    ||| s == "bash"@
    ||| s == "zsh"@
    ||| s == "fish"@
    ||| s == "c"@
    ||| s == "cpp"@
    ||| s == "cc"@
    ||| s == "cxx"@
    ||| s == "h"@
    ||| s == "hpp"@
    ||| s == "hxx"@
    ||| s == "go"@
    ||| s == "java"@
    ||| s == "kt"@
    ||| s == "kts"@
    ||| s == "scala"@
    ||| s == "rb"@
    ||| s == "php"@
    ||| s == "pl"@
    ||| s == "pm"@
    ||| s == "swift"@
    ||| s == "m"@
    ||| s == "mm"@
    ||| s == "sql"@
    ||| s == "r"@
    ||| s == "lua"@
    ||| s == "vim"@
    ||| s == "el"@
    ||| s == "clj"@
    ||| s == "cljs"@
    ||| s == "edn"@
    ||| s == "ex"@
    ||| s == "exs"@
    ||| s == "erl"@
    ||| s == "hrl"@
    ||| s == "hs"@
    ||| s == "lhs"@
    ||| s == "ml"@
    ||| s == "mli"@
    ||| s == "fs"@
    ||| s == "fsi"@
    ||| s == "fsx"@
    ||| s == "dockerfile"@
    ||| s == "makefile"@
    ||| s == "cmake"@
    ||| s == "gradle"@
    ||| s == "sbt"@
    ||| s == "cabal"@
}

fn matches_code_ext(s: &Vec<char>) -> (r: bool)
    ensures
        r == is_code_ext(s@),
{
    chars_eq_str(s, "rs")
        || chars_eq_str(s, "py")
        || chars_eq_str(s, "js")
        || chars_eq_str(s, "ts")
        || chars_eq_str(s, "jsx")
        || chars_eq_str(s, "tsx")
        || chars_eq_str(s, "html")
        || chars_eq_str(s, "htm")
        || chars_eq_str(s, "css")
        || chars_eq_str(s, "scss")
        || chars_eq_str(s, "sass")
        || chars_eq_str(s, "less")
        || chars_eq_str(s, "json")
        || chars_eq_str(s, "xml")
        || chars_eq_str(s, "yaml")
        || chars_eq_str(s, "yml")
        || chars_eq_str(s, "toml")
        || chars_eq_str(s, "md")
        || chars_eq_str(s, "markdown")
        || chars_eq_str(s, "sh")
        || chars_eq_str(s, "bash")
        || chars_eq_str(s, "zsh")
        || chars_eq_str(s, "fish")
        || chars_eq_str(s, "c")
        || chars_eq_str(s, "cpp")
        || chars_eq_str(s, "cc")
        || chars_eq_str(s, "cxx")
        || chars_eq_str(s, "h")
        || chars_eq_str(s, "hpp")
        || chars_eq_str(s, "hxx")
        || chars_eq_str(s, "go")
        || chars_eq_str(s, "java")
        || chars_eq_str(s, "kt")
        || chars_eq_str(s, "kts")
        || chars_eq_str(s, "scala")
        || chars_eq_str(s, "rb")
        || chars_eq_str(s, "php")
        || chars_eq_str(s, "pl")
        || chars_eq_str(s, "pm")
        || chars_eq_str(s, "swift")
        || chars_eq_str(s, "m")
        || chars_eq_str(s, "mm")
        || chars_eq_str(s, "sql")
        || chars_eq_str(s, "r")
        || chars_eq_str(s, "lua")
        || chars_eq_str(s, "vim")
        || chars_eq_str(s, "el")
        || chars_eq_str(s, "clj")
        || chars_eq_str(s, "cljs")
        || chars_eq_str(s, "edn")
        || chars_eq_str(s, "ex")
        || chars_eq_str(s, "exs")
        || chars_eq_str(s, "erl")
        || chars_eq_str(s, "hrl")
        || chars_eq_str(s, "hs")
        || chars_eq_str(s, "lhs")
        || chars_eq_str(s, "ml")
        || chars_eq_str(s, "mli")
        || chars_eq_str(s, "fs")
        || chars_eq_str(s, "fsi")
        || chars_eq_str(s, "fsx")
        || chars_eq_str(s, "dockerfile")
        || chars_eq_str(s, "makefile")
        || chars_eq_str(s, "cmake")
        || chars_eq_str(s, "gradle")
        || chars_eq_str(s, "sbt")
        || chars_eq_str(s, "cabal")
}

/// The extension table as a pure lookup on an already-lowercased extension.
///
/// The groups are consulted so that an extension listed in more than one
/// group lands in the group that the table's build-up added last.
pub open spec fn table_category(s: Seq<char>) -> Category {
    if is_code_ext(s) {
        Category::Code
    } else if is_archive_ext(s) {
        Category::Archives
    } else if is_music_ext(s) {
        Category::Music
    } else if is_document_ext(s) {
        Category::Documents
    } else if is_video_ext(s) {
        Category::Videos
    } else if is_image_ext(s) {
        Category::Images
    } else {
        Category::Others
    }
}

/// The category an extension classifies to, case-insensitively.
pub open spec fn category_of(s: Seq<char>) -> Category {
    table_category(lower_seq(s))
}

/// Classifies an extension (no leading dot, any case) to its category.
/// Unknown extensions classify to `Others`; the function is total.
pub fn get_category(extension: &str) -> (r: Category)
    ensures
        r == category_of(extension@),
{
    let chars = crate::text::str_to_chars(extension);
    let low = to_lower_chars(&chars);
    if matches_code_ext(&low) {
        Category::Code
    } else if matches_archive_ext(&low) {
        Category::Archives
    } else if matches_music_ext(&low) {
        Category::Music
    } else if matches_document_ext(&low) {
        Category::Documents
    } else if matches_video_ext(&low) {
        Category::Videos
    } else if matches_image_ext(&low) {
        Category::Images
    } else {
        Category::Others
    }
}

/// Classification is a pure function of the lowercased extension: any two
/// spellings that lowercase alike classify alike.
pub proof fn lemma_classification_case_insensitive(s1: Seq<char>, s2: Seq<char>)
    requires
        lower_seq(s1) == lower_seq(s2),
    ensures
        category_of(s1) == category_of(s2),
{
}

} // verus!
