use vstd::prelude::*;
use crate::text::{ascii_lower, str_eq, str_starts_with, to_ascii_lower};

verus! {

/// The semantic bucket that a file falls into.
#[derive(Clone, Copy, Debug, PartialEq, Eq, Structural)]
pub enum Category {
    Images,
    Documents,
    Videos,
    Audio,
    Code,
    Archives,
    Other,
}

pub open spec fn is_image_ext(e: Seq<char>) -> bool {
    e == "jpg"@ || e == "jpeg"@ || e == "png"@ || e == "gif"@ || e == "webp"@ || e == "svg"@
        || e == "bmp"@ || e == "heic"@ || e == "tiff"@
}

pub open spec fn is_document_ext(e: Seq<char>) -> bool {
    e == "pdf"@ || e == "doc"@ || e == "docx"@ || e == "txt"@ || e == "rtf"@ || e == "md"@
        || e == "xls"@ || e == "xlsx"@ || e == "ppt"@ || e == "pptx"@
}

pub open spec fn is_video_ext(e: Seq<char>) -> bool {
    e == "mp4"@ || e == "mov"@ || e == "avi"@ || e == "mkv"@ || e == "webm"@ || e == "wmv"@
        || e == "m4v"@
}

pub open spec fn is_audio_ext(e: Seq<char>) -> bool {
    e == "mp3"@ || e == "wav"@ || e == "aac"@ || e == "flac"@ || e == "ogg"@ || e == "m4a"@
}

pub open spec fn is_code_ext(e: Seq<char>) -> bool {
    e == "ts"@ || e == "tsx"@ || e == "js"@ || e == "jsx"@ || e == "rs"@ || e == "py"@ || e
        == "go"@ || e == "java"@ || e == "c"@ || e == "cpp"@ || e == "h"@ || e == "hpp"@ || e
        == "cs"@ || e == "json"@ || e == "yaml"@ || e == "yml"@ || e == "toml"@ || e == "html"@
        || e == "css"@ || e == "scss"@
}

pub open spec fn is_archive_ext(e: Seq<char>) -> bool {
    e == "zip"@ || e == "rar"@ || e == "7z"@ || e == "tar"@ || e == "gz"@ || e == "bz2"@ || e
        == "xz"@
}

pub open spec fn has_prefix(s: Seq<char>, p: Seq<char>) -> bool {
    p.len() <= s.len() && s.subrange(0, p.len() as int) == p
}

/// The category of a file with extension `e` (already lower-cased) and mime type `mime`:
/// the extension lists in priority order first, then the mime prefixes.
pub open spec fn classify(e: Seq<char>, mime: Seq<char>) -> Category {
    if is_image_ext(e) {
        Category::Images
    } else if is_document_ext(e) {
        Category::Documents
    } else if is_video_ext(e) {
        Category::Videos
    } else if is_audio_ext(e) {
        Category::Audio
    } else if is_code_ext(e) {
        Category::Code
    } else if is_archive_ext(e) {
        Category::Archives
    } else if has_prefix(mime, "image/"@) {
        Category::Images
    } else if has_prefix(mime, "video/"@) {
        Category::Videos
    } else if has_prefix(mime, "audio/"@) {
        Category::Audio
    } else {
        Category::Other
    }
}

/// The folder name of a category.
pub open spec fn category_name(c: Category) -> Seq<char> {
    match c {
        Category::Images => "Images"@,
        Category::Documents => "Documents"@,
        Category::Videos => "Videos"@,
        Category::Audio => "Audio"@,
        Category::Code => "Code"@,
        Category::Archives => "Archives"@,
        Category::Other => "Other"@,
    }
}

impl Category {
    /// The folder name of this category.
    pub fn name(&self) -> (r: String)
        ensures
            r@ == category_name(*self),
    {
        let s = match self {
            Category::Images => "Images",
            Category::Documents => "Documents",
            Category::Videos => "Videos",
            Category::Audio => "Audio",
            Category::Code => "Code",
            Category::Archives => "Archives",
            Category::Other => "Other",
        };
        String::from_str(s)
    }
}

fn is_image(e: &str) -> (r: bool)
    ensures
        r == is_image_ext(e@),
{
    str_eq(e, "jpg") || str_eq(e, "jpeg") || str_eq(e, "png") || str_eq(e, "gif") || str_eq(
        e,
        "webp",
    ) || str_eq(e, "svg") || str_eq(e, "bmp") || str_eq(e, "heic") || str_eq(e, "tiff")
}

fn is_document(e: &str) -> (r: bool)
    ensures
        r == is_document_ext(e@),
{
    str_eq(e, "pdf") || str_eq(e, "doc") || str_eq(e, "docx") || str_eq(e, "txt") || str_eq(
        e,
        "rtf",
    ) || str_eq(e, "md") || str_eq(e, "xls") || str_eq(e, "xlsx") || str_eq(e, "ppt") || str_eq(
        e,
        "pptx",
    )
}

fn is_video(e: &str) -> (r: bool)
    ensures
        r == is_video_ext(e@),
{
    str_eq(e, "mp4") || str_eq(e, "mov") || str_eq(e, "avi") || str_eq(e, "mkv") || str_eq(
        e,
        "webm",
    ) || str_eq(e, "wmv") || str_eq(e, "m4v")
}

fn is_audio(e: &str) -> (r: bool)
    ensures
        r == is_audio_ext(e@),
{
    str_eq(e, "mp3") || str_eq(e, "wav") || str_eq(e, "aac") || str_eq(e, "flac") || str_eq(
        e,
        "ogg",
    ) || str_eq(e, "m4a")
}

fn is_code(e: &str) -> (r: bool)
    ensures
        r == is_code_ext(e@),
{
    str_eq(e, "ts") || str_eq(e, "tsx") || str_eq(e, "js") || str_eq(e, "jsx") || str_eq(e, "rs")
        || str_eq(e, "py") || str_eq(e, "go") || str_eq(e, "java") || str_eq(e, "c") || str_eq(
        e,
        "cpp",
    ) || str_eq(e, "h") || str_eq(e, "hpp") || str_eq(e, "cs") || str_eq(e, "json") || str_eq(
        e,
        "yaml",
    ) || str_eq(e, "yml") || str_eq(e, "toml") || str_eq(e, "html") || str_eq(e, "css")
        || str_eq(e, "scss")
}

fn is_archive(e: &str) -> (r: bool)
    ensures
        r == is_archive_ext(e@),
{
    str_eq(e, "zip") || str_eq(e, "rar") || str_eq(e, "7z") || str_eq(e, "tar") || str_eq(e, "gz")
        || str_eq(e, "bz2") || str_eq(e, "xz")
}

/// The category of a file, from its extension (compared in ASCII lower case) and its
/// mime type. Every input has exactly one category: the extension lists are tried in the
/// order Images, Documents, Videos, Audio, Code, Archives, and only where none holds the
/// extension do the mime prefixes `image/`, `video/` and `audio/` count.
pub fn detect_category(extension: &str, mime_type: &str) -> (r: Category)
    ensures
        r == classify(ascii_lower(extension@), mime_type@),
{
    let lowered = to_ascii_lower(extension);
    let e = lowered.as_str();
    if is_image(e) {
        Category::Images
    } else if is_document(e) {
        Category::Documents
    } else if is_video(e) {
        Category::Videos
    } else if is_audio(e) {
        Category::Audio
    } else if is_code(e) {
        Category::Code
    } else if is_archive(e) {
        Category::Archives
    } else if str_starts_with(mime_type, "image/") {
        Category::Images
    } else if str_starts_with(mime_type, "video/") {
        Category::Videos
    } else if str_starts_with(mime_type, "audio/") {
        Category::Audio
    } else {
        Category::Other
    }
}

} // verus!
