use crate::adb::chars_equal;
use crate::text::{chars_of, slice_chars};
use vstd::prelude::*;

verus! {

/// What `str::to_lowercase` makes of a string.
pub uninterp spec fn lower_of(s: Seq<char>) -> Seq<char>;

/// Relies on `str::to_lowercase`: the result depends on the characters alone.
#[verifier::external_body]
fn lowercase(s: &str) -> (r: String)
    ensures
        r@ == lower_of(s@),
{
    s.to_lowercase()
}

/// Position of the last `c` in the first `n` characters of `s`, or -1.
pub open spec fn last_index(s: Seq<char>, c: char, n: int) -> int
    decreases n,
{
    if n <= 0 || n > s.len() {
        -1
    } else if s[n - 1] == c {
        n - 1
    } else {
        last_index(s, c, n - 1)
    }
}

/// The icon shown for a file extension.
pub open spec fn icon_for_ext(ext: Seq<char>) -> Seq<char> {
    if ext == "jpg"@ || ext == "jpeg"@ || ext == "png"@ || ext == "gif"@ || ext == "bmp"@ || ext == "svg"@ || ext == "webp"@ {
        "🖼️"@
    } else if ext == "mp4"@ || ext == "avi"@ || ext == "mkv"@ || ext == "mov"@ || ext == "wmv"@ || ext == "flv"@ || ext == "webm"@ {
        "🎬"@
    } else if ext == "mp3"@ || ext == "wav"@ || ext == "flac"@ || ext == "aac"@ || ext == "ogg"@ || ext == "m4a"@ {
        "🎵"@
    } else if ext == "pdf"@ {
        "📕"@
    } else if ext == "doc"@ || ext == "docx"@ {
        "📘"@
    } else if ext == "xls"@ || ext == "xlsx"@ {
        "📗"@
    } else if ext == "ppt"@ || ext == "pptx"@ {
        "📙"@
    } else if ext == "txt"@ || ext == "md"@ {
        "📄"@
    } else if ext == "zip"@ || ext == "rar"@ || ext == "7z"@ || ext == "tar"@ || ext == "gz"@ {
        "📦"@
    } else if ext == "rs"@ || ext == "py"@ || ext == "js"@ || ext == "ts"@ || ext == "java"@ || ext == "cpp"@ || ext == "c"@ || ext == "h"@ {
        "📝"@
    } else if ext == "html"@ || ext == "css"@ || ext == "xml"@ || ext == "json"@ || ext == "yaml"@ || ext == "yml"@ {
        "📋"@
    } else if ext == "apk"@ {
        "📱"@
    } else if ext == "dex"@ {
        "⚙️"@
    } else if ext == "so"@ {
        "🔧"@
    } else {
        "📄"@
    }
}

/// The icon shown for a lower-case file name: by the extension after its
/// last dot, or a page when it has none.
pub open spec fn icon_of(name: Seq<char>) -> Seq<char> {
    let d = last_index(name, '.', name.len() as int);
    if d < 0 {
        "📄"@
    } else {
        icon_for_ext(name.skip(d + 1))
    }
}

fn is_word(ext: &Vec<char>, w: &str) -> (r: bool)
    ensures
        r == (ext@ == w@),
{
    chars_equal(ext, &chars_of(w))
}

fn icon_for_extension(ext: &Vec<char>) -> (r: &'static str)
    ensures
        r@ == icon_for_ext(ext@),
{
    if is_word(ext, "jpg") || is_word(ext, "jpeg") || is_word(ext, "png") || is_word(ext, "gif") || is_word(ext, "bmp") || is_word(ext, "svg") || is_word(ext, "webp") {
        "🖼️"
    } else if is_word(ext, "mp4") || is_word(ext, "avi") || is_word(ext, "mkv") || is_word(ext, "mov") || is_word(ext, "wmv") || is_word(ext, "flv") || is_word(ext, "webm") {
        "🎬"
    } else if is_word(ext, "mp3") || is_word(ext, "wav") || is_word(ext, "flac") || is_word(ext, "aac") || is_word(ext, "ogg") || is_word(ext, "m4a") {
        "🎵"
    } else if is_word(ext, "pdf") {
        "📕"
    } else if is_word(ext, "doc") || is_word(ext, "docx") {
        "📘"
    } else if is_word(ext, "xls") || is_word(ext, "xlsx") {
        "📗"
    } else if is_word(ext, "ppt") || is_word(ext, "pptx") {
        "📙"
    } else if is_word(ext, "txt") || is_word(ext, "md") {
        "📄"
    } else if is_word(ext, "zip") || is_word(ext, "rar") || is_word(ext, "7z") || is_word(ext, "tar") || is_word(ext, "gz") {
        "📦"
    } else if is_word(ext, "rs") || is_word(ext, "py") || is_word(ext, "js") || is_word(ext, "ts") || is_word(ext, "java") || is_word(ext, "cpp") || is_word(ext, "c") || is_word(ext, "h") {
        "📝"
    } else if is_word(ext, "html") || is_word(ext, "css") || is_word(ext, "xml") || is_word(ext, "json") || is_word(ext, "yaml") || is_word(ext, "yml") {
        "📋"
    } else if is_word(ext, "apk") {
        "📱"
    } else if is_word(ext, "dex") {
        "⚙️"
    } else if is_word(ext, "so") {
        "🔧"
    } else {
        "📄"
    }
}

/// The icon for a file name that is already in lower case.
pub fn icon_for_lowercase(name: &str) -> (r: &'static str)
    ensures
        r@ == icon_of(name@),
{
    let chars = chars_of(name);
    let n = chars.len();
    let mut i: usize = n;
    while i > 0 && chars[i - 1] != '.'
        invariant
            n == chars@.len(),
            i <= n,
            last_index(chars@, '.', n as int) == last_index(chars@, '.', i as int),
        decreases i,
    {
        i = i - 1;
    }
    if i == 0 {
        "📄"
    } else {
        let ext = slice_chars(&chars, i, n);
        proof {
            assert(ext@ =~= chars@.skip(i as int));
        }
        icon_for_extension(&ext)
    }
}

/// The icon shown beside a file name, chosen by its extension whatever
/// its case.
pub fn get_file_icon(filename: &str) -> (r: &'static str)
    ensures
        r@ == icon_of(lower_of(filename@)),
{
    let name = lowercase(filename);
    icon_for_lowercase(name.as_str())
}

} // verus!
