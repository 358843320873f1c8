use stream_puffer::icons::{get_file_icon, icon_for_lowercase};

#[test]
fn icon_ignores_case_of_extension() {
    assert_eq!(get_file_icon("PHOTO.JPG"), "🖼️");
    assert_eq!(get_file_icon("Movie.Mp4"), "🎬");
    assert_eq!(icon_for_lowercase("PHOTO.JPG"), "📄");
}

#[test]
fn icon_by_last_extension() {
    assert_eq!(icon_for_lowercase("archive.tar.gz"), "📦");
    assert_eq!(icon_for_lowercase("song.m4a"), "🎵");
    assert_eq!(icon_for_lowercase("report.pdf"), "📕");
    assert_eq!(icon_for_lowercase("notes.docx"), "📘");
    assert_eq!(icon_for_lowercase("sheet.xlsx"), "📗");
    assert_eq!(icon_for_lowercase("deck.pptx"), "📙");
    assert_eq!(icon_for_lowercase("main.rs"), "📝");
    assert_eq!(icon_for_lowercase("conf.yml"), "📋");
    assert_eq!(icon_for_lowercase("app.apk"), "📱");
    assert_eq!(icon_for_lowercase("classes.dex"), "⚙️");
    assert_eq!(icon_for_lowercase("libfoo.so"), "🔧");
}

#[test]
fn icon_defaults_to_page() {
    assert_eq!(icon_for_lowercase("README"), "📄");
    assert_eq!(icon_for_lowercase("trailing."), "📄");
    assert_eq!(icon_for_lowercase("data.bin"), "📄");
    assert_eq!(icon_for_lowercase(""), "📄");
}
