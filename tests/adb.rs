use stream_puffer::adb::{AdbError, AdbHelper};
use stream_puffer::fs_types::{FileInfo, FileType, RecordingConfig};

#[test]
fn helper_builders() {
    let h = AdbHelper::new(None);
    assert_eq!(h.adb_path, "adb");
    assert!(!h.root);
    let h = h.with_root().with_adb_path("/opt/adb".to_string());
    assert!(h.root);
    assert_eq!(h.adb_path, "/opt/adb");
}

#[test]
fn shell_args_name_device_and_root() {
    let h = AdbHelper::new(Some("emulator-5554".to_string()));
    assert_eq!(h.shell_args("ls /"), vec!["-s", "emulator-5554", "shell", "ls /"]);
    let h = AdbHelper::new(None).with_root();
    assert_eq!(h.shell_args("whoami"), vec!["shell", "su root whoami"]);
    assert_eq!(
        AdbHelper::new(None).pull_args("/sdcard/a.txt", "/tmp/a"),
        vec!["pull", "/sdcard/a.txt", "/tmp/a"]
    );
}

#[test]
fn files_are_trimmed_and_blank_lines_dropped() {
    let out = "a.txt\n  b dir \r\n\n\tc\n";
    assert_eq!(AdbHelper::list_files(out), vec!["a.txt", "b dir", "c"]);
    assert!(AdbHelper::list_files("").is_empty());
}

#[test]
fn folders_skip_find_errors() {
    let out = "/sdcard\nfind: /data: Permission denied\n/sdcard/DCIM \n\n";
    assert_eq!(AdbHelper::list_folders_tree(out), vec!["/sdcard", "/sdcard/DCIM"]);
}

#[test]
fn all_paths_with_times() {
    let out = "1700000000.123|/a/b\nbroken line\nabc|/c\n+12|/d|e\n99999999999999999999999|/f";
    assert_eq!(
        AdbHelper::list_all(out),
        vec![
            ("/a/b".to_string(), 1700000000),
            ("/c".to_string(), 0),
            ("/d|e".to_string(), 12),
            ("/f".to_string(), 0),
        ]
    );
}

#[test]
fn apps_grouped_by_user() {
    let out = "u0_a1 com.a\nu0_a2   com.b  \nnospace\nu0_a1 com.c\n";
    assert_eq!(
        AdbHelper::list_active_apps_users(out),
        vec![
            ("u0_a1".to_string(), "com.a,com.c".to_string()),
            ("u0_a2".to_string(), "com.b".to_string()),
        ]
    );
}

#[test]
fn text_files_must_be_utf8() {
    assert_eq!(AdbHelper::read_text_file("héllo".as_bytes().to_vec()), Ok("héllo".to_string()));
    assert_eq!(AdbHelper::read_text_file(vec![0xff, 0xfe]), Err(AdbError::InvalidUtf8));
}

#[test]
fn file_type_from_mode_char() {
    assert_eq!(FileType::from(&'-'), FileType::File);
    assert_eq!(FileType::from(&'d'), FileType::Directory);
    assert_eq!(FileType::from(&'l'), FileType::Symlink);
    assert_eq!(FileType::from(&'c'), FileType::Other);
    assert_eq!(FileType::default(), FileType::Directory);
}

#[test]
fn defaults() {
    let i = FileInfo::default();
    assert_eq!(i.inode, 0);
    assert!(i.user.is_empty());
    let c = RecordingConfig::default();
    assert_eq!(c.fps, 30);
    assert_eq!(c.audio_sample_rate, 44100);
    assert!(!c.include_audio);
}

#[test]
fn recording_size_from_config_or_display() {
    let mut c = RecordingConfig::default();
    let displays = vec![(1080, 1920), (720, 1280)];
    assert_eq!(c.resolve_size(&displays, 0), Some((1080, 1920)));
    assert_eq!(c.resolve_size(&displays, 1), Some((720, 1280)));
    assert_eq!(c.resolve_size(&displays, 2), None);
    assert_eq!(c.resolve_size(&vec![], 0), None);
    c.width = 640;
    c.height = 480;
    assert_eq!(c.resolve_size(&vec![], 0), Some((640, 480)));
}
