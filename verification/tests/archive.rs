use std::io::Read;
use url_translator::archive::{write_archive, TarGz, FILE_MODE};

fn entries(bytes: &[u8]) -> Vec<(String, String, u32)> {
    let mut archive = tar::Archive::new(flate2::read::GzDecoder::new(bytes));
    let mut out = Vec::new();
    for e in archive.entries().unwrap() {
        let mut e = e.unwrap();
        let path = e.path().unwrap().to_string_lossy().to_string();
        let mode = e.header().mode().unwrap();
        let mut text = String::new();
        e.read_to_string(&mut text).unwrap();
        out.push((path, text, mode));
    }
    out
}

#[test]
fn an_archive_holds_the_files_written_in_order() {
    let files = vec![
        ("README.md".to_string(), "# 说明\n".to_string()),
        ("docs/intro.md".to_string(), "Intro text".to_string()),
    ];
    let bytes = write_archive(&files).unwrap();
    assert_eq!(
        entries(&bytes),
        vec![
            ("README.md".to_string(), "# 说明\n".to_string(), 0o644),
            ("docs/intro.md".to_string(), "Intro text".to_string(), 0o644),
        ]
    );
    assert_eq!(FILE_MODE, 0o644);
}

#[test]
fn an_empty_archive_holds_no_file() {
    let bytes = TarGz::new().finish().ok().unwrap();
    assert!(entries(&bytes).is_empty());
}

#[test]
fn a_refused_path_names_the_file() {
    let files = vec![
        ("README.md".to_string(), "r".to_string()),
        ("../escape.md".to_string(), "x".to_string()),
    ];
    let e = write_archive(&files).unwrap_err();
    assert!(e.starts_with("无法添加文件 ../escape.md: "), "{}", e);
}

#[test]
fn a_long_path_is_kept_whole() {
    let long = format!("{}/{}.md", "folder".repeat(20), "name".repeat(30));
    assert!(long.len() > 100);
    let files = vec![(long.clone(), "body".to_string())];
    let bytes = write_archive(&files).unwrap();
    assert_eq!(entries(&bytes), vec![(long, "body".to_string(), 0o644)]);
}

#[test]
fn tar_tidies_dot_and_empty_parts() {
    let files = vec![("./a.md".to_string(), "x".to_string()), ("b//c.md".to_string(), "y".to_string())];
    let bytes = write_archive(&files).unwrap();
    assert_eq!(
        entries(&bytes),
        vec![("a.md".to_string(), "x".to_string(), 0o644), ("b/c.md".to_string(), "y".to_string(), 0o644)]
    );
}

#[test]
fn a_path_from_the_root_is_refused() {
    let files = vec![("/etc/a.md".to_string(), "x".to_string())];
    let e = write_archive(&files).unwrap_err();
    assert!(e.starts_with("无法添加README文件: "), "{}", e);
}
