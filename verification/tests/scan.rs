use assert_fs::fixture::{FileWriteBin, FileWriteStr, PathChild, PathCreateDir};
use assert_fs::TempDir;
use walkdir::WalkDir;
use zipdive::{collect_compressed_files_in_dir, is_compressed_file, Error, FilePath, WalkItem};

fn path(text: &str) -> FilePath {
    FilePath::parse(text)
}

fn file(text: &str) -> WalkItem {
    WalkItem::Found { path: path(text), is_file: true }
}

fn dir(text: &str) -> WalkItem {
    WalkItem::Found { path: path(text), is_file: false }
}

fn texts(files: &[FilePath]) -> Vec<String> {
    files.iter().map(|f| f.to_string()).collect()
}

/// Walks through `root` as the program around the engine does.
fn walk(root: &std::path::Path) -> (FilePath, bool, Vec<WalkItem>) {
    let items = WalkDir::new(root)
        .into_iter()
        .map(|entry| match entry {
            Ok(entry) => WalkItem::Found {
                path: FilePath::parse(&entry.path().to_string_lossy()),
                is_file: entry.path().is_file(),
            },
            Err(_) => WalkItem::Unreadable,
        })
        .collect();
    (FilePath::parse(&root.to_string_lossy()), root.exists(), items)
}

#[test]
fn utils_test_collect_compressed() {
    let temp_project = TempDir::new().unwrap();
    let _archive_file = temp_project
        .child("test")
        .child("archive.tar.gz")
        .write_binary(&[])
        .unwrap();

    let (search_dir, exists, items) = walk(temp_project.path());
    let found_files = collect_compressed_files_in_dir(&search_dir, exists, &items).unwrap();
    assert!(!found_files.is_empty());

    found_files.into_iter().for_each(|file| {
        let ext = file.extension().unwrap_or_default();
        assert_eq!(ext, "gz");
    });

    temp_project.close().unwrap();
}

#[test]
fn scan_of_an_empty_directory_finds_nothing() {
    let temp = TempDir::new().unwrap();
    let (search_dir, exists, items) = walk(temp.path());
    assert!(exists);
    let found = collect_compressed_files_in_dir(&search_dir, exists, &items).unwrap();
    assert!(found.is_empty());
    temp.close().unwrap();
}

#[test]
fn scan_finds_the_archive_beside_the_text_file() {
    let temp = TempDir::new().unwrap();
    temp.child("a.zip").write_binary(&[]).unwrap();
    temp.child("a.txt").write_str("hello").unwrap();
    let (search_dir, exists, items) = walk(temp.path());
    let found = collect_compressed_files_in_dir(&search_dir, exists, &items).unwrap();
    assert_eq!(found.len(), 1);
    assert_eq!(found[0], search_dir.join(&path("a.zip")));
    assert_eq!(found[0].file_name(), Some(String::from("a.zip")));
    temp.close().unwrap();
}

#[test]
fn scan_passes_over_directories_named_like_archives() {
    let temp = TempDir::new().unwrap();
    temp.child("folder.zip").create_dir_all().unwrap();
    temp.child("folder.zip").child("inner.7z").write_binary(&[]).unwrap();
    let (search_dir, exists, items) = walk(temp.path());
    let found = collect_compressed_files_in_dir(&search_dir, exists, &items).unwrap();
    assert_eq!(texts(&found), vec![search_dir.join(&path("folder.zip/inner.7z")).to_string()]);
    temp.close().unwrap();
}

#[test]
fn scan_of_a_missing_directory_fails() {
    let temp = TempDir::new().unwrap();
    let missing = temp.path().join("nowhere");
    let (search_dir, exists, items) = walk(&missing);
    assert!(!exists);
    let outcome = collect_compressed_files_in_dir(&search_dir, exists, &items);
    assert_eq!(outcome, Err(Error::FileNotExists(search_dir)));
    temp.close().unwrap();
}

#[test]
fn missing_directory_is_an_error_whatever_was_found() {
    let items = vec![file("/src/a.zip")];
    assert_eq!(
        collect_compressed_files_in_dir(&path("/src"), false, &items),
        Err(Error::FileNotExists(path("/src")))
    );
}

#[test]
fn one_archive_and_one_text_file_give_one_archive() {
    let items = vec![dir("/src"), file("/src/a.zip"), file("/src/a.txt")];
    let found = collect_compressed_files_in_dir(&path("/src"), true, &items).unwrap();
    assert_eq!(texts(&found), vec!["/src/a.zip"]);
}

#[test]
fn archives_come_in_the_order_of_the_walk() {
    let items = vec![
        dir("/src"),
        file("/src/z.rar"),
        WalkItem::Unreadable,
        dir("/src/sub"),
        file("/src/sub/b.7z"),
        file("/src/sub/notes.md"),
        dir("/src/sub/dir.zip"),
        file("/src/a.tar"),
        file("/src/a.tar.gz"),
        file("/src/c.bz2"),
        WalkItem::Unreadable,
        file("/src/d.zip"),
    ];
    let found = collect_compressed_files_in_dir(&path("/src"), true, &items).unwrap();
    assert_eq!(
        texts(&found),
        vec!["/src/z.rar", "/src/sub/b.7z", "/src/a.tar", "/src/a.tar.gz", "/src/c.bz2", "/src/d.zip"]
    );
}

#[test]
fn nothing_found_gives_no_archive() {
    assert_eq!(collect_compressed_files_in_dir(&path("/src"), true, &Vec::new()), Ok(Vec::new()));
    let items = vec![dir("/src"), WalkItem::Unreadable, file("/src/readme")];
    assert_eq!(collect_compressed_files_in_dir(&path("/src"), true, &items), Ok(Vec::new()));
}

#[test]
fn archives_are_known_by_their_extension() {
    for name in ["a.zip", "a.rar", "a.7z", "a.tar", "a.gz", "a.bz2", "/x/y/archive.tar.gz", "a.b.zip", "..zip"] {
        assert!(is_compressed_file(&path(name)), "{}", name);
    }
    for name in [
        "a.txt", "a", "zip", ".zip", "a.ZIP", "a.Zip", "a.zipx", "a.zi", "a.zip.txt", "a.tgz", "a.xz",
        "a.zip ", "a.", "..", ".", "", "/", "a.zip/b",
    ] {
        assert!(!is_compressed_file(&path(name)), "{}", name);
    }
}
