use zipdive::{
    run_zip_dir, unzip_dir, Error, ExtractJob, FilePath, LayerRun, Progress, RunAction, RunEvent,
    RunPhase, WalkItem,
};

fn path(text: &str) -> FilePath {
    FilePath::parse(text)
}

fn file(text: &str) -> WalkItem {
    WalkItem::Found { path: path(text), is_file: true }
}

fn dir(text: &str) -> WalkItem {
    WalkItem::Found { path: path(text), is_file: false }
}

fn job(file_id: usize, file: &str, output_dir: &str, password: Option<&str>) -> ExtractJob {
    ExtractJob {
        file_id,
        file: path(file),
        output_dir: path(output_dir),
        password: password.map(String::from),
    }
}

fn send(id: usize, progress: Progress) -> RunAction {
    RunAction::Send((id, Ok(progress)))
}

fn scanned(items: Vec<WalkItem>) -> RunEvent {
    RunEvent::Scanned { exists: true, items }
}

fn two_archives() -> Vec<WalkItem> {
    vec![dir("/src"), file("/src/a.zip"), dir("/src/sub"), file("/src/sub/b.rar"), file("/src/c.txt")]
}

fn run_of_two() -> LayerRun {
    let mut run = run_zip_dir(1, path("/src"), path("/out/1"), None);
    run.step(scanned(two_archives()));
    run
}

fn extracting_two() -> LayerRun {
    let mut run = run_of_two();
    run.step(RunEvent::DirCreated(Ok(())));
    run.step(RunEvent::DirCreated(Ok(())));
    run
}

#[test]
fn unzip_dir_plans_one_extraction_for_each_archive() {
    let plan = unzip_dir(&path("/src"), &path("/out/1"), true, &two_archives(), &None);
    assert_eq!(
        plan,
        Ok(vec![
            job(0, "/src/a.zip", "/out/1/a", None),
            job(1, "/src/sub/b.rar", "/out/1/sub/b", None),
        ])
    );
}

#[test]
fn unzip_dir_gives_every_extraction_the_password() {
    let password = Some(String::from("secret"));
    let plan = unzip_dir(&path("/src"), &path("/out/1"), true, &two_archives(), &password);
    assert_eq!(
        plan,
        Ok(vec![
            job(0, "/src/a.zip", "/out/1/a", Some("secret")),
            job(1, "/src/sub/b.rar", "/out/1/sub/b", Some("secret")),
        ])
    );
}

#[test]
fn unzip_dir_unpacks_file_zip_into_file() {
    let items = vec![dir("/tmp/x/source"), file("/tmp/x/source/test_str.txt"), file("/tmp/x/source/file.zip")];
    let plan = unzip_dir(&path("/tmp/x/source"), &path("/tmp/x/output"), true, &items, &None);
    assert_eq!(plan, Ok(vec![job(0, "/tmp/x/source/file.zip", "/tmp/x/output/file", None)]));
}

#[test]
fn unzip_dir_of_a_missing_directory_fails() {
    let plan = unzip_dir(&path("/src"), &path("/out/1"), false, &Vec::new(), &None);
    assert_eq!(plan, Err(Error::FileNotExists(path("/src"))));
}

#[test]
fn unzip_dir_without_archives_plans_nothing() {
    let items = vec![dir("/src"), file("/src/a.txt")];
    assert_eq!(unzip_dir(&path("/src"), &path("/out/1"), true, &items, &None), Ok(Vec::new()));
}

#[test]
fn new_run_waits_for_the_scan() {
    let run = run_zip_dir(3, path("/out/2"), path("/out/3"), Some(String::from("pw")));
    assert_eq!(run.id(), 3);
    assert_eq!(run.source_dir(), &path("/out/2"));
    assert_eq!(run.target_dir(), &path("/out/3"));
    assert_eq!(run.phase(), RunPhase::Scanning);
}

#[test]
fn empty_directory_is_reported_and_closes_the_run() {
    let mut run = run_zip_dir(1, path("/src"), path("/out/1"), None);
    let actions = run.step(scanned(vec![dir("/src")]));
    assert_eq!(actions, vec![send(1, Progress::EmptyZips)]);
    assert_eq!(run.phase(), RunPhase::Closed);
}

#[test]
fn missing_directory_is_the_failure_of_the_layer() {
    let mut run = run_zip_dir(2, path("/out/1"), path("/out/2"), None);
    let actions = run.step(RunEvent::Scanned { exists: false, items: Vec::new() });
    assert_eq!(actions, vec![RunAction::Send((2, Err(Error::FileNotExists(path("/out/1")))))]);
    assert_eq!(run.phase(), RunPhase::Closed);
}

#[test]
fn archives_are_reported_and_the_first_directory_is_asked_for() {
    let mut run = run_zip_dir(1, path("/src"), path("/out/1"), None);
    let actions = run.step(scanned(two_archives()));
    assert_eq!(
        actions,
        vec![
            send(1, Progress::Searching { zip_files: vec![path("/src/a.zip"), path("/src/sub/b.rar")] }),
            RunAction::CreateDir(path("/out/1/a")),
        ]
    );
    assert_eq!(run.phase(), RunPhase::Preparing);
}

#[test]
fn extractions_are_set_going_one_after_the_other() {
    let mut run = run_zip_dir(1, path("/src"), path("/out/1"), Some(String::from("pw")));
    run.step(scanned(two_archives()));
    let actions = run.step(RunEvent::DirCreated(Ok(())));
    assert_eq!(
        actions,
        vec![
            RunAction::Unzip(job(0, "/src/a.zip", "/out/1/a", Some("pw"))),
            RunAction::CreateDir(path("/out/1/sub/b")),
        ]
    );
    assert_eq!(run.phase(), RunPhase::Preparing);
    let actions = run.step(RunEvent::DirCreated(Ok(())));
    assert_eq!(actions, vec![RunAction::Unzip(job(1, "/src/sub/b.rar", "/out/1/sub/b", Some("pw")))]);
    assert_eq!(run.phase(), RunPhase::Extracting);
}

#[test]
fn ends_are_reported_as_they_come_and_finished_follows_the_last() {
    let mut run = extracting_two();
    let failure = Error::ZipError((String::from("oops"), path("/src/sub/b.rar")));
    let actions = run.step(RunEvent::Unzipped { file_id: 1, state: Err(failure.clone()) });
    assert_eq!(actions, vec![send(1, Progress::Zipping { file_id: 1, state: Err(failure) })]);
    assert_eq!(run.phase(), RunPhase::Extracting);
    let actions = run.step(RunEvent::Unzipped { file_id: 0, state: Ok(()) });
    assert_eq!(
        actions,
        vec![send(1, Progress::Zipping { file_id: 0, state: Ok(()) }), send(1, Progress::Finished)]
    );
    assert_eq!(run.phase(), RunPhase::Closed);
}

#[test]
fn directory_that_cannot_be_made_is_the_failure_of_the_layer() {
    let mut run = run_of_two();
    run.step(RunEvent::DirCreated(Ok(())));
    let actions = run.step(RunEvent::DirCreated(Err(String::from("read-only file system"))));
    assert_eq!(
        actions,
        vec![RunAction::Send((1, Err(Error::IoError(String::from("read-only file system")))))]
    );
    assert_eq!(run.phase(), RunPhase::Closed);
    // nothing is reported after the failure
    assert!(run.step(RunEvent::Unzipped { file_id: 0, state: Ok(()) }).is_empty());
    assert_eq!(run.phase(), RunPhase::Closed);
}

#[test]
fn events_out_of_turn_ask_for_nothing() {
    let mut run = run_zip_dir(1, path("/src"), path("/out/1"), None);
    assert!(run.step(RunEvent::DirCreated(Ok(()))).is_empty());
    assert!(run.step(RunEvent::Unzipped { file_id: 0, state: Ok(()) }).is_empty());
    assert_eq!(run.phase(), RunPhase::Scanning);

    let mut run = run_of_two();
    assert!(run.step(scanned(two_archives())).is_empty());
    assert!(run.step(RunEvent::Unzipped { file_id: 0, state: Ok(()) }).is_empty());
    assert_eq!(run.phase(), RunPhase::Preparing);

    let mut run = extracting_two();
    assert!(run.step(scanned(two_archives())).is_empty());
    assert!(run.step(RunEvent::DirCreated(Ok(()))).is_empty());
    assert!(run.step(RunEvent::Unzipped { file_id: 2, state: Ok(()) }).is_empty());
    assert_eq!(run.step(RunEvent::Unzipped { file_id: 0, state: Ok(()) }).len(), 1);
    // the end of an extraction is reported once
    assert!(run.step(RunEvent::Unzipped { file_id: 0, state: Ok(()) }).is_empty());
    assert_eq!(run.phase(), RunPhase::Extracting);
    assert_eq!(run.step(RunEvent::Unzipped { file_id: 1, state: Ok(()) }).len(), 2);

    // a closed run stays closed
    assert!(run.step(scanned(two_archives())).is_empty());
    assert!(run.step(RunEvent::DirCreated(Ok(()))).is_empty());
    assert!(run.step(RunEvent::Unzipped { file_id: 1, state: Ok(()) }).is_empty());
    assert_eq!(run.phase(), RunPhase::Closed);
}
