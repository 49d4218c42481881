use zipdive::{
    unzip_file, unzip_outcome, Error, FilePath, LayerRun, Message, Notice, RunAction, RunEvent,
    State, WalkItem, ZipDive, ZipFileHandleState, ZipsHandleState,
};

/// The files of a make-believe disk, and what each archive holds.
struct Disk {
    dirs: Vec<String>,
    files: Vec<String>,
    contents: Vec<(&'static str, Vec<&'static str>)>,
    broken: Vec<&'static str>,
    commands: Vec<String>,
}

impl Disk {
    fn new(dirs: &[&str], files: &[&str], contents: Vec<(&'static str, Vec<&'static str>)>) -> Disk {
        Disk {
            dirs: dirs.iter().map(|d| d.to_string()).collect(),
            files: files.iter().map(|f| f.to_string()).collect(),
            contents,
            broken: Vec::new(),
            commands: Vec::new(),
        }
    }

    fn has_dir(&self, dir: &FilePath) -> bool {
        self.dirs.contains(&dir.to_string())
    }

    fn walk(&self, dir: &FilePath) -> Vec<WalkItem> {
        let below = format!("{}/", dir.to_string());
        let mut items = Vec::new();
        for d in &self.dirs {
            if *d == dir.to_string() || d.starts_with(&below) {
                items.push(WalkItem::Found { path: FilePath::parse(d), is_file: false });
            }
        }
        for f in &self.files {
            if f.starts_with(&below) {
                items.push(WalkItem::Found { path: FilePath::parse(f), is_file: true });
            }
        }
        items
    }

    fn create_dir_all(&mut self, dir: &FilePath) {
        let mut at = dir.clone();
        while at.len() > 0 {
            if !self.dirs.contains(&at.to_string()) {
                self.dirs.push(at.to_string());
            }
            at = at.without_last();
        }
    }

    /// Plays the extraction tool: unpacks what the archive holds, unless the archive is broken.
    fn unzip(&mut self, file: &FilePath, output_dir: &FilePath) -> (bool, String) {
        let name = file.file_name().unwrap();
        if self.broken.contains(&name.as_str()) {
            return (false, String::from("ERROR: Cannot open the file as archive"));
        }
        let held: Vec<&'static str> = self
            .contents
            .iter()
            .filter(|(archive, _)| *archive == name)
            .flat_map(|(_, held)| held.clone())
            .collect();
        for inner in held {
            self.files.push(output_dir.join(&FilePath::parse(inner)).to_string());
        }
        (true, String::new())
    }
}

/// Unpacks one layer as the program around the engine does, and hands every
/// report on to the session.
fn unpack_layer(disk: &mut Disk, session: &mut ZipDive, mut run: LayerRun) {
    let exists = disk.has_dir(run.source_dir());
    let items = disk.walk(run.source_dir());
    let mut actions = run.step(RunEvent::Scanned { exists, items });
    let mut under_way = Vec::new();
    loop {
        let mut next = Vec::new();
        for action in actions {
            match action {
                RunAction::Send(report) => {
                    assert_eq!(session.update(Message::ZipFileHandleProgress(report)), Notice::Quiet);
                }
                RunAction::CreateDir(dir) => {
                    disk.create_dir_all(&dir);
                    next.extend(run.step(RunEvent::DirCreated(Ok(()))));
                }
                RunAction::Unzip(job) => under_way.push(job),
            }
        }
        if next.is_empty() {
            break;
        }
        actions = next;
    }
    // the extractions end in the reverse of the order in which they began
    while let Some(job) = under_way.pop() {
        let command = unzip_file("linux", &job.file, &job.output_dir, job.password.clone()).unwrap();
        disk.commands.push(command.args[1].clone());
        let (success, stderr) = disk.unzip(&job.file, &job.output_dir);
        let state = unzip_outcome(&job.file, success, stderr);
        for action in run.step(RunEvent::Unzipped { file_id: job.file_id, state }) {
            match action {
                RunAction::Send(report) => {
                    session.update(Message::ZipFileHandleProgress(report));
                }
                other => panic!("nothing is left to set going: {:?}", other),
            }
        }
    }
}

fn descend(disk: &mut Disk, session: &mut ZipDive) {
    for _ in 0..100 {
        let mut runs = session.subscription();
        match runs.pop() {
            Some(run) => unpack_layer(disk, session, run),
            None => return,
        }
        assert!(runs.is_empty());
    }
    panic!("the descent does not end");
}

fn layer_states(session: &ZipDive) -> Vec<ZipsHandleState> {
    session.zip_files().iter().map(|layer| layer.state()).collect()
}

fn nested_disk() -> Disk {
    Disk::new(
        &["/src", "/out"],
        &["/src/outer.zip"],
        vec![("outer.zip", vec!["inner.zip"]), ("inner.zip", vec!["note.txt"])],
    )
}

#[test]
fn two_levels_of_nesting_take_two_layers_and_an_empty_one() {
    let mut disk = nested_disk();
    let mut session = ZipDive::new(FilePath::parse("/src"), FilePath::parse("/out"));
    session.update(Message::AutoRunCheckboxToggled(true));
    let input_exists = disk.has_dir(session.input_path());
    let output_exists = disk.has_dir(session.output_path());
    assert_eq!(session.update(Message::Start { input_exists, output_exists }), Notice::Quiet);

    descend(&mut disk, &mut session);

    assert_eq!(session.state(), State::Finish);
    assert_eq!(
        layer_states(&session),
        vec![ZipsHandleState::Finished, ZipsHandleState::Finished, ZipsHandleState::EmptyZips]
    );
    assert_eq!(session.zip_files()[0].zip_files().len(), 1);
    assert_eq!(session.zip_files()[1].zip_files().len(), 1);
    assert_eq!(session.zip_files()[2].zip_files().len(), 0);
    assert_eq!(session.zip_files()[1].zip_files()[0].path().to_string(), "/out/1/outer/inner.zip");
    assert_eq!(session.zip_files()[1].zip_files()[0].show_path().to_string(), "outer/inner.zip");
    assert!(disk.files.contains(&String::from("/out/1/outer/inner.zip")));
    assert!(disk.files.contains(&String::from("/out/2/outer/inner/note.txt")));
    assert_eq!(
        disk.commands,
        vec![
            "7z x \"/src/outer.zip\" -o\"/out/1/outer\"",
            "7z x \"/out/1/outer/inner.zip\" -o\"/out/2/outer/inner\"",
        ]
    );
}

#[test]
fn the_same_descent_step_by_step() {
    let mut disk = nested_disk();
    let mut session = ZipDive::new(FilePath::parse("/src"), FilePath::parse("/out"));
    session.update(Message::Start { input_exists: true, output_exists: true });

    descend(&mut disk, &mut session);
    assert_eq!(layer_states(&session), vec![ZipsHandleState::Finished]);
    assert_eq!(session.state(), State::Running);

    assert_eq!(session.update(Message::Next), Notice::Quiet);
    descend(&mut disk, &mut session);
    assert_eq!(layer_states(&session), vec![ZipsHandleState::Finished; 2]);

    assert_eq!(session.update(Message::Next), Notice::Quiet);
    descend(&mut disk, &mut session);
    assert_eq!(session.state(), State::Finish);
    assert_eq!(session.zip_files().len(), 3);
    assert_eq!(session.update(Message::Next), Notice::AllFinished);
    assert_eq!(session.zip_files().len(), 3);
    assert!(disk.files.contains(&String::from("/out/2/outer/inner/note.txt")));
}

#[test]
fn an_empty_input_directory_ends_the_descent_with_its_first_layer() {
    let mut disk = Disk::new(&["/src", "/out"], &[], Vec::new());
    let mut session = ZipDive::new(FilePath::parse("/src"), FilePath::parse("/out"));
    session.update(Message::AutoRunCheckboxToggled(true));
    session.update(Message::Start { input_exists: true, output_exists: true });
    descend(&mut disk, &mut session);
    assert_eq!(session.state(), State::Finish);
    assert_eq!(layer_states(&session), vec![ZipsHandleState::EmptyZips]);
    assert!(disk.commands.is_empty());
}

#[test]
fn a_broken_archive_does_not_stop_its_neighbours() {
    let mut disk = Disk::new(
        &["/src", "/src/sub", "/out"],
        &["/src/good.zip", "/src/sub/bad.rar", "/src/sub/also.7z", "/src/readme.txt"],
        vec![("good.zip", vec!["a.txt"]), ("also.7z", vec!["deep/b.txt"])],
    );
    disk.broken.push("bad.rar");
    let mut session = ZipDive::new(FilePath::parse("/src"), FilePath::parse("/out"));
    session.update(Message::PasswordChange(String::from("pw")));
    session.update(Message::AutoRunCheckboxToggled(true));
    session.update(Message::Start { input_exists: true, output_exists: true });
    descend(&mut disk, &mut session);

    assert_eq!(session.state(), State::Finish);
    assert_eq!(layer_states(&session), vec![ZipsHandleState::Finished, ZipsHandleState::EmptyZips]);
    let first = &session.zip_files()[0];
    assert_eq!(first.finish_count(), 3);
    let states: Vec<(String, ZipFileHandleState)> =
        first.zip_files().iter().map(|f| (f.show_path().to_string(), f.state())).collect();
    assert_eq!(
        states,
        vec![
            (String::from("good.zip"), ZipFileHandleState::Finished),
            (String::from("sub/bad.rar"), ZipFileHandleState::Error),
            (String::from("sub/also.7z"), ZipFileHandleState::Finished),
        ]
    );
    assert_eq!(
        first.zip_files()[1].error(),
        &Some(Error::ZipError((
            String::from("ERROR: Cannot open the file as archive"),
            FilePath::parse("/src/sub/bad.rar")
        )))
    );
    assert!(disk.files.contains(&String::from("/out/1/good/a.txt")));
    assert!(disk.files.contains(&String::from("/out/1/sub/also/deep/b.txt")));
    assert!(disk.dirs.contains(&String::from("/out/1/sub/bad")));
    assert!(disk
        .commands
        .contains(&String::from("7z x \"/src/sub/bad.rar\" -o\"/out/1/sub/bad\" -p \"pw\"")));
}

#[test]
fn a_missing_input_directory_breaks_the_first_layer() {
    let mut disk = Disk::new(&["/out"], &[], Vec::new());
    let mut session = ZipDive::new(FilePath::parse("/src"), FilePath::parse("/out"));
    // the roots were there when the run was started, and the input has gone since
    session.update(Message::Start { input_exists: true, output_exists: true });
    descend(&mut disk, &mut session);
    assert_eq!(session.state(), State::Running);
    assert_eq!(layer_states(&session), vec![ZipsHandleState::Error]);
    assert_eq!(session.update(Message::Next), Notice::PreviousNotFinished);
}
