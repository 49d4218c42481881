use zipdive::{Error, FilePath, Message, Notice, Progress, State, ZipDive, ZipsHandleState};

fn path(text: &str) -> FilePath {
    FilePath::parse(text)
}

fn session() -> ZipDive {
    ZipDive::new(path("/src"), path("/out"))
}

fn started() -> ZipDive {
    let mut session = session();
    assert_eq!(session.update(start(true, true)), Notice::Quiet);
    session
}

fn start(input_exists: bool, output_exists: bool) -> Message {
    Message::Start { input_exists, output_exists }
}

fn report(id: usize, progress: Progress) -> Message {
    Message::ZipFileHandleProgress((id, Ok(progress)))
}

fn found(id: usize, files: &[&str]) -> Message {
    report(id, Progress::Searching { zip_files: files.iter().map(|f| path(f)).collect() })
}

fn ended(id: usize, file_id: usize) -> Message {
    report(id, Progress::Zipping { file_id, state: Ok(()) })
}

fn layer_states(session: &ZipDive) -> Vec<ZipsHandleState> {
    session.zip_files().iter().map(|layer| layer.state()).collect()
}

/// A run whose first layer is finished.
fn first_layer_finished(auto_run: bool) -> ZipDive {
    let mut session = session();
    session.update(Message::AutoRunCheckboxToggled(auto_run));
    session.update(start(true, true));
    session.update(found(1, &["/src/a.zip", "/src/b.zip"]));
    session.update(ended(1, 1));
    session.update(ended(1, 0));
    session
}

#[test]
fn new_session_needs_a_start() {
    let session = ZipDive::new(path("/src"), path("/out"));
    assert_eq!(session.state(), State::NeedInit);
    assert!(session.zip_files().is_empty());
    assert!(!session.auto_run());
    assert_eq!(session.password(), "");
    assert_eq!(session.run_password(), None);
    assert_eq!(session.input_path(), &path("/src"));
    assert_eq!(session.output_path(), &path("/out"));
    assert!(session.subscription().is_empty());
}

#[test]
fn path_fields_are_read_without_the_white_space_around_them() {
    let mut session = session();
    assert_eq!(session.update(Message::InputPathChange(String::from("  /data/in \n"))), Notice::Quiet);
    assert_eq!(session.update(Message::OutputPathChange(String::from("\t/data/out/"))), Notice::Quiet);
    assert_eq!(session.input_path(), &path("/data/in"));
    assert_eq!(session.output_path(), &path("/data/out"));
    assert_eq!(session.output_path().to_string(), "/data/out");
    session.update(Message::InputPathChange(String::from("/my dir/in")));
    assert_eq!(session.input_path().to_string(), "/my dir/in");
}

#[test]
fn dialogs_set_the_roots_only_with_a_choice() {
    let mut session = session();
    assert_eq!(session.update(Message::InputPathFileDialog(None)), Notice::Quiet);
    assert_eq!(session.update(Message::OutputPathFileDialog(None)), Notice::Quiet);
    assert_eq!(session.input_path(), &path("/src"));
    assert_eq!(session.output_path(), &path("/out"));
    session.update(Message::InputPathFileDialog(Some(path("/picked/in"))));
    session.update(Message::OutputPathFileDialog(Some(path("/picked/out"))));
    assert_eq!(session.input_path(), &path("/picked/in"));
    assert_eq!(session.output_path(), &path("/picked/out"));
}

#[test]
fn password_of_the_run_is_the_field_unless_empty() {
    let mut session = session();
    assert_eq!(session.update(Message::PasswordChange(String::from("secret"))), Notice::Quiet);
    assert_eq!(session.password(), "secret");
    assert_eq!(session.run_password(), Some(String::from("secret")));
    session.update(Message::PasswordChange(String::new()));
    assert_eq!(session.run_password(), None);
    session.update(Message::PasswordChange(String::from(" ")));
    assert_eq!(session.run_password(), Some(String::from(" ")));
}

#[test]
fn start_needs_both_roots() {
    for (input_exists, output_exists) in [(false, true), (true, false), (false, false)] {
        let mut session = session();
        assert_eq!(session.update(start(input_exists, output_exists)), Notice::PathNotExists);
        assert_eq!(session.state(), State::NeedInit);
        assert!(session.zip_files().is_empty());
        assert_eq!(session.start(input_exists, output_exists), Notice::PathNotExists);
        assert_eq!(session, ZipDive::new(path("/src"), path("/out")));
    }
}

#[test]
fn start_creates_the_first_layer() {
    let mut session = session();
    assert_eq!(session.update(start(true, true)), Notice::Quiet);
    assert_eq!(session.state(), State::Running);
    assert_eq!(session.zip_files().len(), 1);
    let layer = &session.zip_files()[0];
    assert_eq!(layer.depth(), 1);
    assert_eq!(layer.input_path(), &path("/src"));
    assert_eq!(layer.output_path(), &path("/out/1"));
    assert_eq!(layer.state(), ZipsHandleState::Searching);
}

#[test]
fn a_run_under_way_is_not_started_again() {
    let mut session = started();
    session.update(found(1, &["/src/a.zip"]));
    assert_eq!(session.update(start(true, true)), Notice::AlreadyRunning);
    assert_eq!(session.zip_files().len(), 1);
    assert_eq!(layer_states(&session), vec![ZipsHandleState::Zipping]);
    assert_eq!(session.start(true, true), Notice::AlreadyRunning);
    assert_eq!(session.start(false, false), Notice::AlreadyRunning);
}

#[test]
fn roots_and_password_are_fixed_while_a_run_is_under_way() {
    let mut session = started();
    for message in [
        Message::InputPathChange(String::from("/other")),
        Message::OutputPathChange(String::from("/other")),
        Message::InputPathFileDialog(Some(path("/other"))),
        Message::OutputPathFileDialog(Some(path("/other"))),
        Message::InputPathFileDialog(None),
        Message::PasswordChange(String::from("late")),
    ] {
        assert_eq!(session.update(message), Notice::AlreadyRunning);
    }
    assert_eq!(session.input_path(), &path("/src"));
    assert_eq!(session.output_path(), &path("/out"));
    assert_eq!(session.password(), "");
}

#[test]
fn next_needs_a_run() {
    let mut session = session();
    assert_eq!(session.update(Message::Next), Notice::NeedStart);
    assert!(session.zip_files().is_empty());
    assert_eq!(session.advance(), Notice::NeedStart);
}

#[test]
fn next_while_the_layer_is_zipping_changes_nothing() {
    let mut session = started();
    session.update(found(1, &["/src/a.zip", "/src/b.zip"]));
    session.update(ended(1, 0));
    let mut same = started();
    same.update(found(1, &["/src/a.zip", "/src/b.zip"]));
    same.update(ended(1, 0));

    assert_eq!(layer_states(&session), vec![ZipsHandleState::Zipping]);
    assert_eq!(session.update(Message::Next), Notice::PreviousNotFinished);
    assert_eq!(session.zip_files().len(), 1);
    assert_eq!(session, same);
    assert_eq!(session.advance(), Notice::PreviousNotFinished);
    assert_eq!(session, same);
}

#[test]
fn next_while_the_layer_is_searching_or_broken_changes_nothing() {
    let mut session = started();
    assert_eq!(session.update(Message::Next), Notice::PreviousNotFinished);
    assert_eq!(session.zip_files().len(), 1);
    session.update(Message::ZipFileHandleProgress((1, Err(Error::SearchFailed))));
    assert_eq!(layer_states(&session), vec![ZipsHandleState::Error]);
    assert_eq!(session.update(Message::Next), Notice::PreviousNotFinished);
    assert_eq!(session.zip_files().len(), 1);
    assert_eq!(session.state(), State::Running);
}

#[test]
fn next_after_a_finished_layer_begins_the_next_layer() {
    let mut session = first_layer_finished(false);
    assert_eq!(layer_states(&session), vec![ZipsHandleState::Finished]);
    assert_eq!(session.update(Message::Next), Notice::Quiet);
    assert_eq!(layer_states(&session), vec![ZipsHandleState::Finished, ZipsHandleState::Searching]);
    let layer = &session.zip_files()[1];
    assert_eq!(layer.depth(), 2);
    assert_eq!(layer.input_path(), &path("/out/1"));
    assert_eq!(layer.input_path(), session.zip_files()[0].output_path());
    assert_eq!(layer.output_path(), &path("/out/2"));
    // and again only once that layer is finished
    assert_eq!(session.update(Message::Next), Notice::PreviousNotFinished);
    assert_eq!(session.zip_files().len(), 2);
}

#[test]
fn next_in_automatic_mode_takes_no_step() {
    let mut session = first_layer_finished(false);
    session.update(Message::AutoRunCheckboxToggled(true));
    assert!(session.auto_run());
    assert_eq!(session.update(Message::Next), Notice::AutoMode);
    assert_eq!(session.zip_files().len(), 1);
    session.set_auto_run(false);
    assert!(!session.auto_run());
    assert_eq!(session.update(Message::Next), Notice::Quiet);
    assert_eq!(session.zip_files().len(), 2);
}

#[test]
fn automatic_mode_begins_the_next_layer_with_the_last_report() {
    let mut session = session();
    session.update(Message::AutoRunCheckboxToggled(true));
    session.update(start(true, true));
    session.update(found(1, &["/src/a.zip", "/src/b.zip"]));
    session.update(ended(1, 1));
    assert_eq!(session.zip_files().len(), 1);
    session.update(ended(1, 0));
    assert_eq!(layer_states(&session), vec![ZipsHandleState::Finished, ZipsHandleState::Searching]);
    assert_eq!(session.zip_files()[1].input_path(), &path("/out/1"));
    assert_eq!(session.zip_files()[1].output_path(), &path("/out/2"));
    assert_eq!(session.zip_files()[1].depth(), 2);
    // what comes in late for the finished layer begins no further layer
    session.update(report(1, Progress::Finished));
    session.update(ended(1, 0));
    assert_eq!(session.zip_files().len(), 2);
}

#[test]
fn manual_mode_begins_no_layer_by_itself() {
    let session = first_layer_finished(false);
    assert_eq!(session.zip_files().len(), 1);
    assert_eq!(session.state(), State::Running);
}

#[test]
fn a_layer_without_archives_ends_the_descent() {
    for auto_run in [false, true] {
        let mut session = first_layer_finished(auto_run);
        if !auto_run {
            session.update(Message::Next);
        }
        assert_eq!(session.state(), State::Running);
        session.update(report(2, Progress::EmptyZips));
        assert_eq!(session.state(), State::Finish);
        assert_eq!(layer_states(&session), vec![ZipsHandleState::Finished, ZipsHandleState::EmptyZips]);
        assert_eq!(session.update(Message::Next), Notice::AllFinished);
        assert_eq!(session.zip_files().len(), 2);
        assert!(session.subscription().is_empty());
    }
}

#[test]
fn an_empty_first_layer_ends_the_descent_at_once() {
    let mut session = started();
    session.update(report(1, Progress::EmptyZips));
    assert_eq!(session.state(), State::Finish);
    assert_eq!(layer_states(&session), vec![ZipsHandleState::EmptyZips]);
}

#[test]
fn a_broken_layer_is_not_followed_by_another() {
    let mut session = session();
    session.update(Message::AutoRunCheckboxToggled(true));
    session.update(start(true, true));
    session.update(found(1, &["/src/a.zip"]));
    session.update(Message::ZipFileHandleProgress((
        1,
        Err(Error::IoError(String::from("cannot create directory"))),
    )));
    assert_eq!(layer_states(&session), vec![ZipsHandleState::Error]);
    assert_eq!(session.state(), State::Running);
    session.update(ended(1, 0));
    assert_eq!(session.zip_files().len(), 1);
    assert!(session.subscription().is_empty());
}

#[test]
fn reports_for_layers_that_do_not_exist_change_nothing() {
    let mut session = started();
    for id in [0, 2, 3, usize::MAX] {
        session.update(found(id, &["/src/a.zip"]));
        session.update(report(id, Progress::EmptyZips));
    }
    assert_eq!(layer_states(&session), vec![ZipsHandleState::Searching]);
    assert_eq!(session.state(), State::Running);

    let mut idle = ZipDive::new(path("/src"), path("/out"));
    idle.update(report(1, Progress::EmptyZips));
    idle.report(1, Ok(Progress::EmptyZips));
    assert_eq!(idle, ZipDive::new(path("/src"), path("/out")));
}

#[test]
fn a_new_start_after_the_end_begins_again_at_layer_one() {
    let mut session = first_layer_finished(true);
    session.update(report(2, Progress::EmptyZips));
    assert_eq!(session.state(), State::Finish);
    assert_eq!(session.update(Message::OutputPathChange(String::from("/again"))), Notice::Quiet);
    assert_eq!(session.update(start(true, false)), Notice::PathNotExists);
    assert_eq!(session.state(), State::Finish);
    assert_eq!(session.update(start(true, true)), Notice::Quiet);
    assert_eq!(session.state(), State::Running);
    assert_eq!(layer_states(&session), vec![ZipsHandleState::Searching]);
    assert_eq!(session.zip_files()[0].depth(), 1);
    assert_eq!(session.zip_files()[0].input_path(), &path("/src"));
    assert_eq!(session.zip_files()[0].output_path(), &path("/again/1"));
}

#[test]
fn only_the_open_layer_has_a_run() {
    let mut session = session();
    session.update(Message::PasswordChange(String::from("pw")));
    session.update(start(true, true));
    let runs = session.subscription();
    assert_eq!(runs.len(), 1);
    assert_eq!(runs[0].id(), 1);
    assert_eq!(runs[0].source_dir(), &path("/src"));
    assert_eq!(runs[0].target_dir(), &path("/out/1"));

    session.update(found(1, &["/src/a.zip"]));
    assert_eq!(session.subscription().len(), 1);
    session.update(ended(1, 0));
    assert!(session.subscription().is_empty());
    session.update(Message::Next);
    let runs = session.subscription();
    assert_eq!(runs.len(), 1);
    assert_eq!(runs[0].id(), 2);
    assert_eq!(runs[0].source_dir(), &path("/out/1"));
    assert_eq!(runs[0].target_dir(), &path("/out/2"));
}

#[test]
fn layers_are_numbered_from_one_without_gaps() {
    let mut session = session();
    session.update(Message::AutoRunCheckboxToggled(true));
    session.update(start(true, true));
    for id in 1..=12 {
        session.update(found(id, &["/x/a.zip"]));
        session.update(ended(id, 0));
    }
    assert_eq!(session.zip_files().len(), 13);
    for (i, layer) in session.zip_files().iter().enumerate() {
        assert_eq!(layer.depth(), i + 1);
        assert_eq!(layer.output_path().to_string(), format!("/out/{}", i + 1));
        if i > 0 {
            assert_eq!(layer.input_path(), session.zip_files()[i - 1].output_path());
        } else {
            assert_eq!(layer.input_path(), &path("/src"));
        }
    }
}
