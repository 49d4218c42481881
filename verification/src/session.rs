//! The descent as a whole: its two roots, its layers, and when the next layer begins.

use vstd::prelude::*;

use crate::error::{Error, ErrorView};
use crate::extract::password_view;
use crate::layer::{LayerView, ZipFiles, ZipsHandleState};
use crate::number::decimal;
use crate::path::{parse_path, FilePath, PathView};
use crate::progress::{event_view, Progress, ProgressView};
use crate::run::{LayerRun, RunView};
use crate::text::{trim, trimmed};

verus! {

/// How far the descent has come.
#[derive(Debug, Clone, Copy, PartialEq, Eq, Structural)]
pub enum State {
    /// No run has been started.
    NeedInit,
    /// A run is under way.
    Running,
    /// The last layer held no archive: the descent has reached the bottom.
    Finish,
}

/// What happens to the descent: what the user does in the window, and what
/// the unpacking of a layer reports.
#[derive(Debug, PartialEq, Eq)]
pub enum Message {
    /// The field of the directory to unpack holds this text.
    InputPathChange(String),
    /// The field of the directory to unpack into holds this text.
    OutputPathChange(String),
    /// The dialog for the directory to unpack has closed, with or without a choice.
    InputPathFileDialog(Option<FilePath>),
    /// The dialog for the directory to unpack into has closed, with or without a choice.
    OutputPathFileDialog(Option<FilePath>),
    /// The field of the password holds this text.
    PasswordChange(String),
    /// The user asks to start. The message says whether the two roots exist.
    Start { input_exists: bool, output_exists: bool },
    /// The unpacking of the layer with this number reports.
    ZipFileHandleProgress((usize, Result<Progress, Error>)),
    /// The user asks for the next layer.
    Next,
    /// The user switches the automatic descent on or off.
    AutoRunCheckboxToggled(bool),
}

/// A [`Message`] over plain values.
pub enum MessageView {
    InputPathChange(Seq<char>),
    OutputPathChange(Seq<char>),
    InputPathFileDialog(Option<PathView>),
    OutputPathFileDialog(Option<PathView>),
    PasswordChange(Seq<char>),
    Start { input_exists: bool, output_exists: bool },
    ZipFileHandleProgress(nat, Result<ProgressView, ErrorView>),
    Next,
    AutoRunCheckboxToggled(bool),
}

/// A chosen directory, or none, over plain values.
pub open spec fn choice_view(choice: Option<FilePath>) -> Option<PathView> {
    match choice {
        Some(path) => Some(path@),
        None => None,
    }
}

impl View for Message {
    type V = MessageView;

    open spec fn view(&self) -> MessageView {
        match self {
            Message::InputPathChange(text) => MessageView::InputPathChange(text@),
            Message::OutputPathChange(text) => MessageView::OutputPathChange(text@),
            Message::InputPathFileDialog(choice) => MessageView::InputPathFileDialog(
                choice_view(*choice),
            ),
            Message::OutputPathFileDialog(choice) => MessageView::OutputPathFileDialog(
                choice_view(*choice),
            ),
            Message::PasswordChange(text) => MessageView::PasswordChange(text@),
            Message::Start { input_exists, output_exists } => MessageView::Start {
                input_exists: *input_exists,
                output_exists: *output_exists,
            },
            Message::ZipFileHandleProgress(report) => MessageView::ZipFileHandleProgress(
                report.0 as nat,
                event_view(report.1),
            ),
            Message::Next => MessageView::Next,
            Message::AutoRunCheckboxToggled(on) => MessageView::AutoRunCheckboxToggled(*on),
        }
    }
}

/// What the descent answers to a message.
#[derive(Debug, Clone, Copy, PartialEq, Eq, Structural)]
pub enum Notice {
    /// Nothing to say: the message was taken in.
    Quiet,
    /// A run is under way: it cannot be started again, and its roots and its
    /// password stay as they are.
    AlreadyRunning,
    /// One of the two roots does not exist: no run was started.
    PathNotExists,
    /// The descent has reached the bottom: there is no next layer.
    AllFinished,
    /// The last layer held no archive: there is no next layer.
    LastLayerReached,
    /// The last layer is not finished: the next one has to wait.
    PreviousNotFinished,
    /// The descent goes on by itself: it takes no step on demand.
    AutoMode,
    /// No run has been started.
    NeedStart,
}

/// The descent: the two roots, the password, the layers from the top down,
/// and whether a finished layer is followed by the next without being asked.
#[derive(Debug, PartialEq, Eq)]
pub struct ZipDive {
    input_path: FilePath,
    output_path: FilePath,
    password: String,
    zip_files: Vec<ZipFiles>,
    auto_run: bool,
    state: State,
}

/// A [`ZipDive`] over plain values.
pub struct SessionView {
    pub input_path: PathView,
    pub output_path: PathView,
    pub password: Seq<char>,
    pub zip_files: Seq<LayerView>,
    pub auto_run: bool,
    pub state: State,
}

/// The layers lie below `base` as their numbers say: layer `n`, counted from
/// one, unpacks into the directory `n` of `base`, and each layer but the first
/// scans what the layer before it has unpacked.
pub open spec fn laid_out(layers: Seq<LayerView>, base: PathView) -> bool {
    forall|i: int|
        0 <= i < layers.len() ==> {
            &&& (#[trigger] layers[i]).depth == i + 1
            &&& layers[i].output_path == base.child(decimal((i + 1) as nat))
            &&& i > 0 ==> layers[i].input_path == base.child(decimal(i as nat))
        }
}

impl SessionView {
    /// The descent before its first run.
    pub open spec fn fresh(input_path: PathView, output_path: PathView) -> SessionView {
        SessionView {
            input_path,
            output_path,
            password: Seq::empty(),
            zip_files: Seq::empty(),
            auto_run: false,
            state: State::NeedInit,
        }
    }

    /// What holds of every descent:
    /// it has layers exactly when a run was started;
    /// every layer but the last is finished;
    /// it is at the bottom exactly when its last layer holds no archive;
    /// the layers lie below one directory as their numbers say, and while the
    /// run is under way that directory and the first layer's input are the
    /// two roots.
    pub open spec fn wf(self) -> bool {
        &&& forall|i: int| 0 <= i < self.zip_files.len() ==> (#[trigger] self.zip_files[i]).wf()
        &&& (self.state == State::NeedInit) == (self.zip_files.len() == 0)
        &&& forall|i: int|
            0 <= i < self.zip_files.len() - 1 ==> (#[trigger] self.zip_files[i]).state
                == ZipsHandleState::Finished
        &&& (self.state == State::Finish) == (self.zip_files.len() > 0
            && self.zip_files.last().state == ZipsHandleState::EmptyZips)
        &&& self.zip_files.len() > 0 ==> laid_out(
            self.zip_files,
            self.zip_files[0].output_path.without_last(),
        )
        &&& self.state == State::Running ==> {
            &&& self.zip_files[0].input_path == self.input_path
            &&& self.zip_files[0].output_path.without_last() == self.output_path
        }
    }

    /// The password of the run: the text of the password field, unless it is empty.
    pub open spec fn run_password(self) -> Option<Seq<char>> {
        if self.password.len() == 0 {
            None
        } else {
            Some(self.password)
        }
    }

    /// The layer that follows the layers there are: its number is one more
    /// than theirs, it scans the directory of their number below the output
    /// root and unpacks into the directory of its own number.
    pub open spec fn next_layer(self) -> LayerView {
        let n = self.zip_files.len();
        LayerView::fresh(
            self.output_path.child(decimal(n)),
            self.output_path.child(decimal(n + 1)),
            n + 1,
        )
    }

    /// The descent with one more layer.
    pub open spec fn descend(self) -> SessionView {
        SessionView { zip_files: self.zip_files.push(self.next_layer()), ..self }
    }

    /// The descent after the user has asked to start.
    ///
    /// While a run is under way nothing starts. Else both roots have to
    /// exist; then the layers there were give way to the first layer of a new
    /// run, which scans the input root and unpacks into the directory `1` of
    /// the output root.
    pub open spec fn start(self, input_exists: bool, output_exists: bool) -> (SessionView, Notice) {
        if self.state == State::Running {
            (self, Notice::AlreadyRunning)
        } else if !input_exists || !output_exists {
            (self, Notice::PathNotExists)
        } else {
            (
                SessionView {
                    zip_files: seq![
                        LayerView::fresh(self.input_path, self.output_path.child(decimal(1)), 1),
                    ],
                    state: State::Running,
                    ..self
                },
                Notice::Quiet,
            )
        }
    }

    /// The descent after the user has asked for the next layer.
    ///
    /// The next layer begins only while a run is under way, the descent does
    /// not go on by itself, and the last layer is finished. In every other
    /// case nothing changes, and the notice says why.
    pub open spec fn advance(self) -> (SessionView, Notice) {
        match self.state {
            State::Finish => (self, Notice::AllFinished),
            State::NeedInit => (self, Notice::NeedStart),
            State::Running => if self.auto_run {
                (self, Notice::AutoMode)
            } else if self.zip_files.len() == 0 {
                (self, Notice::Quiet)
            } else {
                match self.zip_files.last().state {
                    ZipsHandleState::Finished => (self.descend(), Notice::Quiet),
                    ZipsHandleState::EmptyZips => (self, Notice::LastLayerReached),
                    _ => (self, Notice::PreviousNotFinished),
                }
            },
        }
    }

    /// The descent after the unpacking of layer `id` has reported `event`.
    ///
    /// The layer takes the report in. Where that finishes the layer and the
    /// descent goes on by itself, the next layer begins. Where that shows the
    /// layer to hold no archive, the descent has reached the bottom. A report
    /// for a layer that does not exist changes nothing.
    pub open spec fn report(self, id: nat, event: Result<ProgressView, ErrorView>) -> SessionView {
        if 1 <= id <= self.zip_files.len() {
            let before = self.zip_files[id - 1];
            let after = before.after(event);
            let taken = SessionView { zip_files: self.zip_files.update(id - 1, after), ..self };
            if before.state != ZipsHandleState::Finished && after.state
                == ZipsHandleState::Finished {
                if self.auto_run {
                    taken.descend()
                } else {
                    taken
                }
            } else if before.state != ZipsHandleState::EmptyZips && after.state
                == ZipsHandleState::EmptyZips {
                SessionView { state: State::Finish, ..taken }
            } else {
                taken
            }
        } else {
            self
        }
    }

    /// The descent after `message`, and what it answers.
    ///
    /// While a run is under way the roots and the password stay as they are.
    /// The text of a path field counts without the white space around it. A
    /// dialog that closed without a choice changes nothing.
    pub open spec fn after(self, message: MessageView) -> (SessionView, Notice) {
        match message {
            MessageView::InputPathChange(text) => if self.state == State::Running {
                (self, Notice::AlreadyRunning)
            } else {
                (SessionView { input_path: parse_path(trimmed(text)), ..self }, Notice::Quiet)
            },
            MessageView::OutputPathChange(text) => if self.state == State::Running {
                (self, Notice::AlreadyRunning)
            } else {
                (SessionView { output_path: parse_path(trimmed(text)), ..self }, Notice::Quiet)
            },
            MessageView::InputPathFileDialog(choice) => if self.state == State::Running {
                (self, Notice::AlreadyRunning)
            } else {
                match choice {
                    Some(path) => (SessionView { input_path: path, ..self }, Notice::Quiet),
                    None => (self, Notice::Quiet),
                }
            },
            MessageView::OutputPathFileDialog(choice) => if self.state == State::Running {
                (self, Notice::AlreadyRunning)
            } else {
                match choice {
                    Some(path) => (SessionView { output_path: path, ..self }, Notice::Quiet),
                    None => (self, Notice::Quiet),
                }
            },
            MessageView::PasswordChange(text) => if self.state == State::Running {
                (self, Notice::AlreadyRunning)
            } else {
                (SessionView { password: text, ..self }, Notice::Quiet)
            },
            MessageView::Start { input_exists, output_exists } => self.start(
                input_exists,
                output_exists,
            ),
            MessageView::ZipFileHandleProgress(id, event) => (self.report(id, event), Notice::Quiet),
            MessageView::Next => self.advance(),
            MessageView::AutoRunCheckboxToggled(on) => (
                SessionView { auto_run: on, ..self },
                Notice::Quiet,
            ),
        }
    }

    /// The descent after the messages `messages`, taken in one after the other.
    pub open spec fn after_all(self, messages: Seq<MessageView>) -> SessionView
        decreases messages.len(),
    {
        if messages.len() == 0 {
            self
        } else {
            self.after_all(messages.drop_last()).after(messages.last()).0
        }
    }

    /// The runs that unpack the layers that are open, with the password of the run.
    pub open spec fn subscription(self) -> Seq<RunView> {
        self.zip_files.filter_map(|layer: LayerView| layer.subscription(self.run_password()))
    }
}

impl View for ZipDive {
    type V = SessionView;

    closed spec fn view(&self) -> SessionView {
        SessionView {
            input_path: self.input_path@,
            output_path: self.output_path@,
            password: self.password@,
            zip_files: self.zip_files.deep_view(),
            auto_run: self.auto_run,
            state: self.state,
        }
    }
}

/// A path with one more name, and that name taken away again, is the path.
pub proof fn lemma_child_without_last(base: PathView, name: Seq<char>)
    ensures
        base.child(name).without_last() == base,
{
    assert(base.names.push(name).drop_last() =~= base.names);
}

/// A report changes neither the number nor the directories of a layer, and it
/// changes nothing at all in a layer that is over.
pub proof fn lemma_layer_keeps_place(layer: LayerView, event: Result<ProgressView, ErrorView>)
    ensures
        layer.after(event).depth == layer.depth,
        layer.after(event).input_path == layer.input_path,
        layer.after(event).output_path == layer.output_path,
        !layer.is_open() ==> layer.after(event) == layer,
{
}

/// Every message leaves a descent a descent.
pub proof fn lemma_after_wf(session: SessionView, message: MessageView)
    requires
        session.wf(),
    ensures
        session.after(message).0.wf(),
{
    let next = session.after(message).0;
    match message {
        MessageView::Start { input_exists, output_exists } => {
            if session.state != State::Running && input_exists && output_exists {
                lemma_child_without_last(session.output_path, decimal(1));
            }
        },
        MessageView::Next => {
            lemma_descend_wf(session);
        },
        MessageView::ZipFileHandleProgress(id, event) => {
            lemma_report_wf(session, id, event);
        },
        _ => {},
    }
}

/// The next layer may begin below a run whose last layer is finished.
pub proof fn lemma_descend_wf(session: SessionView)
    requires
        session.wf(),
    ensures
        session.state == State::Running && session.zip_files.last().state
            == ZipsHandleState::Finished ==> session.descend().wf(),
{
    if session.state == State::Running && session.zip_files.last().state
        == ZipsHandleState::Finished {
        let next = session.descend();
        let n = session.zip_files.len() as int;
        assert(next.zip_files[0] == session.zip_files[0]);
        assert forall|i: int| 0 <= i < next.zip_files.len() implies (
        #[trigger] next.zip_files[i]).wf() by {
            if i < n {
                assert(next.zip_files[i] == session.zip_files[i]);
            }
        }
        assert forall|i: int| 0 <= i < next.zip_files.len() - 1 implies (
        #[trigger] next.zip_files[i]).state == ZipsHandleState::Finished by {
            assert(next.zip_files[i] == session.zip_files[i]);
        }
        assert(laid_out(next.zip_files, session.output_path)) by {
            assert forall|i: int| 0 <= i < next.zip_files.len() implies {
                &&& (#[trigger] next.zip_files[i]).depth == i + 1
                &&& next.zip_files[i].output_path == session.output_path.child(
                    decimal((i + 1) as nat),
                )
                &&& i > 0 ==> next.zip_files[i].input_path == session.output_path.child(
                    decimal(i as nat),
                )
            } by {
                if i < n {
                    assert(next.zip_files[i] == session.zip_files[i]);
                }
            }
        }
    }
}

/// Every report leaves a descent a descent.
pub proof fn lemma_report_wf(session: SessionView, id: nat, event: Result<ProgressView, ErrorView>)
    requires
        session.wf(),
    ensures
        session.report(id, event).wf(),
        !(1 <= id <= session.zip_files.len() && session.zip_files[id - 1].is_open())
            ==> session.report(id, event) == session,
{
    if 1 <= id <= session.zip_files.len() {
        let n = session.zip_files.len() as int;
        let before = session.zip_files[id - 1];
        let after = before.after(event);
        crate::layer::lemma_after_wf(before, event);
        lemma_layer_keeps_place(before, event);
        let taken = SessionView { zip_files: session.zip_files.update(id - 1, after), ..session };
        if !before.is_open() {
            assert(taken.zip_files =~= session.zip_files);
        } else {
            assert(id == n);
            assert(session.state == State::Running);
            let base = session.output_path;
            assert(taken.zip_files[n - 1] == after);
            assert forall|i: int| 0 <= i < taken.zip_files.len() implies (
            #[trigger] taken.zip_files[i]).wf() by {
                if i < n - 1 {
                    assert(taken.zip_files[i] == session.zip_files[i]);
                }
            }
            assert forall|i: int| 0 <= i < taken.zip_files.len() - 1 implies (
            #[trigger] taken.zip_files[i]).state == ZipsHandleState::Finished by {
                assert(taken.zip_files[i] == session.zip_files[i]);
            }
            assert(taken.zip_files[0].output_path == session.zip_files[0].output_path);
            assert(taken.zip_files[0].input_path == session.zip_files[0].input_path);
            assert(laid_out(taken.zip_files, base)) by {
                assert forall|i: int| 0 <= i < taken.zip_files.len() implies {
                    &&& (#[trigger] taken.zip_files[i]).depth == i + 1
                    &&& taken.zip_files[i].output_path == base.child(decimal((i + 1) as nat))
                    &&& i > 0 ==> taken.zip_files[i].input_path == base.child(decimal(i as nat))
                } by {
                    assert(taken.zip_files[i].depth == session.zip_files[i].depth);
                    assert(taken.zip_files[i].output_path == session.zip_files[i].output_path);
                    assert(taken.zip_files[i].input_path == session.zip_files[i].input_path);
                }
            }
            assert(after.state != ZipsHandleState::EmptyZips ==> taken.wf());
            if after.state == ZipsHandleState::Finished {
                lemma_descend_wf(taken);
            } else if after.state == ZipsHandleState::EmptyZips {
                let done = SessionView { state: State::Finish, ..taken };
                assert(done.wf());
            }
        }
    }
}

/// Whatever messages come in, a descent stays a descent.
pub proof fn lemma_always_wf(session: SessionView, messages: Seq<MessageView>)
    requires
        session.wf(),
    ensures
        session.after_all(messages).wf(),
    decreases messages.len(),
{
    if messages.len() > 0 {
        lemma_always_wf(session, messages.drop_last());
        lemma_after_wf(session.after_all(messages.drop_last()), messages.last());
    }
}

/// Asked for the next layer while the last layer is not finished, a descent
/// that takes its steps on demand says so and stays as it is: no layer begins.
pub proof fn lemma_advance_waits(session: SessionView)
    requires
        session.state == State::Running,
        !session.auto_run,
        session.zip_files.len() > 0,
        session.zip_files.last().is_open() || session.zip_files.last().state
            == ZipsHandleState::Error,
    ensures
        session.advance() == (session, Notice::PreviousNotFinished),
        session.after(MessageView::Next) == (session, Notice::PreviousNotFinished),
        session.advance().0.zip_files.len() == session.zip_files.len(),
{
}

/// The next layer begins on demand exactly where a run is under way, takes
/// its steps on demand, and has a finished last layer. The new layer then
/// scans what the last one has unpacked.
pub proof fn lemma_advance_descends(session: SessionView)
    requires
        session.wf(),
    ensures
        session.advance().0.zip_files.len() == session.zip_files.len() + if session.state
            == State::Running && !session.auto_run && session.zip_files.last().state
            == ZipsHandleState::Finished {
            1nat
        } else {
            0nat
        },
        session.advance().0.zip_files.len() > session.zip_files.len()
            ==> session.advance().0.zip_files.last().input_path
            == session.zip_files.last().output_path,
{
}

/// While a run is under way, layer `n`, counted from one, unpacks into the
/// directory `n` of the output root; the first layer scans the input root,
/// and each other layer scans what the layer before it has unpacked.
pub proof fn lemma_layout(session: SessionView, i: int)
    requires
        session.wf(),
        session.state == State::Running,
        0 <= i < session.zip_files.len(),
    ensures
        session.zip_files[i].depth == i + 1,
        session.zip_files[i].output_path == session.output_path.child(decimal((i + 1) as nat)),
        session.zip_files[i].input_path == if i == 0 {
            session.input_path
        } else {
            session.zip_files[i - 1].output_path
        },
{
    if i > 0 {
        assert(session.zip_files[i - 1].depth == i);
    }
}

/// At most the last layer is open: no two layers are unpacked at a time.
pub proof fn lemma_one_layer_at_a_time(session: SessionView, i: int)
    requires
        session.wf(),
        0 <= i < session.zip_files.len() - 1,
    ensures
        !session.zip_files[i].is_open(),
{
}

/// A descent reaches the bottom only with a report that shows its last layer
/// to hold no archive; and with such a report it does reach the bottom,
/// whether it takes its steps on demand or by itself.
pub proof fn lemma_bottom(session: SessionView, message: MessageView)
    requires
        session.wf(),
    ensures
        (session.state == State::Finish) == (session.zip_files.len() > 0
            && session.zip_files.last().state == ZipsHandleState::EmptyZips),
        session.state != State::Finish && session.after(message).0.state == State::Finish ==> (
        message matches MessageView::ZipFileHandleProgress(id, event) && id
            == session.zip_files.len() && session.zip_files.last().after(event).state
            == ZipsHandleState::EmptyZips),
        message matches MessageView::ZipFileHandleProgress(id, event) && id
            == session.zip_files.len() && id > 0 && session.zip_files.last().after(event).state
            == ZipsHandleState::EmptyZips ==> session.after(message).0.state == State::Finish,
{
    lemma_after_wf(session, message);
    match message {
        MessageView::ZipFileHandleProgress(id, event) => {
            lemma_report_wf(session, id, event);
            if 1 <= id <= session.zip_files.len() {
                lemma_layer_keeps_place(session.zip_files[id - 1], event);
            }
        },
        _ => {},
    }
}

/// A report that finishes the last layer of a descent that goes on by itself
/// begins the next layer at once; in a descent that takes its steps on
/// demand, no report begins a layer.
pub proof fn lemma_report_descends(
    session: SessionView,
    id: nat,
    event: Result<ProgressView, ErrorView>,
)
    requires
        session.wf(),
    ensures
        session.report(id, event).zip_files.len() == session.zip_files.len() + if session.auto_run
            && 1 <= id <= session.zip_files.len() && session.zip_files[id - 1].is_open()
            && session.zip_files[id - 1].after(event).state == ZipsHandleState::Finished {
            1nat
        } else {
            0nat
        },
{
    if 1 <= id <= session.zip_files.len() {
        lemma_layer_keeps_place(session.zip_files[id - 1], event);
    }
}

impl ZipDive {
    /// What holds of every descent.
    pub open spec fn wf(&self) -> bool {
        self@.wf()
    }

    /// The descent before its first run, with `input_path` and `output_path`
    /// as its roots.
    pub fn new(input_path: FilePath, output_path: FilePath) -> (session: ZipDive)
        ensures
            session@ == SessionView::fresh(input_path@, output_path@),
            session.wf(),
    {
        let zip_files: Vec<ZipFiles> = Vec::new();
        assert(zip_files.deep_view() =~= Seq::empty());
        ZipDive {
            input_path,
            output_path,
            password: String::new(),
            zip_files,
            auto_run: false,
            state: State::NeedInit,
        }
    }

    /// Begins the layer that follows the layers there are.
    fn next_zip_files(&mut self)
        requires
            old(self)@.zip_files.len() < usize::MAX,
        ensures
            final(self)@ == old(self)@.descend(),
    {
        let n = self.zip_files.len();
        let input_path = self.output_path.numbered(n);
        let output_path = self.output_path.numbered(n + 1);
        let ghost before = self.zip_files.deep_view();
        let layer = ZipFiles::new(input_path, output_path, n + 1);
        self.zip_files.push(layer);
        assert(self.zip_files.deep_view() =~= before.push(layer@));
    }

    /// Starts a run, if none is under way and both roots exist.
    pub fn start(&mut self, input_exists: bool, output_exists: bool) -> (notice: Notice)
        requires
            old(self).wf(),
        ensures
            (final(self)@, notice) == old(self)@.start(input_exists, output_exists),
            final(self).wf(),
    {
        proof {
            lemma_after_wf(self@, MessageView::Start { input_exists, output_exists });
        }
        if self.state == State::Running {
            return Notice::AlreadyRunning;
        }
        if !input_exists || !output_exists {
            return Notice::PathNotExists;
        }
        let layer = ZipFiles::new(self.input_path.clone(), self.output_path.numbered(1), 1);
        let mut zip_files: Vec<ZipFiles> = Vec::new();
        zip_files.push(layer);
        assert(zip_files.deep_view() =~= seq![layer@]);
        self.zip_files = zip_files;
        self.state = State::Running;
        Notice::Quiet
    }

    /// Begins the next layer, if the user may ask for it now.
    pub fn advance(&mut self) -> (notice: Notice)
        requires
            old(self).wf(),
            old(self)@.zip_files.len() < usize::MAX,
        ensures
            (final(self)@, notice) == old(self)@.advance(),
            final(self).wf(),
    {
        proof {
            lemma_after_wf(self@, MessageView::Next);
        }
        match self.state {
            State::Finish => Notice::AllFinished,
            State::NeedInit => Notice::NeedStart,
            State::Running => {
                if self.auto_run {
                    Notice::AutoMode
                } else if self.zip_files.len() == 0 {
                    Notice::Quiet
                } else {
                    match self.zip_files[self.zip_files.len() - 1].state() {
                        ZipsHandleState::Finished => {
                            self.next_zip_files();
                            Notice::Quiet
                        },
                        ZipsHandleState::EmptyZips => Notice::LastLayerReached,
                        _ => Notice::PreviousNotFinished,
                    }
                }
            },
        }
    }

    /// Switches the automatic descent on or off.
    pub fn set_auto_run(&mut self, auto_run: bool)
        requires
            old(self).wf(),
        ensures
            final(self)@ == (SessionView { auto_run, ..old(self)@ }),
            final(self).wf(),
    {
        self.auto_run = auto_run;
    }

    /// Takes in a report of the unpacking of layer `id`.
    pub fn report(&mut self, id: usize, progress: Result<Progress, Error>)
        requires
            old(self).wf(),
            old(self)@.zip_files.len() < usize::MAX,
        ensures
            final(self)@ == old(self)@.report(id as nat, event_view(progress)),
            final(self).wf(),
    {
        proof {
            lemma_report_wf(self@, id as nat, event_view(progress));
        }
        if 1 <= id && id <= self.zip_files.len() {
            let ghost layers = self.zip_files.deep_view();
            assert(self.zip_files[id - 1].wf()) by {
                assert(self@.zip_files[id - 1].wf());
            }
            let before = self.zip_files[id - 1].state();
            self.zip_files[id - 1].progress(progress);
            let after = self.zip_files[id - 1].state();
            assert(self.zip_files.deep_view() =~= layers.update(
                id - 1,
                layers[id - 1].after(event_view(progress)),
            ));
            if before != ZipsHandleState::Finished && after == ZipsHandleState::Finished {
                if self.auto_run {
                    self.next_zip_files();
                }
            } else if before != ZipsHandleState::EmptyZips && after == ZipsHandleState::EmptyZips {
                self.state = State::Finish;
            }
        }
    }

    /// Takes in a message, and answers it.
    pub fn update(&mut self, message: Message) -> (notice: Notice)
        requires
            old(self).wf(),
            old(self)@.zip_files.len() < usize::MAX,
        ensures
            (final(self)@, notice) == old(self)@.after(message@),
            final(self).wf(),
    {
        proof {
            lemma_after_wf(self@, message@);
        }
        match message {
            Message::InputPathChange(text) => {
                if self.state == State::Running {
                    Notice::AlreadyRunning
                } else {
                    self.input_path = FilePath::parse(trim(text.as_str()).as_str());
                    Notice::Quiet
                }
            },
            Message::OutputPathChange(text) => {
                if self.state == State::Running {
                    Notice::AlreadyRunning
                } else {
                    self.output_path = FilePath::parse(trim(text.as_str()).as_str());
                    Notice::Quiet
                }
            },
            Message::InputPathFileDialog(choice) => {
                if self.state == State::Running {
                    Notice::AlreadyRunning
                } else {
                    if let Some(path) = choice {
                        self.input_path = path;
                    }
                    Notice::Quiet
                }
            },
            Message::OutputPathFileDialog(choice) => {
                if self.state == State::Running {
                    Notice::AlreadyRunning
                } else {
                    if let Some(path) = choice {
                        self.output_path = path;
                    }
                    Notice::Quiet
                }
            },
            Message::PasswordChange(text) => {
                if self.state == State::Running {
                    Notice::AlreadyRunning
                } else {
                    self.password = text;
                    Notice::Quiet
                }
            },
            Message::Start { input_exists, output_exists } => self.start(
                input_exists,
                output_exists,
            ),
            Message::ZipFileHandleProgress(report) => {
                self.report(report.0, report.1);
                Notice::Quiet
            },
            Message::Next => self.advance(),
            Message::AutoRunCheckboxToggled(on) => {
                self.auto_run = on;
                Notice::Quiet
            },
        }
    }

    /// The runs that unpack the layers that are open.
    pub fn subscription(&self) -> (runs: Vec<LayerRun>)
        ensures
            runs.deep_view() == self@.subscription(),
            forall|i: int| 0 <= i < runs.len() ==> (#[trigger] runs[i]).wf(),
    {
        let mut runs: Vec<LayerRun> = Vec::new();
        let ghost layers = self.zip_files.deep_view();
        let ghost password = self@.run_password();
        let ghost pick = |layer: LayerView| layer.subscription(password);
        let mut i: usize = 0;
        assert(runs.deep_view() =~= Seq::empty());
        assert(layers.take(0) =~= Seq::empty());
        while i < self.zip_files.len()
            invariant
                i <= self.zip_files.len(),
                layers == self.zip_files.deep_view(),
                password == self@.run_password(),
                pick == |layer: LayerView| layer.subscription(password),
                runs.deep_view() == layers.take(i as int).filter_map(pick),
                forall|j: int| 0 <= j < runs.len() ==> (#[trigger] runs[j]).wf(),
            decreases self.zip_files.len() - i,
        {
            let ghost before = runs.deep_view();
            proof {
                let next = layers.take(i + 1);
                assert(next.drop_last() =~= layers.take(i as int));
                assert(next.last() == self.zip_files[i as int]@);
            }
            match self.zip_files[i].subscription(self.run_password()) {
                Some(run) => {
                    runs.push(run);
                    assert(runs.deep_view() =~= before + seq![run@]);
                },
                None => {},
            }
            i = i + 1;
        }
        assert(layers.take(i as int) =~= layers);
        runs
    }

    /// The directory to unpack.
    pub fn input_path(&self) -> (path: &FilePath)
        ensures
            path@ == self@.input_path,
    {
        &self.input_path
    }

    /// The directory to unpack into.
    pub fn output_path(&self) -> (path: &FilePath)
        ensures
            path@ == self@.output_path,
    {
        &self.output_path
    }

    /// The text of the password field.
    pub fn password(&self) -> (password: &String)
        ensures
            password@ == self@.password,
    {
        &self.password
    }

    /// The password that the extractions of the run use: the text of the
    /// password field, unless it is empty.
    pub fn run_password(&self) -> (password: Option<String>)
        ensures
            password_view(password) == self@.run_password(),
    {
        if self.password.as_str().unicode_len() == 0 {
            None
        } else {
            Some(self.password.clone())
        }
    }

    /// The layers, from the top down.
    pub fn zip_files(&self) -> (layers: &Vec<ZipFiles>)
        ensures
            layers.deep_view() == self@.zip_files,
    {
        &self.zip_files
    }

    /// Whether a finished layer is followed by the next without being asked.
    pub fn auto_run(&self) -> (auto_run: bool)
        ensures
            auto_run == self@.auto_run,
    {
        self.auto_run
    }

    /// How far the descent has come.
    pub fn state(&self) -> (state: State)
        ensures
            state == self@.state,
    {
        self.state
    }
}

} // verus!
