//! One layer of the descent: the archives found below one directory, and how
//! far their unpacking has come.

use vstd::prelude::*;

use crate::error::{outcome_view, Error, ErrorView};
use crate::extract::password_view;
use crate::path::{FilePath, PathView};
use crate::progress::{event_view, Progress, ProgressView};
use crate::run::{run_zip_dir, LayerRun, RunView};

verus! {

/// How far the extraction of one archive has come.
#[derive(Debug, Clone, Copy, PartialEq, Eq, Structural)]
pub enum ZipFileHandleState {
    Running,
    Finished,
    Error,
}

/// How far a layer has come.
#[derive(Debug, Clone, Copy, PartialEq, Eq, Structural)]
pub enum ZipsHandleState {
    /// The directory is being scanned.
    Searching,
    /// Archives were found and are being unpacked.
    Zipping,
    /// Every archive has been dealt with.
    Finished,
    /// The scan failed, or a directory to unpack into could not be made.
    Error,
    /// The scan has found no archive.
    EmptyZips,
}

/// One archive of a layer.
#[derive(Debug, PartialEq, Eq)]
pub struct ZipFile {
    path: FilePath,
    show_path: FilePath,
    state: ZipFileHandleState,
    error: Option<Error>,
}

/// A [`ZipFile`] over plain values.
pub struct ZipFileView {
    /// Where the archive lies.
    pub path: PathView,
    /// Where it lies as seen from the directory that was scanned.
    pub show_path: PathView,
    pub state: ZipFileHandleState,
    /// Why the extraction failed, if it did.
    pub error: Option<ErrorView>,
}

impl ZipFileView {
    /// The archive at `path`, found below `parent`, before its extraction has ended.
    pub open spec fn fresh(path: PathView, parent: PathView) -> ZipFileView {
        ZipFileView {
            path,
            show_path: path.relative_to(parent),
            state: ZipFileHandleState::Running,
            error: None,
        }
    }

    /// This archive once its extraction has ended with `outcome`.
    pub open spec fn closed(self, outcome: Result<(), ErrorView>) -> ZipFileView {
        match outcome {
            Ok(()) => ZipFileView { state: ZipFileHandleState::Finished, error: None, ..self },
            Err(error) => ZipFileView {
                state: ZipFileHandleState::Error,
                error: Some(error),
                ..self
            },
        }
    }

    /// An archive holds an error exactly when its extraction has failed.
    pub open spec fn wf(self) -> bool {
        (self.state == ZipFileHandleState::Error) == self.error.is_some()
    }
}

impl View for ZipFile {
    type V = ZipFileView;

    closed spec fn view(&self) -> ZipFileView {
        ZipFileView {
            path: self.path@,
            show_path: self.show_path@,
            state: self.state,
            error: match self.error {
                Some(error) => Some(error@),
                None => None,
            },
        }
    }
}

impl DeepView for ZipFile {
    type V = ZipFileView;

    open spec fn deep_view(&self) -> ZipFileView {
        self@
    }
}

impl ZipFile {
    /// The archive at `path`, found below `parent`.
    pub fn new(path: FilePath, parent: FilePath) -> (file: ZipFile)
        ensures
            file@ == ZipFileView::fresh(path@, parent@),
    {
        let show_path = path.relative_to(&parent);
        ZipFile { path, show_path, state: ZipFileHandleState::Running, error: None }
    }

    /// Where the archive lies.
    pub fn path(&self) -> (path: &FilePath)
        ensures
            path@ == self@.path,
    {
        &self.path
    }

    /// Where the archive lies as seen from the directory that was scanned.
    pub fn show_path(&self) -> (path: &FilePath)
        ensures
            path@ == self@.show_path,
    {
        &self.show_path
    }

    /// How far the extraction has come.
    pub fn state(&self) -> (state: ZipFileHandleState)
        ensures
            state == self@.state,
    {
        self.state
    }

    /// Why the extraction failed, if it did.
    pub fn error(&self) -> (error: &Option<Error>)
        ensures
            error.is_some() == self@.error.is_some(),
            error matches Some(e) ==> self@.error == Some(e@),
    {
        &self.error
    }

    /// Records how the extraction ended.
    fn close(&mut self, outcome: Result<(), Error>)
        ensures
            final(self)@ == old(self)@.closed(outcome_view(outcome)),
    {
        match outcome {
            Ok(()) => {
                self.state = ZipFileHandleState::Finished;
                self.error = None;
            },
            Err(error) => {
                self.state = ZipFileHandleState::Error;
                self.error = Some(error);
            },
        }
    }
}

/// A layer: the directory that is scanned, the directory that is unpacked
/// into, and the archives found, each with the state of its extraction.
#[derive(Debug, PartialEq, Eq)]
pub struct ZipFiles {
    input_path: FilePath,
    output_path: FilePath,
    zip_files: Vec<ZipFile>,
    depth: usize,
    state: ZipsHandleState,
    finish_count: usize,
}

/// A [`ZipFiles`] over plain values.
pub struct LayerView {
    pub input_path: PathView,
    pub output_path: PathView,
    pub zip_files: Seq<ZipFileView>,
    pub depth: nat,
    pub state: ZipsHandleState,
    pub finish_count: nat,
}

/// How many of `files` are no longer running.
pub open spec fn closed_count(files: Seq<ZipFileView>) -> nat
    decreases files.len(),
{
    if files.len() == 0 {
        0
    } else {
        closed_count(files.drop_last()) + if files.last().state != ZipFileHandleState::Running {
            1nat
        } else {
            0nat
        }
    }
}

impl LayerView {
    /// The layer of depth `depth` before its scan has reported.
    pub open spec fn fresh(input_path: PathView, output_path: PathView, depth: nat) -> LayerView {
        LayerView {
            input_path,
            output_path,
            zip_files: Seq::empty(),
            depth,
            state: ZipsHandleState::Searching,
            finish_count: 0,
        }
    }

    /// What holds of every layer:
    /// its depth is counted from one;
    /// the count is the number of archives whose extraction has ended;
    /// each archive is shown as it lies below the directory that was scanned;
    /// a layer that searches, or has ended without archives, has none;
    /// a zipping layer waits for at least one extraction;
    /// a layer is `Finished` exactly when it has archives and the extraction
    /// of each has ended.
    pub open spec fn wf(self) -> bool {
        &&& self.depth >= 1
        &&& self.finish_count == closed_count(self.zip_files)
        &&& forall|i: int|
            0 <= i < self.zip_files.len() ==> {
                &&& (#[trigger] self.zip_files[i]).wf()
                &&& self.zip_files[i].show_path == self.zip_files[i].path.relative_to(
                    self.input_path,
                )
            }
        &&& match self.state {
            ZipsHandleState::Searching | ZipsHandleState::EmptyZips => self.zip_files.len() == 0,
            ZipsHandleState::Zipping => self.finish_count < self.zip_files.len(),
            ZipsHandleState::Finished => 0 < self.zip_files.len() && self.finish_count
                == self.zip_files.len(),
            ZipsHandleState::Error => self.zip_files.len() == 0 || self.finish_count
                < self.zip_files.len(),
        }
    }

    /// Whether the layer still takes reports: it is being scanned or unpacked.
    pub open spec fn is_open(self) -> bool {
        self.state == ZipsHandleState::Searching || self.state == ZipsHandleState::Zipping
    }

    /// The layer once its scan has found `files`. Without archives it is over;
    /// with archives, each starts out running and the layer turns to `Zipping`.
    pub open spec fn found(self, files: Seq<PathView>) -> LayerView {
        if files.len() == 0 {
            LayerView { state: ZipsHandleState::EmptyZips, ..self }
        } else {
            LayerView {
                zip_files: files.map_values(|path: PathView| ZipFileView::fresh(path, self.input_path)),
                state: ZipsHandleState::Zipping,
                ..self
            }
        }
    }

    /// Whether the layer waits for the end of the extraction of archive `file_id`.
    pub open spec fn awaits(self, file_id: nat) -> bool {
        &&& self.state == ZipsHandleState::Zipping
        &&& file_id < self.zip_files.len()
        &&& self.zip_files[file_id as int].state == ZipFileHandleState::Running
    }

    /// The layer once the extraction of archive `file_id`, for which it waits,
    /// has ended with `outcome`: that archive is closed, the count goes up by
    /// one, and with the last archive the layer is `Finished`.
    pub open spec fn reported(self, file_id: nat, outcome: Result<(), ErrorView>) -> LayerView {
        LayerView {
            zip_files: self.zip_files.update(
                file_id as int,
                self.zip_files[file_id as int].closed(outcome),
            ),
            finish_count: self.finish_count + 1,
            state: if self.finish_count + 1 == self.zip_files.len() {
                ZipsHandleState::Finished
            } else {
                ZipsHandleState::Zipping
            },
            ..self
        }
    }

    /// The layer after `event`.
    ///
    /// A layer that is over takes no report. A failure ends an open layer with
    /// `Error`. The outcome of the scan counts while the layer is `Searching`,
    /// the end of an extraction while the layer waits for it. `Finished` tells
    /// the layer nothing: it has counted the extractions itself.
    pub open spec fn after(self, event: Result<ProgressView, ErrorView>) -> LayerView {
        if !self.is_open() {
            self
        } else {
            match event {
                Err(_) => LayerView { state: ZipsHandleState::Error, ..self },
                Ok(ProgressView::EmptyZips) => if self.state == ZipsHandleState::Searching {
                    self.found(Seq::empty())
                } else {
                    self
                },
                Ok(ProgressView::Searching { zip_files }) => if self.state
                    == ZipsHandleState::Searching {
                    self.found(zip_files)
                } else {
                    self
                },
                Ok(ProgressView::Zipping { file_id, state }) => if self.awaits(file_id) {
                    self.reported(file_id, state)
                } else {
                    self
                },
                Ok(ProgressView::Finished) => self,
            }
        }
    }

    /// The layer after the reports `events`, taken in one after the other.
    pub open spec fn after_all(self, events: Seq<Result<ProgressView, ErrorView>>) -> LayerView
        decreases events.len(),
    {
        if events.len() == 0 {
            self
        } else {
            self.after_all(events.drop_last()).after(events.last())
        }
    }

    /// The run that unpacks the layer, for as long as the layer is open: it
    /// has the number of the layer and its two directories.
    pub open spec fn subscription(self, default_password: Option<Seq<char>>) -> Option<RunView> {
        if self.is_open() {
            Some(RunView::fresh(self.depth, self.input_path, self.output_path, default_password))
        } else {
            None
        }
    }
}

impl View for ZipFiles {
    type V = LayerView;

    closed spec fn view(&self) -> LayerView {
        LayerView {
            input_path: self.input_path@,
            output_path: self.output_path@,
            zip_files: self.zip_files.deep_view(),
            depth: self.depth as nat,
            state: self.state,
            finish_count: self.finish_count as nat,
        }
    }
}

impl DeepView for ZipFiles {
    type V = LayerView;

    open spec fn deep_view(&self) -> LayerView {
        self@
    }
}

/// Archives that have just been found are all running.
pub proof fn lemma_fresh_files_run(files: Seq<PathView>, parent: PathView)
    ensures
        closed_count(files.map_values(|path: PathView| ZipFileView::fresh(path, parent))) == 0,
    decreases files.len(),
{
    let fresh = files.map_values(|path: PathView| ZipFileView::fresh(path, parent));
    if files.len() > 0 {
        lemma_fresh_files_run(files.drop_last(), parent);
        assert(fresh.drop_last() =~= files.drop_last().map_values(
            |path: PathView| ZipFileView::fresh(path, parent),
        ));
    }
}

/// No more archives are closed than there are.
pub proof fn lemma_closed_count_bound(files: Seq<ZipFileView>)
    ensures
        closed_count(files) <= files.len(),
    decreases files.len(),
{
    if files.len() > 0 {
        lemma_closed_count_bound(files.drop_last());
    }
}

/// Closing one running archive raises the number of closed archives by one.
pub proof fn lemma_close_one(files: Seq<ZipFileView>, at: int, closed: ZipFileView)
    requires
        0 <= at < files.len(),
        files[at].state == ZipFileHandleState::Running,
        closed.state != ZipFileHandleState::Running,
    ensures
        closed_count(files.update(at, closed)) == closed_count(files) + 1,
    decreases files.len(),
{
    let after = files.update(at, closed);
    if at == files.len() - 1 {
        assert(after.drop_last() =~= files.drop_last());
    } else {
        lemma_close_one(files.drop_last(), at, closed);
        assert(after.drop_last() =~= files.drop_last().update(at, closed));
    }
}

/// Every report leaves a layer a layer.
pub proof fn lemma_after_wf(layer: LayerView, event: Result<ProgressView, ErrorView>)
    requires
        layer.wf(),
    ensures
        layer.after(event).wf(),
{
    let next = layer.after(event);
    if layer.is_open() {
        lemma_closed_count_bound(layer.zip_files);
        match event {
            Ok(ProgressView::Searching { zip_files }) => {
                if layer.state == ZipsHandleState::Searching && zip_files.len() > 0 {
                    lemma_fresh_files_run(zip_files, layer.input_path);
                }
            },
            Ok(ProgressView::Zipping { file_id, state }) => {
                if layer.awaits(file_id) {
                    let closed = layer.zip_files[file_id as int].closed(state);
                    lemma_close_one(layer.zip_files, file_id as int, closed);
                    lemma_closed_count_bound(next.zip_files);
                }
            },
            _ => {},
        }
    }
}

/// The count of a layer never falls and never passes the number of its
/// archives. A report raises it by one where the layer waits for the
/// extraction that the report is about, and leaves it as it is everywhere
/// else. Where the layer has archives, the count is their number exactly when
/// the layer is finished.
pub proof fn lemma_finish_count(layer: LayerView, event: Result<ProgressView, ErrorView>)
    requires
        layer.wf(),
    ensures
        layer.after(event).wf(),
        layer.finish_count <= layer.zip_files.len(),
        layer.zip_files.len() > 0 ==> ((layer.state == ZipsHandleState::Finished)
            <==> layer.finish_count == layer.zip_files.len()),
        layer.finish_count <= layer.after(event).finish_count <= layer.after(
            event,
        ).zip_files.len(),
        layer.after(event).finish_count == layer.finish_count + if layer.is_open() && (
        event matches Ok(ProgressView::Zipping { file_id, .. }) && layer.awaits(file_id)) {
            1nat
        } else {
            0nat
        },
{
    lemma_after_wf(layer, event);
    lemma_closed_count_bound(layer.zip_files);
    lemma_closed_count_bound(layer.after(event).zip_files);
}

/// A layer moves only forward. A searching layer stays so, or ends without
/// archives, or turns to zipping, or fails. A zipping layer stays so, or is
/// finished, or fails: it neither searches again nor ends without archives.
/// A layer that is finished, has failed or has ended without archives stays
/// as it is.
pub proof fn lemma_layer_moves_forward(layer: LayerView, event: Result<ProgressView, ErrorView>)
    ensures
        match layer.state {
            ZipsHandleState::Searching => layer.after(event).state != ZipsHandleState::Finished,
            ZipsHandleState::Zipping => layer.after(event).state == ZipsHandleState::Zipping
                || layer.after(event).state == ZipsHandleState::Finished || layer.after(
                event,
            ).state == ZipsHandleState::Error,
            _ => layer.after(event) == layer,
        },
{
}

/// The archives of a layer are entered once, when its scan reports them, and
/// their number stays as it is from then on.
pub proof fn lemma_files_stay(layer: LayerView, event: Result<ProgressView, ErrorView>)
    ensures
        layer.state != ZipsHandleState::Searching ==> layer.after(event).zip_files.len()
            == layer.zip_files.len(),
        layer.state != ZipsHandleState::Searching ==> forall|i: int|
            0 <= i < layer.zip_files.len() ==> {
                &&& (#[trigger] layer.after(event).zip_files[i]).path == layer.zip_files[i].path
                &&& layer.after(event).zip_files[i].show_path == layer.zip_files[i].show_path
            },
{
}

/// However many reports come in, the count of a layer does not fall and does
/// not pass the number of its archives.
pub proof fn lemma_finish_count_over_time(
    layer: LayerView,
    events: Seq<Result<ProgressView, ErrorView>>,
)
    requires
        layer.wf(),
    ensures
        layer.after_all(events).wf(),
        layer.finish_count <= layer.after_all(events).finish_count <= layer.after_all(
            events,
        ).zip_files.len(),
    decreases events.len(),
{
    if events.len() == 0 {
        lemma_closed_count_bound(layer.zip_files);
    } else {
        lemma_finish_count_over_time(layer, events.drop_last());
        lemma_finish_count(layer.after_all(events.drop_last()), events.last());
    }
}

/// An extraction that fails closes its own archive with the error and leaves
/// every other archive as it is. The layer goes on: it is finished if that was
/// the last extraction it waited for, and waits for the others if not.
pub proof fn lemma_failure_stays_local(layer: LayerView, file_id: nat, error: ErrorView)
    requires
        layer.wf(),
        layer.awaits(file_id),
    ensures
        ({
            let next = layer.after(Ok(ProgressView::Zipping { file_id, state: Err(error) }));
            &&& next.zip_files.len() == layer.zip_files.len()
            &&& next.zip_files[file_id as int].state == ZipFileHandleState::Error
            &&& next.zip_files[file_id as int].error == Some(error)
            &&& forall|i: int|
                0 <= i < layer.zip_files.len() && i != file_id ==> next.zip_files[i]
                    == layer.zip_files[i]
            &&& next.state == if layer.finish_count + 1 == layer.zip_files.len() {
                ZipsHandleState::Finished
            } else {
                ZipsHandleState::Zipping
            }
        }),
{
}

/// The reports that the extractions `ids` have ended with `outcomes`, in that order.
pub open spec fn ends_of(ids: Seq<nat>, outcomes: Seq<Result<(), ErrorView>>) -> Seq<
    Result<ProgressView, ErrorView>,
> {
    Seq::new(
        ids.len(),
        |k: int| Ok(ProgressView::Zipping { file_id: ids[k], state: outcomes[k] }),
    )
}

/// Whether each of the archives `0` to `n - 1` occurs in `ids` exactly once,
/// and nothing else does.
pub open spec fn each_once(ids: Seq<nat>, n: nat) -> bool {
    &&& ids.len() == n
    &&& forall|k: int| 0 <= k < ids.len() ==> ids[k] < n
    &&& forall|j: int, k: int| 0 <= j < k < ids.len() ==> ids[j] != ids[k]
}

/// A layer that waits for all its archives is finished once the end of each
/// extraction has been reported, in whatever order and with whatever outcome:
/// every archive is then closed as its own extraction has ended, failed ones
/// beside finished ones.
pub proof fn lemma_all_reported_finishes(
    layer: LayerView,
    ids: Seq<nat>,
    outcomes: Seq<Result<(), ErrorView>>,
)
    requires
        layer.wf(),
        layer.state == ZipsHandleState::Zipping,
        layer.finish_count == 0,
        each_once(ids, layer.zip_files.len()),
        outcomes.len() == ids.len(),
    ensures
        ({
            let last = layer.after_all(ends_of(ids, outcomes));
            &&& last.state == ZipsHandleState::Finished
            &&& last.finish_count == layer.zip_files.len()
            &&& last.zip_files.len() == layer.zip_files.len()
            &&& forall|k: int|
                0 <= k < ids.len() ==> #[trigger] last.zip_files[ids[k] as int]
                    == layer.zip_files[ids[k] as int].closed(outcomes[k])
        }),
{
    lemma_all_running(layer.zip_files);
    lemma_reports_so_far(layer, ids, outcomes, ids.len());
    assert(ends_of(ids, outcomes).take(ids.len() as int) =~= ends_of(ids, outcomes));
}

/// Where no archive is closed, all are running.
pub proof fn lemma_all_running(files: Seq<ZipFileView>)
    requires
        closed_count(files) == 0,
    ensures
        forall|i: int| 0 <= i < files.len() ==> (#[trigger] files[i]).state
            == ZipFileHandleState::Running,
    decreases files.len(),
{
    if files.len() > 0 {
        let front = files.drop_last();
        lemma_all_running(front);
        assert forall|i: int| 0 <= i < files.len() implies (#[trigger] files[i]).state
            == ZipFileHandleState::Running by {
            if i < front.len() {
                assert(front[i] == files[i]);
            }
        }
    }
}

/// After the first `m` of the reports, the layer has counted `m` extractions,
/// has closed their archives, and has left the others running.
proof fn lemma_reports_so_far(
    layer: LayerView,
    ids: Seq<nat>,
    outcomes: Seq<Result<(), ErrorView>>,
    m: nat,
)
    requires
        layer.wf(),
        layer.state == ZipsHandleState::Zipping,
        layer.finish_count == 0,
        forall|i: int| 0 <= i < layer.zip_files.len() ==> (#[trigger] layer.zip_files[i]).state
            == ZipFileHandleState::Running,
        each_once(ids, layer.zip_files.len()),
        outcomes.len() == ids.len(),
        m <= ids.len(),
    ensures
        ({
            let now = layer.after_all(ends_of(ids, outcomes).take(m as int));
            &&& now.wf()
            &&& now.finish_count == m
            &&& now.zip_files.len() == layer.zip_files.len()
            &&& now.state == if m == layer.zip_files.len() {
                ZipsHandleState::Finished
            } else {
                ZipsHandleState::Zipping
            }
            &&& forall|k: int|
                0 <= k < m ==> #[trigger] now.zip_files[ids[k] as int]
                    == layer.zip_files[ids[k] as int].closed(outcomes[k])
            &&& forall|k: int|
                m <= k < ids.len() ==> #[trigger] now.zip_files[ids[k] as int]
                    == layer.zip_files[ids[k] as int]
        }),
    decreases m,
{
    let events = ends_of(ids, outcomes);
    if m == 0 {
        assert(events.take(0) =~= Seq::empty());
    } else {
        lemma_reports_so_far(layer, ids, outcomes, (m - 1) as nat);
        let before = layer.after_all(events.take(m - 1));
        assert(events.take(m as int).drop_last() =~= events.take(m - 1));
        assert(events.take(m as int).last() == events[m - 1]);
        let id = ids[m - 1];
        let event = events[m - 1];
        assert(before.zip_files[id as int] == layer.zip_files[id as int]);
        assert(before.awaits(id));
        lemma_after_wf(before, event);
        let now = before.after(event);
        assert(now == layer.after_all(events.take(m as int)));
        assert forall|k: int| 0 <= k < m implies #[trigger] now.zip_files[ids[k] as int]
            == layer.zip_files[ids[k] as int].closed(outcomes[k]) by {
            if k < m - 1 {
                assert(before.zip_files[ids[k] as int] == layer.zip_files[ids[k] as int].closed(
                    outcomes[k],
                ));
            }
        }
        assert forall|k: int| m <= k < ids.len() implies #[trigger] now.zip_files[ids[k] as int]
            == layer.zip_files[ids[k] as int] by {
            assert(before.zip_files[ids[k] as int] == layer.zip_files[ids[k] as int]);
        }
    }
}

impl ZipFiles {
    /// What holds of every layer.
    pub open spec fn wf(&self) -> bool {
        self@.wf()
    }

    /// The layer of depth `depth`, counted from one, that scans `input_path` and
    /// unpacks into `output_path`.
    pub fn new(input_path: FilePath, output_path: FilePath, depth: usize) -> (layer: ZipFiles)
        requires
            depth >= 1,
        ensures
            layer@ == LayerView::fresh(input_path@, output_path@, depth as nat),
            layer.wf(),
    {
        let zip_files: Vec<ZipFile> = Vec::new();
        assert(zip_files.deep_view() =~= Seq::empty());
        ZipFiles {
            input_path,
            output_path,
            zip_files,
            depth,
            state: ZipsHandleState::Searching,
            finish_count: 0,
        }
    }

    /// Takes in one report of the unpacking of this layer.
    pub fn progress(&mut self, new_progress: Result<Progress, Error>)
        requires
            old(self).wf(),
        ensures
            final(self)@ == old(self)@.after(event_view(new_progress)),
            final(self).wf(),
    {
        proof {
            lemma_after_wf(self@, event_view(new_progress));
        }
        match self.state {
            ZipsHandleState::Searching | ZipsHandleState::Zipping => {},
            _ => {
                return ;
            },
        }
        match new_progress {
            Err(_) => {
                self.state = ZipsHandleState::Error;
            },
            Ok(Progress::Finished) => {},
            Ok(Progress::EmptyZips) => {
                if self.state == ZipsHandleState::Searching {
                    self.state = ZipsHandleState::EmptyZips;
                }
            },
            Ok(Progress::Searching { zip_files }) => {
                if self.state == ZipsHandleState::Searching {
                    if zip_files.len() == 0 {
                        self.state = ZipsHandleState::EmptyZips;
                    } else {
                        self.populate(zip_files);
                        self.state = ZipsHandleState::Zipping;
                    }
                }
            },
            Ok(Progress::Zipping { file_id, state }) => {
                if self.state == ZipsHandleState::Zipping && file_id < self.zip_files.len()
                    && self.zip_files[file_id].state == ZipFileHandleState::Running {
                    proof {
                        lemma_closed_count_bound(self.zip_files.deep_view());
                    }
                    let ghost before = self.zip_files.deep_view();
                    self.zip_files[file_id].close(state);
                    assert(self.zip_files.deep_view() =~= before.update(
                        file_id as int,
                        before[file_id as int].closed(outcome_view(state)),
                    ));
                    self.finish_count = self.finish_count + 1;
                    if self.finish_count == self.zip_files.len() {
                        self.state = ZipsHandleState::Finished;
                    }
                }
            },
        }
    }

    /// Enters the archives that the scan has found.
    fn populate(&mut self, files: Vec<FilePath>)
        requires
            old(self).zip_files.len() == 0,
        ensures
            final(self).zip_files.deep_view() == files.deep_view().map_values(
                |path: PathView| ZipFileView::fresh(path, old(self).input_path@),
            ),
            final(self).input_path == old(self).input_path,
            final(self).output_path == old(self).output_path,
            final(self).depth == old(self).depth,
            final(self).state == old(self).state,
            final(self).finish_count == old(self).finish_count,
    {
        let ghost parent = self.input_path@;
        let ghost all = files.deep_view();
        assert(self.zip_files.deep_view() =~= all.take(0).map_values(
            |path: PathView| ZipFileView::fresh(path, parent),
        ));
        for path in it: files
            invariant
                it.seq().len() == all.len(),
                forall|i: int| 0 <= i < all.len() ==> (#[trigger] it.seq()[i])@ == all[i],
                parent == self.input_path@,
                self.zip_files.deep_view() == all.take(it.index()).map_values(
                    |path: PathView| ZipFileView::fresh(path, parent),
                ),
                self.input_path == old(self).input_path,
                self.output_path == old(self).output_path,
                self.depth == old(self).depth,
                self.state == old(self).state,
                self.finish_count == old(self).finish_count,
        {
            let ghost before = self.zip_files.deep_view();
            let file = ZipFile::new(path, self.input_path.clone());
            self.zip_files.push(file);
            assert(self.zip_files.deep_view() =~= before.push(file@));
            assert(before.push(file@) =~= all.take(it.index() + 1).map_values(
                |path: PathView| ZipFileView::fresh(path, parent),
            ));
        }
        assert(all.take(all.len() as int) =~= all);
    }

    /// The run that unpacks this layer, for as long as the layer is open.
    pub fn subscription(&self, default_password: Option<String>) -> (run: Option<LayerRun>)
        ensures
            run.is_some() == self@.subscription(password_view(default_password)).is_some(),
            run matches Some(r) ==> self@.subscription(password_view(default_password)) == Some(
                r@,
            ) && r.wf(),
    {
        match self.state {
            ZipsHandleState::Searching | ZipsHandleState::Zipping => Some(
                run_zip_dir(
                    self.depth,
                    self.input_path.clone(),
                    self.output_path.clone(),
                    default_password,
                ),
            ),
            _ => None,
        }
    }

    /// The directory that is scanned.
    pub fn input_path(&self) -> (path: &FilePath)
        ensures
            path@ == self@.input_path,
    {
        &self.input_path
    }

    /// The directory that is unpacked into.
    pub fn output_path(&self) -> (path: &FilePath)
        ensures
            path@ == self@.output_path,
    {
        &self.output_path
    }

    /// The archives of the layer, in the order in which the scan has found them.
    pub fn zip_files(&self) -> (files: &Vec<ZipFile>)
        ensures
            files.deep_view() == self@.zip_files,
    {
        &self.zip_files
    }

    /// The number of the layer, counted from one at the top.
    pub fn depth(&self) -> (depth: usize)
        ensures
            depth == self@.depth,
    {
        self.depth
    }

    /// How far the layer has come.
    pub fn state(&self) -> (state: ZipsHandleState)
        ensures
            state == self@.state,
    {
        self.state
    }

    /// How many extractions have ended.
    pub fn finish_count(&self) -> (count: usize)
        ensures
            count == self@.finish_count,
    {
        self.finish_count
    }
}

} // verus!
