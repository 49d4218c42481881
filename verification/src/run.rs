//! The unpacking of one layer, step by step.
//!
//! A run decides; the program around it acts. The program walks through the
//! source directory and tells the run what it has found. The run answers with
//! what to do next: a report to hand on, a directory to make, an archive to
//! unpack. The program does it and tells the run how it went, until the run
//! is closed.

use vstd::prelude::*;

use crate::error::{outcome_view, Error, ErrorView};
use crate::extract::password_view;
use crate::path::{FilePath, PathView};
use crate::progress::{event_view, Progress, ProgressView};
use crate::rebase::{output_dir_of, unpack_dir};
use crate::scan::{collect_compressed_files_in_dir, scanned, WalkItem, WalkItemView};

verus! {

/// One extraction: the archive, the directory to unpack it into, and the
/// password to try.
#[derive(Debug, PartialEq, Eq)]
pub struct ExtractJob {
    /// The position of the archive among the archives of its layer.
    pub file_id: usize,
    pub file: FilePath,
    pub output_dir: FilePath,
    pub password: Option<String>,
}

/// An [`ExtractJob`] over plain values.
pub struct JobView {
    pub file_id: nat,
    pub file: PathView,
    pub output_dir: PathView,
    pub password: Option<Seq<char>>,
}

impl View for ExtractJob {
    type V = JobView;

    open spec fn view(&self) -> JobView {
        JobView {
            file_id: self.file_id as nat,
            file: self.file@,
            output_dir: self.output_dir@,
            password: password_view(self.password),
        }
    }
}

impl DeepView for ExtractJob {
    type V = JobView;

    open spec fn deep_view(&self) -> JobView {
        self@
    }
}

impl Clone for ExtractJob {
    fn clone(&self) -> (copy: ExtractJob)
        ensures
            copy@ == self@,
    {
        ExtractJob {
            file_id: self.file_id,
            file: self.file.clone(),
            output_dir: self.output_dir.clone(),
            password: clone_password(&self.password),
        }
    }
}

/// A copy of a password.
pub fn clone_password(password: &Option<String>) -> (copy: Option<String>)
    ensures
        password_view(copy) == password_view(*password),
{
    match password {
        Some(word) => Some(word.clone()),
        None => None,
    }
}

/// The extractions that unpacking the archives `files` of `source_dir` into
/// `target_dir` consists of: one for each archive, in their order, each into
/// the directory that belongs to its archive, all with the same password.
pub open spec fn jobs_for(
    source_dir: PathView,
    target_dir: PathView,
    files: Seq<PathView>,
    password: Option<Seq<char>>,
) -> Seq<JobView> {
    Seq::new(
        files.len(),
        |i: int|
            JobView {
                file_id: i as nat,
                file: files[i],
                output_dir: unpack_dir(source_dir, files[i], target_dir),
                password,
            },
    )
}

/// The plan of a layer over plain values.
pub open spec fn plan_view(plan: Result<Vec<ExtractJob>, Error>) -> Result<Seq<JobView>, ErrorView> {
    match plan {
        Ok(jobs) => Ok(jobs.deep_view()),
        Err(error) => Err(error@),
    }
}

/// What unpacking `source_dir` into `target_dir` consists of, given what the
/// walk through `source_dir` has found: the error of the scan, or one
/// extraction for each archive.
pub open spec fn planned(
    source_dir: PathView,
    target_dir: PathView,
    exists: bool,
    items: Seq<WalkItemView>,
    password: Option<Seq<char>>,
) -> Result<Seq<JobView>, ErrorView> {
    match scanned(source_dir, exists, items) {
        Ok(files) => Ok(jobs_for(source_dir, target_dir, files, password)),
        Err(error) => Err(error),
    }
}

/// The extractions for the archives `files` of `source_dir`.
pub fn jobs_of(
    source_dir: &FilePath,
    target_dir: &FilePath,
    files: &Vec<FilePath>,
    default_password: &Option<String>,
) -> (jobs: Vec<ExtractJob>)
    ensures
        jobs.deep_view() == jobs_for(
            source_dir@,
            target_dir@,
            files.deep_view(),
            password_view(*default_password),
        ),
{
    let mut jobs: Vec<ExtractJob> = Vec::new();
    let ghost all = jobs_for(
        source_dir@,
        target_dir@,
        files.deep_view(),
        password_view(*default_password),
    );
    let mut i: usize = 0;
    assert(jobs.deep_view() =~= all.take(0));
    while i < files.len()
        invariant
            i <= files.len(),
            all == jobs_for(
                source_dir@,
                target_dir@,
                files.deep_view(),
                password_view(*default_password),
            ),
            jobs.deep_view() == all.take(i as int),
        decreases files.len() - i,
    {
        let ghost before = jobs.deep_view();
        let job = ExtractJob {
            file_id: i,
            file: files[i].clone(),
            output_dir: output_dir_of(source_dir, &files[i], target_dir),
            password: clone_password(default_password),
        };
        jobs.push(job);
        assert(jobs.deep_view() =~= before.push(job@));
        assert(before.push(job@) =~= all.take(i + 1));
        i = i + 1;
    }
    assert(all.take(i as int) =~= all);
    jobs
}

/// Plans the unpacking of `source_dir` into `target_dir`. `exists` says
/// whether `source_dir` exists, `items` what the walk through it has found.
pub fn unzip_dir(
    source_dir: &FilePath,
    target_dir: &FilePath,
    exists: bool,
    items: &Vec<WalkItem>,
    default_password: &Option<String>,
) -> (plan: Result<Vec<ExtractJob>, Error>)
    ensures
        plan_view(plan) == planned(
            source_dir@,
            target_dir@,
            exists,
            items.deep_view(),
            password_view(*default_password),
        ),
{
    match collect_compressed_files_in_dir(source_dir, exists, items) {
        Err(error) => Err(error),
        Ok(files) => Ok(jobs_of(source_dir, target_dir, &files, default_password)),
    }
}

/// Where a run stands.
#[derive(Debug, Clone, Copy, PartialEq, Eq, Structural)]
pub enum RunPhase {
    /// The run waits for the outcome of the walk through its source directory.
    Scanning,
    /// The run has archives and sets their extractions going, one after the
    /// other: it waits for the directory of the next one to be made.
    Preparing,
    /// Every extraction is under way: the run waits for them to end.
    Extracting,
    /// The run has made its last report.
    Closed,
}

/// What the program around the engine tells a run.
#[derive(Debug, PartialEq, Eq)]
pub enum RunEvent {
    /// The walk through the source directory has ended: whether the directory
    /// exists, and what was found in it.
    Scanned { exists: bool, items: Vec<WalkItem> },
    /// The directory that the run asked for was made, or it could not be
    /// made, for the reason given.
    DirCreated(Result<(), String>),
    /// The extraction of the archive at position `file_id` has ended.
    Unzipped { file_id: usize, state: Result<(), Error> },
}

/// A [`RunEvent`] over plain values.
pub enum RunEventView {
    Scanned { exists: bool, items: Seq<WalkItemView> },
    DirCreated(Result<(), Seq<char>>),
    Unzipped { file_id: nat, state: Result<(), ErrorView> },
}

impl View for RunEvent {
    type V = RunEventView;

    open spec fn view(&self) -> RunEventView {
        match self {
            RunEvent::Scanned { exists, items } => RunEventView::Scanned {
                exists: *exists,
                items: items.deep_view(),
            },
            RunEvent::DirCreated(made) => RunEventView::DirCreated(
                match made {
                    Ok(()) => Ok(()),
                    Err(detail) => Err(detail@),
                },
            ),
            RunEvent::Unzipped { file_id, state } => RunEventView::Unzipped {
                file_id: *file_id as nat,
                state: outcome_view(*state),
            },
        }
    }
}

/// What a run asks the program around the engine to do.
#[derive(Debug, PartialEq, Eq)]
pub enum RunAction {
    /// Hand this report of the layer with this number on to the descent.
    Send((usize, Result<Progress, Error>)),
    /// Make this directory, and the directories above it that are missing,
    /// and tell the run with `DirCreated` how that went.
    CreateDir(FilePath),
    /// Set this extraction going. Once all of a layer are going, tell the run
    /// with `Unzipped` how each has ended, as they end.
    Unzip(ExtractJob),
}

/// A [`RunAction`] over plain values.
pub enum RunActionView {
    Send(nat, Result<ProgressView, ErrorView>),
    CreateDir(PathView),
    Unzip(JobView),
}

impl View for RunAction {
    type V = RunActionView;

    open spec fn view(&self) -> RunActionView {
        match self {
            RunAction::Send(report) => RunActionView::Send(report.0 as nat, event_view(report.1)),
            RunAction::CreateDir(dir) => RunActionView::CreateDir(dir@),
            RunAction::Unzip(job) => RunActionView::Unzip(job@),
        }
    }
}

impl DeepView for RunAction {
    type V = RunActionView;

    open spec fn deep_view(&self) -> RunActionView {
        self@
    }
}

/// The unpacking of one layer.
#[derive(Debug, PartialEq, Eq)]
pub struct LayerRun {
    id: usize,
    source_dir: FilePath,
    target_dir: FilePath,
    default_password: Option<String>,
    jobs: Vec<ExtractJob>,
    prepared: usize,
    done: Vec<bool>,
    reports: usize,
    phase: RunPhase,
}

/// A [`LayerRun`] over plain values.
pub struct RunView {
    /// The number of the layer.
    pub id: nat,
    pub source_dir: PathView,
    pub target_dir: PathView,
    pub default_password: Option<Seq<char>>,
    /// The extractions of the layer, once its archives are known.
    pub jobs: Seq<JobView>,
    /// How many extractions have been set going.
    pub prepared: nat,
    /// For each extraction, whether its end has been reported.
    pub done: Seq<bool>,
    /// How many extractions have been reported to have ended.
    pub reports: nat,
    pub phase: RunPhase,
}

/// How many of `done` are true.
pub open spec fn count_true(done: Seq<bool>) -> nat
    decreases done.len(),
{
    if done.len() == 0 {
        0
    } else {
        count_true(done.drop_last()) + if done.last() {
            1nat
        } else {
            0nat
        }
    }
}

/// The archives of the extractions `jobs`.
pub open spec fn files_of(jobs: Seq<JobView>) -> Seq<PathView> {
    jobs.map_values(|job: JobView| job.file)
}

impl RunView {
    /// The run of layer `id` before the walk through `source_dir` has ended.
    pub open spec fn fresh(
        id: nat,
        source_dir: PathView,
        target_dir: PathView,
        default_password: Option<Seq<char>>,
    ) -> RunView {
        RunView {
            id,
            source_dir,
            target_dir,
            default_password,
            jobs: Seq::empty(),
            prepared: 0,
            done: Seq::empty(),
            reports: 0,
            phase: RunPhase::Scanning,
        }
    }

    /// What holds of every run:
    /// its extractions are those of its archives;
    /// it counts the extractions whose end was reported;
    /// it has archives exactly once the scan has found some;
    /// it sets all extractions going before it takes the end of any, and it
    /// waits for ends only while some are missing.
    pub open spec fn wf(self) -> bool {
        &&& self.jobs == jobs_for(
            self.source_dir,
            self.target_dir,
            files_of(self.jobs),
            self.default_password,
        )
        &&& self.done.len() == self.jobs.len()
        &&& self.reports == count_true(self.done)
        &&& self.prepared <= self.jobs.len()
        &&& match self.phase {
            RunPhase::Scanning => self.jobs.len() == 0,
            RunPhase::Preparing => self.prepared < self.jobs.len() && self.reports == 0,
            RunPhase::Extracting => self.prepared == self.jobs.len() && self.reports
                < self.jobs.len(),
            RunPhase::Closed => true,
        }
    }

    /// The run closed.
    pub open spec fn closed(self) -> RunView {
        RunView { phase: RunPhase::Closed, ..self }
    }

    /// The run once the walk has ended, and what it asks for.
    ///
    /// A scan that failed is reported as the failure of the layer, a scan
    /// without archives as `EmptyZips`; either closes the run. Else the run
    /// reports the archives with `Searching` and asks for the directory of
    /// the first extraction.
    pub open spec fn scan_ended(self, exists: bool, items: Seq<WalkItemView>) -> (
        RunView,
        Seq<RunActionView>,
    ) {
        match scanned(self.source_dir, exists, items) {
            Err(error) => (self.closed(), seq![RunActionView::Send(self.id, Err(error))]),
            Ok(files) => if files.len() == 0 {
                (self.closed(), seq![RunActionView::Send(self.id, Ok(ProgressView::EmptyZips))])
            } else {
                let jobs = jobs_for(self.source_dir, self.target_dir, files, self.default_password);
                (
                    RunView {
                        jobs,
                        done: Seq::new(files.len(), |i: int| false),
                        phase: RunPhase::Preparing,
                        ..self
                    },
                    seq![
                        RunActionView::Send(
                            self.id,
                            Ok(ProgressView::Searching { zip_files: files }),
                        ),
                        RunActionView::CreateDir(jobs[0].output_dir),
                    ],
                )
            },
        }
    }

    /// The run once the directory it asked for was made, or not, and what it
    /// asks for.
    ///
    /// With the directory there, the extraction that unpacks into it is set
    /// going, and the run asks for the directory of the next extraction, or,
    /// after the last one, waits for the extractions to end. A directory that
    /// could not be made is the failure of the layer, and closes the run.
    pub open spec fn dir_created(self, made: Result<(), Seq<char>>) -> (
        RunView,
        Seq<RunActionView>,
    ) {
        match made {
            Err(detail) => (
                self.closed(),
                seq![RunActionView::Send(self.id, Err(ErrorView::IoError(detail)))],
            ),
            Ok(()) => {
                let job = self.jobs[self.prepared as int];
                if self.prepared + 1 < self.jobs.len() {
                    (
                        RunView { prepared: self.prepared + 1, ..self },
                        seq![
                            RunActionView::Unzip(job),
                            RunActionView::CreateDir(self.jobs[self.prepared as int + 1].output_dir),
                        ],
                    )
                } else {
                    (
                        RunView {
                            prepared: self.prepared + 1,
                            phase: RunPhase::Extracting,
                            ..self
                        },
                        seq![RunActionView::Unzip(job)],
                    )
                }
            },
        }
    }

    /// Whether the run waits for the end of extraction `file_id`.
    pub open spec fn awaits(self, file_id: nat) -> bool {
        &&& self.phase == RunPhase::Extracting
        &&& file_id < self.jobs.len()
        &&& !self.done[file_id as int]
    }

    /// The run once the extraction `file_id`, for which it waits, has ended,
    /// and what it asks for: the end is reported with `Zipping`, and after
    /// the last one `Finished` follows and the run is closed.
    pub open spec fn unzipped(self, file_id: nat, state: Result<(), ErrorView>) -> (
        RunView,
        Seq<RunActionView>,
    ) {
        let counted = RunView {
            done: self.done.update(file_id as int, true),
            reports: self.reports + 1,
            ..self
        };
        let report = RunActionView::Send(self.id, Ok(ProgressView::Zipping { file_id, state }));
        if self.reports + 1 == self.jobs.len() {
            (counted.closed(), seq![report, RunActionView::Send(self.id, Ok(ProgressView::Finished))])
        } else {
            (counted, seq![report])
        }
    }

    /// The run after `event`, and what it asks the program to do, in this order.
    ///
    /// An event counts only when the run waits for it: the end of the walk
    /// while `Scanning`, a directory while `Preparing`, the end of an
    /// extraction that is under way and not yet reported while `Extracting`.
    /// Every other event changes nothing and asks for nothing.
    pub open spec fn step(self, event: RunEventView) -> (RunView, Seq<RunActionView>) {
        match event {
            RunEventView::Scanned { exists, items } => if self.phase == RunPhase::Scanning {
                self.scan_ended(exists, items)
            } else {
                (self, Seq::empty())
            },
            RunEventView::DirCreated(made) => if self.phase == RunPhase::Preparing {
                self.dir_created(made)
            } else {
                (self, Seq::empty())
            },
            RunEventView::Unzipped { file_id, state } => if self.awaits(file_id) {
                self.unzipped(file_id, state)
            } else {
                (self, Seq::empty())
            },
        }
    }
}

impl View for LayerRun {
    type V = RunView;

    closed spec fn view(&self) -> RunView {
        RunView {
            id: self.id as nat,
            source_dir: self.source_dir@,
            target_dir: self.target_dir@,
            default_password: password_view(self.default_password),
            jobs: self.jobs.deep_view(),
            prepared: self.prepared as nat,
            done: self.done@,
            reports: self.reports as nat,
            phase: self.phase,
        }
    }
}

impl DeepView for LayerRun {
    type V = RunView;

    open spec fn deep_view(&self) -> RunView {
        self@
    }
}

/// Where nothing was reported, nothing is counted.
pub proof fn lemma_count_none(n: nat)
    ensures
        count_true(Seq::new(n, |i: int| false)) == 0,
    decreases n,
{
    if n > 0 {
        lemma_count_none((n - 1) as nat);
        assert(Seq::new(n, |i: int| false).drop_last() =~= Seq::new(
            (n - 1) as nat,
            |i: int| false,
        ));
    }
}

/// Where nothing is counted, nothing was reported.
pub proof fn lemma_count_none_done(done: Seq<bool>)
    requires
        count_true(done) == 0,
    ensures
        forall|i: int| 0 <= i < done.len() ==> !done[i],
    decreases done.len(),
{
    if done.len() > 0 {
        let front = done.drop_last();
        lemma_count_none_done(front);
        assert forall|i: int| 0 <= i < done.len() implies !done[i] by {
            if i < front.len() {
                assert(front[i] == done[i]);
            }
        }
    }
}

/// No more is counted than there is.
pub proof fn lemma_count_bound(done: Seq<bool>)
    ensures
        count_true(done) <= done.len(),
        count_true(done) == done.len() ==> forall|i: int| 0 <= i < done.len() ==> done[i],
    decreases done.len(),
{
    if done.len() > 0 {
        let front = done.drop_last();
        lemma_count_bound(front);
        if count_true(done) == done.len() {
            assert forall|i: int| 0 <= i < done.len() implies done[i] by {
                if i < front.len() {
                    assert(front[i] == done[i]);
                }
            }
        }
    }
}

/// One more report is one more counted.
pub proof fn lemma_count_one_more(done: Seq<bool>, at: int)
    requires
        0 <= at < done.len(),
        !done[at],
    ensures
        count_true(done.update(at, true)) == count_true(done) + 1,
    decreases done.len(),
{
    let after = done.update(at, true);
    if at == done.len() - 1 {
        assert(after.drop_last() =~= done.drop_last());
    } else {
        lemma_count_one_more(done.drop_last(), at);
        assert(after.drop_last() =~= done.drop_last().update(at, true));
    }
}

/// The extractions of some archives are the extractions of their own archives.
pub proof fn lemma_jobs_for_files(
    source_dir: PathView,
    target_dir: PathView,
    files: Seq<PathView>,
    password: Option<Seq<char>>,
)
    ensures
        files_of(jobs_for(source_dir, target_dir, files, password)) == files,
{
    assert(files_of(jobs_for(source_dir, target_dir, files, password)) =~= files);
}

/// Every event leaves a run a run.
pub proof fn lemma_step_wf(run: RunView, event: RunEventView)
    requires
        run.wf(),
    ensures
        run.step(event).0.wf(),
{
    let next = run.step(event).0;
    match event {
        RunEventView::Scanned { exists, items } => {
            if run.phase == RunPhase::Scanning {
                match scanned(run.source_dir, exists, items) {
                    Ok(files) => {
                        if files.len() > 0 {
                            lemma_jobs_for_files(
                                run.source_dir,
                                run.target_dir,
                                files,
                                run.default_password,
                            );
                            lemma_count_none(files.len());
                        }
                    },
                    Err(_) => {},
                }
            }
        },
        RunEventView::DirCreated(made) => {},
        RunEventView::Unzipped { file_id, state } => {
            if run.awaits(file_id) {
                lemma_count_one_more(run.done, file_id as int);
                lemma_count_bound(next.done);
            }
        },
    }
}

/// An extraction is set going only once its directory is there: a run asks
/// to unpack only in answer to a directory that was made, and then the
/// archive whose directory that was. For as long as a run sets extractions
/// going, the last thing it has asked for is the directory of the next one.
pub proof fn lemma_directory_first(run: RunView, event: RunEventView)
    requires
        run.wf(),
    ensures
        forall|i: int|
            0 <= i < run.step(event).1.len() && (#[trigger] run.step(event).1[i]) is Unzip ==> {
                &&& run.phase == RunPhase::Preparing
                &&& event matches RunEventView::DirCreated(Ok(_))
                &&& i == 0
                &&& run.step(event).1[i] == RunActionView::Unzip(run.jobs[run.prepared as int])
            },
        run.step(event).0.phase == RunPhase::Preparing && run.step(event).1.len() > 0
            ==> run.step(event).1.last() == RunActionView::CreateDir(
            run.step(event).0.jobs[run.step(event).0.prepared as int].output_dir,
        ),
{
    let actions = run.step(event).1;
    assert forall|i: int| 0 <= i < actions.len() && (#[trigger] actions[i]) is Unzip implies {
        &&& run.phase == RunPhase::Preparing
        &&& event matches RunEventView::DirCreated(Ok(_))
        &&& i == 0
        &&& actions[i] == RunActionView::Unzip(run.jobs[run.prepared as int])
    } by {
        match event {
            RunEventView::Scanned { exists, items } => {
                if run.phase == RunPhase::Scanning {
                    match scanned(run.source_dir, exists, items) {
                        Ok(files) => {},
                        Err(_) => {},
                    }
                }
            },
            RunEventView::DirCreated(made) => {
                match made {
                    Ok(()) => {},
                    Err(_) => {},
                }
            },
            RunEventView::Unzipped { file_id, state } => {},
        }
    }
}

/// The run of layer `id`, which unpacks `source_dir` into `target_dir`. The
/// program walks through `source_dir` and tells the run what it has found.
pub fn run_zip_dir(
    id: usize,
    source_dir: FilePath,
    target_dir: FilePath,
    default_password: Option<String>,
) -> (run: LayerRun)
    ensures
        run@ == RunView::fresh(
            id as nat,
            source_dir@,
            target_dir@,
            password_view(default_password),
        ),
        run.wf(),
{
    let jobs: Vec<ExtractJob> = Vec::new();
    assert(jobs.deep_view() =~= Seq::empty());
    let run = LayerRun {
        id,
        source_dir,
        target_dir,
        default_password,
        jobs,
        prepared: 0,
        done: Vec::new(),
        reports: 0,
        phase: RunPhase::Scanning,
    };
    assert(run@.jobs =~= jobs_for(
        run@.source_dir,
        run@.target_dir,
        files_of(run@.jobs),
        run@.default_password,
    ));
    run
}

/// As many times `false` as `n` says.
fn none_done(n: usize) -> (done: Vec<bool>)
    ensures
        done@ == Seq::new(n as nat, |i: int| false),
{
    let mut done: Vec<bool> = Vec::new();
    let mut i: usize = 0;
    while i < n
        invariant
            i <= n,
            done@ == Seq::new(i as nat, |i: int| false),
        decreases n - i,
    {
        done.push(false);
        i = i + 1;
        assert(done@ =~= Seq::new(i as nat, |i: int| false));
    }
    done
}

impl LayerRun {
    /// What holds of every run.
    pub open spec fn wf(&self) -> bool {
        self@.wf()
    }

    /// The number of the layer.
    pub fn id(&self) -> (id: usize)
        ensures
            id == self@.id,
    {
        self.id
    }

    /// The directory that the run unpacks.
    pub fn source_dir(&self) -> (dir: &FilePath)
        ensures
            dir@ == self@.source_dir,
    {
        &self.source_dir
    }

    /// The directory that the run unpacks into.
    pub fn target_dir(&self) -> (dir: &FilePath)
        ensures
            dir@ == self@.target_dir,
    {
        &self.target_dir
    }

    /// Where the run stands.
    pub fn phase(&self) -> (phase: RunPhase)
        ensures
            phase == self@.phase,
    {
        self.phase
    }

    /// Takes in one event, and says what to do next.
    pub fn step(&mut self, event: RunEvent) -> (actions: Vec<RunAction>)
        requires
            old(self).wf(),
        ensures
            (final(self)@, actions.deep_view()) == old(self)@.step(event@),
            final(self).wf(),
    {
        proof {
            lemma_step_wf(self@, event@);
        }
        let mut actions: Vec<RunAction> = Vec::new();
        assert(actions.deep_view() =~= Seq::empty());
        match event {
            RunEvent::Scanned { exists, items } => {
                if self.phase == RunPhase::Scanning {
                    match collect_compressed_files_in_dir(&self.source_dir, exists, &items) {
                        Err(error) => {
                            self.phase = RunPhase::Closed;
                            let report = RunAction::Send((self.id, Err(error)));
                            actions.push(report);
                            assert(actions.deep_view() =~= seq![report@]);
                        },
                        Ok(files) => {
                            if files.len() == 0 {
                                self.phase = RunPhase::Closed;
                                let report = RunAction::Send((self.id, Ok(Progress::EmptyZips)));
                                actions.push(report);
                                assert(actions.deep_view() =~= seq![report@]);
                            } else {
                                let jobs = jobs_of(
                                    &self.source_dir,
                                    &self.target_dir,
                                    &files,
                                    &self.default_password,
                                );
                                let first = RunAction::CreateDir(jobs[0].output_dir.clone());
                                self.done = none_done(files.len());
                                self.jobs = jobs;
                                self.phase = RunPhase::Preparing;
                                let report = RunAction::Send(
                                    (self.id, Ok(Progress::Searching { zip_files: files })),
                                );
                                actions.push(report);
                                actions.push(first);
                                assert(actions.deep_view() =~= seq![report@, first@]);
                            }
                        },
                    }
                }
            },
            RunEvent::DirCreated(made) => {
                if self.phase == RunPhase::Preparing {
                    match made {
                        Err(detail) => {
                            self.phase = RunPhase::Closed;
                            let report = RunAction::Send((self.id, Err(Error::IoError(detail))));
                            actions.push(report);
                            assert(actions.deep_view() =~= seq![report@]);
                        },
                        Ok(()) => {
                            assert(self.prepared < self.jobs.len()) by {
                                assert(self@.jobs.len() == self.jobs.len());
                            }
                            let unzip = RunAction::Unzip(self.jobs[self.prepared].clone());
                            actions.push(unzip);
                            self.prepared = self.prepared + 1;
                            if self.prepared < self.jobs.len() {
                                let next = RunAction::CreateDir(
                                    self.jobs[self.prepared].output_dir.clone(),
                                );
                                actions.push(next);
                                assert(actions.deep_view() =~= seq![unzip@, next@]);
                            } else {
                                self.phase = RunPhase::Extracting;
                                assert(actions.deep_view() =~= seq![unzip@]);
                            }
                        },
                    }
                }
            },
            RunEvent::Unzipped { file_id, state } => {
                if self.phase == RunPhase::Extracting && file_id < self.jobs.len()
                    && !self.done[file_id] {
                    proof {
                        lemma_count_bound(self.done@);
                    }
                    self.done.set(file_id, true);
                    self.reports = self.reports + 1;
                    let report = RunAction::Send((self.id, Ok(Progress::Zipping { file_id, state })));
                    actions.push(report);
                    if self.reports == self.jobs.len() {
                        self.phase = RunPhase::Closed;
                        let last = RunAction::Send((self.id, Ok(Progress::Finished)));
                        actions.push(last);
                        assert(actions.deep_view() =~= seq![report@, last@]);
                    } else {
                        assert(actions.deep_view() =~= seq![report@]);
                    }
                }
            },
        }
        actions
    }
}

} // verus!
