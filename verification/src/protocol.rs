//! The order in which the unpacking of a layer reports, and where those
//! reports bring the layer that takes them in.

use vstd::prelude::*;

use crate::error::ErrorView;
use crate::layer::{
    lemma_after_wf, lemma_all_running, lemma_fresh_files_run, LayerView, ZipFileHandleState,
    ZipsHandleState,
};
use crate::path::PathView;
use crate::progress::ProgressView;
use crate::run::{
    files_of, lemma_count_bound, lemma_count_none_done, lemma_jobs_for_files, lemma_step_wf,
    RunActionView, RunEventView, RunPhase, RunView,
};
use crate::scan::{archives_among, scanned, WalkItemView};

verus! {

/// Whether `event` reports the end of an extraction.
pub open spec fn is_end(event: Result<ProgressView, ErrorView>) -> bool {
    event matches Ok(ProgressView::Zipping { .. })
}

/// The archive whose extraction `event` reports to have ended.
pub open spec fn end_id(event: Result<ProgressView, ErrorView>) -> nat {
    match event {
        Ok(ProgressView::Zipping { file_id, .. }) => file_id,
        _ => 0,
    }
}

/// Whether `event` is the last word of a layer: no archives, a failure, or `Finished`.
pub open spec fn is_last_word(event: Result<ProgressView, ErrorView>) -> bool {
    event is Err || event == Ok::<ProgressView, ErrorView>(ProgressView::EmptyZips) || event
        == Ok::<ProgressView, ErrorView>(ProgressView::Finished)
}

/// Whether the reports `stream` come in the order of a layer.
///
/// A layer reports first the outcome of its scan: a failure or `EmptyZips`,
/// and then nothing more, or `Searching` with at least one archive. After
/// `Searching` come the ends of extractions, each for an archive of the
/// layer and none for an archive twice. A failure may end the reports at any
/// point; `Finished` ends them once every archive has been reported, and
/// only then.
pub open spec fn orderly(stream: Seq<Result<ProgressView, ErrorView>>) -> bool {
    stream.len() > 0 ==> match stream[0] {
        Err(_) => stream.len() == 1,
        Ok(ProgressView::EmptyZips) => stream.len() == 1,
        Ok(ProgressView::Searching { zip_files }) => {
            &&& zip_files.len() > 0
            &&& forall|i: int| 1 <= i < stream.len() - 1 ==> is_end(#[trigger] stream[i])
            &&& stream.len() > 1 ==> is_end(stream.last()) || stream.last() is Err
                || stream.last() == Ok::<ProgressView, ErrorView>(ProgressView::Finished)
            &&& forall|i: int|
                1 <= i < stream.len() && is_end(#[trigger] stream[i]) ==> end_id(stream[i])
                    < zip_files.len()
            &&& forall|i: int, j: int|
                1 <= i < j < stream.len() && is_end(#[trigger] stream[i]) && is_end(
                    #[trigger] stream[j],
                ) ==> end_id(stream[i]) != end_id(stream[j])
            &&& is_end(stream.last()) ==> stream.len() - 1 < zip_files.len()
            &&& stream.last() == Ok::<ProgressView, ErrorView>(ProgressView::Finished)
                ==> stream.len() == zip_files.len() + 2
        },
        _ => false,
    }
}

/// The report that `action` hands on, if it hands one on.
pub open spec fn report_in(action: RunActionView) -> Option<Result<ProgressView, ErrorView>> {
    match action {
        RunActionView::Send(_, event) => Some(event),
        _ => None,
    }
}

/// The reports among what a run asks for, in their order.
pub open spec fn reports_in(actions: Seq<RunActionView>) -> Seq<Result<ProgressView, ErrorView>> {
    actions.filter_map(|action: RunActionView| report_in(action))
}

impl RunView {
    /// The run after the events `events`, taken in one after the other.
    pub open spec fn after_all(self, events: Seq<RunEventView>) -> RunView
        decreases events.len(),
    {
        if events.len() == 0 {
            self
        } else {
            self.after_all(events.drop_last()).step(events.last()).0
        }
    }

    /// All that the run reports while it takes in the events `events`.
    pub open spec fn reported_over(self, events: Seq<RunEventView>) -> Seq<
        Result<ProgressView, ErrorView>,
    >
        decreases events.len(),
    {
        if events.len() == 0 {
            Seq::empty()
        } else {
            self.reported_over(events.drop_last()) + reports_in(
                self.after_all(events.drop_last()).step(events.last()).1,
            )
        }
    }
}

/// Whether `stream` is what a run in the state `run` has reported so far.
pub open spec fn tracks(run: RunView, stream: Seq<Result<ProgressView, ErrorView>>) -> bool {
    match run.phase {
        RunPhase::Scanning => stream.len() == 0,
        RunPhase::Preparing => stream == seq![
            Ok::<ProgressView, ErrorView>(
                ProgressView::Searching { zip_files: files_of(run.jobs) },
            ),
        ],
        RunPhase::Extracting => {
            &&& stream.len() == 1 + run.reports
            &&& stream[0] == Ok::<ProgressView, ErrorView>(
                ProgressView::Searching { zip_files: files_of(run.jobs) },
            )
            &&& forall|i: int|
                1 <= i < stream.len() ==> is_end(#[trigger] stream[i]) && end_id(stream[i])
                    < run.jobs.len() && run.done[end_id(stream[i]) as int]
            &&& forall|i: int, j: int|
                1 <= i < j < stream.len() ==> end_id(#[trigger] stream[i]) != end_id(
                    #[trigger] stream[j],
                )
        },
        RunPhase::Closed => stream.len() > 0 && orderly(stream) && is_last_word(stream.last()),
    }
}

/// What one, and what two, actions report.
pub proof fn lemma_reports_in(first: RunActionView, second: RunActionView)
    ensures
        reports_in(Seq::empty()) == Seq::<Result<ProgressView, ErrorView>>::empty(),
        reports_in(seq![first]) == match report_in(first) {
            Some(event) => seq![event],
            None => Seq::empty(),
        },
        reports_in(seq![first, second]) == reports_in(seq![first]) + reports_in(seq![second]),
{
    let pick = |action: RunActionView| report_in(action);
    reveal_with_fuel(Seq::filter_map, 3);
    assert(seq![first].drop_last() =~= Seq::empty());
    assert(seq![second].drop_last() =~= Seq::empty());
    assert(seq![first, second].drop_last() =~= seq![first]);
    assert(Seq::<RunActionView>::empty().filter_map(pick) =~= Seq::empty());
    assert(seq![first].filter_map(pick) =~= match report_in(first) {
        Some(event) => seq![event],
        None => Seq::empty(),
    });
    assert(seq![second].filter_map(pick) =~= match report_in(second) {
        Some(event) => seq![event],
        None => Seq::empty(),
    });
    assert(seq![first, second].filter_map(pick) =~= seq![first].filter_map(pick) + seq![
        second,
    ].filter_map(pick));
}

/// A run that has reported `stream` so far has, after one more event,
/// reported `stream` and what it asks to hand on with that event.
pub proof fn lemma_step_tracks(
    run: RunView,
    stream: Seq<Result<ProgressView, ErrorView>>,
    event: RunEventView,
)
    requires
        run.wf(),
        tracks(run, stream),
    ensures
        run.step(event).0.wf(),
        tracks(run.step(event).0, stream + reports_in(run.step(event).1)),
{
    lemma_step_wf(run, event);
    let next = run.step(event).0;
    let actions = run.step(event).1;
    let more = stream + reports_in(actions);
    let filler = RunActionView::CreateDir(PathView::empty());
    lemma_reports_in(filler, filler);
    if actions.len() == 0 {
        assert(more =~= stream);
    } else if actions.len() == 1 {
        assert(actions =~= seq![actions[0]]);
        lemma_reports_in(actions[0], filler);
    } else {
        assert(actions.len() == 2);
        assert(actions =~= seq![actions[0], actions[1]]);
        lemma_reports_in(actions[0], actions[1]);
        lemma_reports_in(actions[1], filler);
    }
    match event {
        RunEventView::Scanned { exists, items } => {
            if run.phase == RunPhase::Scanning {
                match scanned(run.source_dir, exists, items) {
                    Ok(files) => {
                        if files.len() > 0 {
                            lemma_jobs_for_files(
                                run.source_dir,
                                run.target_dir,
                                files,
                                run.default_password,
                            );
                            assert(more =~= seq![
                                Ok::<ProgressView, ErrorView>(
                                    ProgressView::Searching { zip_files: files },
                                ),
                            ]);
                        } else {
                            assert(more =~= seq![
                                Ok::<ProgressView, ErrorView>(ProgressView::EmptyZips),
                            ]);
                        }
                    },
                    Err(error) => {
                        assert(more =~= seq![Err::<ProgressView, ErrorView>(error)]);
                    },
                }
            }
        },
        RunEventView::DirCreated(made) => {
            if run.phase == RunPhase::Preparing {
                match made {
                    Ok(()) => {
                        assert(more =~= stream);
                    },
                    Err(detail) => {
                        assert(more =~= stream.push(Err(ErrorView::IoError(detail))));
                    },
                }
            }
        },
        RunEventView::Unzipped { file_id, state } => {
            if run.awaits(file_id) {
                let report = Ok::<ProgressView, ErrorView>(
                    ProgressView::Zipping { file_id, state },
                );
                lemma_count_bound(run.done);
                if run.reports + 1 == run.jobs.len() {
                    let last = Ok::<ProgressView, ErrorView>(ProgressView::Finished);
                    assert(more =~= stream.push(report).push(last));
                    assert forall|i: int| 1 <= i < more.len() - 1 implies is_end(
                        #[trigger] more[i],
                    ) by {
                        if i < stream.len() {
                            assert(more[i] == stream[i]);
                        }
                    }
                    assert forall|i: int| 1 <= i < more.len() && is_end(
                        #[trigger] more[i],
                    ) implies end_id(more[i]) < files_of(run.jobs).len() by {
                        if i < stream.len() {
                            assert(more[i] == stream[i]);
                        }
                    }
                    assert forall|i: int, j: int|
                        1 <= i < j < more.len() && is_end(#[trigger] more[i]) && is_end(
                            #[trigger] more[j],
                        ) implies end_id(more[i]) != end_id(more[j]) by {
                        assert(more[i] == stream[i]);
                        if j < stream.len() {
                            assert(more[j] == stream[j]);
                        }
                    }
                    assert(orderly(more));
                } else {
                    assert(more =~= stream.push(report));
                    assert forall|i: int| 1 <= i < more.len() implies is_end(#[trigger] more[i])
                        && end_id(more[i]) < next.jobs.len() && next.done[end_id(
                        more[i],
                    ) as int] by {
                        if i < stream.len() {
                            assert(more[i] == stream[i]);
                        }
                    }
                    assert forall|i: int, j: int| 1 <= i < j < more.len() implies end_id(
                        #[trigger] more[i],
                    ) != end_id(#[trigger] more[j]) by {
                        assert(more[i] == stream[i]);
                        if j < stream.len() {
                            assert(more[j] == stream[j]);
                        }
                    }
                }
            } else {
                assert(more =~= stream);
            }
        },
    }
}

/// Whatever a run is told from its start on, it stays a run, and what it has
/// reported is what a run in its state has reported.
pub proof fn lemma_run_tracks(run: RunView, events: Seq<RunEventView>)
    requires
        run.wf(),
        run.phase == RunPhase::Scanning,
    ensures
        run.after_all(events).wf(),
        tracks(run.after_all(events), run.reported_over(events)),
    decreases events.len(),
{
    if events.len() > 0 {
        lemma_run_tracks(run, events.drop_last());
        lemma_step_tracks(
            run.after_all(events.drop_last()),
            run.reported_over(events.drop_last()),
            events.last(),
        );
    }
}

/// Whatever a run is told from its start on, and by whomever, its reports
/// come in the order of a layer; and it is closed exactly when it has said
/// its last word.
pub proof fn lemma_reports_are_orderly(run: RunView, events: Seq<RunEventView>)
    requires
        run.wf(),
        run.phase == RunPhase::Scanning,
    ensures
        orderly(run.reported_over(events)),
        (run.after_all(events).phase == RunPhase::Closed) == (run.reported_over(events).len() > 0
            && is_last_word(run.reported_over(events).last())),
{
    lemma_run_tracks(run, events);
    let now = run.after_all(events);
    let stream = run.reported_over(events);
    if now.phase == RunPhase::Extracting {
        lemma_count_bound(now.done);
        if now.reports > 0 {
            assert(is_end(stream[stream.len() - 1]));
        }
    }
}

/// A scan that finds no archive, as the scan of an empty directory does, ends
/// the layer at once: the run reports `EmptyZips` and nothing else and is
/// closed, and the layer that takes the report in ends without archives,
/// without having turned to zipping.
pub proof fn lemma_empty_scan(run: RunView, layer: LayerView, items: Seq<WalkItemView>)
    requires
        run.phase == RunPhase::Scanning,
        layer.state == ZipsHandleState::Searching,
        archives_among(items).len() == 0,
    ensures
        archives_among(Seq::empty()).len() == 0,
        run.step(RunEventView::Scanned { exists: true, items }) == (
            run.closed(),
            seq![RunActionView::Send(run.id, Ok(ProgressView::EmptyZips))],
        ),
        reports_in(run.step(RunEventView::Scanned { exists: true, items }).1) == seq![
            Ok::<ProgressView, ErrorView>(ProgressView::EmptyZips),
        ],
        layer.after(Ok(ProgressView::EmptyZips)) == (LayerView {
            state: ZipsHandleState::EmptyZips,
            ..layer
        }),
{
    let filler = RunActionView::CreateDir(PathView::empty());
    lemma_reports_in(RunActionView::Send(run.id, Ok(ProgressView::EmptyZips)), filler);
    assert(Seq::<WalkItemView>::empty().filter_map(|item: WalkItemView| item.archive())
        =~= Seq::empty());
}

/// Whether the layer has the archives of the run, in their order.
pub open spec fn same_files(run: RunView, layer: LayerView) -> bool {
    &&& layer.zip_files.len() == run.jobs.len()
    &&& forall|i: int|
        0 <= i < run.jobs.len() ==> (#[trigger] layer.zip_files[i]).path == run.jobs[i].file
}

/// Whether the layer `layer` is where the reports of the run `run` have
/// brought it.
///
/// While the run waits for the scan, the layer is searching. Once the run
/// has archives, the layer has the same and is zipping; the layer has closed
/// the archives whose end the run has counted, and no others. The layer is
/// over exactly when the run is closed, and it is finished only where the run
/// has counted the end of every extraction.
pub open spec fn agrees(run: RunView, layer: LayerView) -> bool {
    &&& layer.input_path == run.source_dir
    &&& match run.phase {
        RunPhase::Scanning => layer.state == ZipsHandleState::Searching,
        RunPhase::Preparing => {
            &&& layer.state == ZipsHandleState::Zipping
            &&& same_files(run, layer)
            &&& layer.finish_count == 0
        },
        RunPhase::Extracting => {
            &&& layer.state == ZipsHandleState::Zipping
            &&& same_files(run, layer)
            &&& layer.finish_count == run.reports
            &&& forall|i: int|
                0 <= i < run.jobs.len() ==> #[trigger] run.done[i] == (layer.zip_files[i].state
                    != ZipFileHandleState::Running)
        },
        RunPhase::Closed => {
            &&& !layer.is_open()
            &&& layer.state == ZipsHandleState::Finished ==> same_files(run, layer)
                && run.reports == run.jobs.len()
        },
    }
}

/// Taking in reports one batch after the other is taking them all in.
pub proof fn lemma_after_all_concat(
    layer: LayerView,
    first: Seq<Result<ProgressView, ErrorView>>,
    second: Seq<Result<ProgressView, ErrorView>>,
)
    ensures
        layer.after_all(first + second) == layer.after_all(first).after_all(second),
    decreases second.len(),
{
    if second.len() == 0 {
        assert(first + second =~= first);
    } else {
        lemma_after_all_concat(layer, first, second.drop_last());
        assert((first + second).drop_last() =~= first + second.drop_last());
        assert((first + second).last() == second.last());
    }
}

/// What a layer is after no report, after one, and after two.
pub proof fn lemma_after_few(
    layer: LayerView,
    first: Result<ProgressView, ErrorView>,
    second: Result<ProgressView, ErrorView>,
)
    ensures
        layer.after_all(Seq::empty()) == layer,
        layer.after_all(seq![first]) == layer.after(first),
        layer.after_all(seq![first, second]) == layer.after(first).after(second),
{
    reveal_with_fuel(LayerView::after_all, 3);
    assert(seq![first].drop_last() =~= Seq::empty());
    assert(seq![first, second].drop_last() =~= seq![first]);
}

/// A layer that is where the reports of its run have brought it is, after
/// one more event for the run and the reports that the run asks to hand on
/// with it, again where the reports of its run have brought it.
pub proof fn lemma_step_agrees(run: RunView, layer: LayerView, event: RunEventView)
    requires
        run.wf(),
        layer.wf(),
        agrees(run, layer),
    ensures
        run.step(event).0.wf(),
        layer.after_all(reports_in(run.step(event).1)).wf(),
        agrees(run.step(event).0, layer.after_all(reports_in(run.step(event).1))),
{
    lemma_step_wf(run, event);
    let next = run.step(event).0;
    let actions = run.step(event).1;
    let filler = RunActionView::CreateDir(PathView::empty());
    let quiet = Ok::<ProgressView, ErrorView>(ProgressView::Finished);
    lemma_reports_in(filler, filler);
    lemma_after_few(layer, quiet, quiet);
    if actions.len() == 1 {
        assert(actions =~= seq![actions[0]]);
        lemma_reports_in(actions[0], filler);
    } else if actions.len() == 2 {
        assert(actions =~= seq![actions[0], actions[1]]);
        lemma_reports_in(actions[0], actions[1]);
        lemma_reports_in(actions[1], filler);
    } else {
        assert(actions.len() == 0);
        assert(actions =~= Seq::empty());
    }
    match event {
        RunEventView::Scanned { exists, items } => {
            if run.phase == RunPhase::Scanning {
                match scanned(run.source_dir, exists, items) {
                    Ok(files) => {
                        if files.len() > 0 {
                            let found = Ok::<ProgressView, ErrorView>(
                                ProgressView::Searching { zip_files: files },
                            );
                            assert(reports_in(actions) =~= seq![found]);
                            lemma_after_few(layer, found, quiet);
                            lemma_after_wf(layer, found);
                            lemma_fresh_files_run(files, layer.input_path);
                        } else {
                            let none = Ok::<ProgressView, ErrorView>(ProgressView::EmptyZips);
                            assert(reports_in(actions) =~= seq![none]);
                            lemma_after_few(layer, none, quiet);
                            lemma_after_wf(layer, none);
                        }
                    },
                    Err(error) => {
                        let failed = Err::<ProgressView, ErrorView>(error);
                        assert(reports_in(actions) =~= seq![failed]);
                        lemma_after_few(layer, failed, quiet);
                        lemma_after_wf(layer, failed);
                    },
                }
            }
        },
        RunEventView::DirCreated(made) => {
            if run.phase == RunPhase::Preparing {
                match made {
                    Ok(()) => {
                        assert(reports_in(actions) =~= Seq::empty());
                        if next.phase == RunPhase::Extracting {
                            lemma_all_running(layer.zip_files);
                            lemma_count_none_done(run.done);
                        }
                    },
                    Err(detail) => {
                        let failed = Err::<ProgressView, ErrorView>(ErrorView::IoError(detail));
                        assert(reports_in(actions) =~= seq![failed]);
                        lemma_after_few(layer, failed, quiet);
                        lemma_after_wf(layer, failed);
                    },
                }
            }
        },
        RunEventView::Unzipped { file_id, state } => {
            if run.awaits(file_id) {
                let report = Ok::<ProgressView, ErrorView>(
                    ProgressView::Zipping { file_id, state },
                );
                assert(layer.awaits(file_id));
                lemma_after_wf(layer, report);
                let taken = layer.after(report);
                if run.reports + 1 == run.jobs.len() {
                    assert(reports_in(actions) =~= seq![report, quiet]);
                    lemma_after_few(layer, report, quiet);
                    lemma_after_wf(taken, quiet);
                } else {
                    assert(reports_in(actions) =~= seq![report]);
                    lemma_after_few(layer, report, quiet);
                    assert forall|i: int| 0 <= i < next.jobs.len() implies #[trigger] next.done[i]
                        == (taken.zip_files[i].state != ZipFileHandleState::Running) by {
                        if i != file_id {
                            assert(next.done[i] == run.done[i]);
                        }
                    }
                }
            }
        },
    }
}

/// Whatever a run is told from its start on, the layer that takes in its
/// reports stays a layer and is where those reports have brought it: above
/// all, the layer is over exactly when the run is closed.
pub proof fn lemma_layer_follows_run(run: RunView, layer: LayerView, events: Seq<RunEventView>)
    requires
        run.wf(),
        run.phase == RunPhase::Scanning,
        layer.wf(),
        layer.state == ZipsHandleState::Searching,
        layer.input_path == run.source_dir,
    ensures
        layer.after_all(run.reported_over(events)).wf(),
        agrees(run.after_all(events), layer.after_all(run.reported_over(events))),
        layer.after_all(run.reported_over(events)).is_open() == (run.after_all(events).phase
            != RunPhase::Closed),
    decreases events.len(),
{
    if events.len() == 0 {
        lemma_after_few(layer, Ok(ProgressView::Finished), Ok(ProgressView::Finished));
    } else {
        let before = events.drop_last();
        lemma_layer_follows_run(run, layer, before);
        lemma_run_tracks(run, before);
        lemma_step_agrees(
            run.after_all(before),
            layer.after_all(run.reported_over(before)),
            events.last(),
        );
        lemma_after_all_concat(
            layer,
            run.reported_over(before),
            reports_in(run.after_all(before).step(events.last()).1),
        );
    }
}

} // verus!
