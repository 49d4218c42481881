//! What the unpacking of a layer reports while it goes on.

use vstd::prelude::*;

use crate::error::{outcome_view, Error, ErrorView};
use crate::path::{FilePath, PathView};

verus! {

/// One report from the unpacking of a layer.
///
/// A layer reports either `EmptyZips` and nothing more, or `Searching` with
/// the archives that it has found, then one `Zipping` for each of them as its
/// extraction ends, in any order, then `Finished`.
#[derive(Debug, PartialEq, Eq)]
pub enum Progress {
    /// The scan has found no archive: the layer is over.
    EmptyZips,
    /// The scan has found these archives; each is known from here on by its
    /// position in the list.
    Searching { zip_files: Vec<FilePath> },
    /// The extraction of the archive at position `file_id` has ended, well or not.
    Zipping { file_id: usize, state: Result<(), Error> },
    /// Every extraction has ended.
    Finished,
}

/// A [`Progress`] over plain values.
pub enum ProgressView {
    EmptyZips,
    Searching { zip_files: Seq<PathView> },
    Zipping { file_id: nat, state: Result<(), ErrorView> },
    Finished,
}

impl View for Progress {
    type V = ProgressView;

    open spec fn view(&self) -> ProgressView {
        match self {
            Progress::EmptyZips => ProgressView::EmptyZips,
            Progress::Searching { zip_files } => ProgressView::Searching {
                zip_files: zip_files.deep_view(),
            },
            Progress::Zipping { file_id, state } => ProgressView::Zipping {
                file_id: *file_id as nat,
                state: outcome_view(*state),
            },
            Progress::Finished => ProgressView::Finished,
        }
    }
}

impl Clone for Progress {
    fn clone(&self) -> (copy: Progress)
        ensures
            copy@ == self@,
    {
        match self {
            Progress::EmptyZips => Progress::EmptyZips,
            Progress::Searching { zip_files } => {
                let mut files: Vec<FilePath> = Vec::new();
                let mut i: usize = 0;
                assert(files.deep_view() =~= zip_files.deep_view().take(0));
                while i < zip_files.len()
                    invariant
                        i <= zip_files.len(),
                        files.deep_view() == zip_files.deep_view().take(i as int),
                    decreases zip_files.len() - i,
                {
                    let ghost before = files.deep_view();
                    let file = zip_files[i].clone();
                    files.push(file);
                    assert(files.deep_view() =~= before.push(file@));
                    assert(before.push(file@) =~= zip_files.deep_view().take(i + 1));
                    i = i + 1;
                }
                assert(zip_files.deep_view().take(i as int) =~= zip_files.deep_view());
                Progress::Searching { zip_files: files }
            },
            Progress::Zipping { file_id, state } => Progress::Zipping {
                file_id: *file_id,
                state: match state {
                    Ok(()) => Ok(()),
                    Err(error) => Err(error.clone()),
                },
            },
            Progress::Finished => Progress::Finished,
        }
    }
}

/// A report, or the failure that ends a layer in its place, over plain values.
pub open spec fn event_view(event: Result<Progress, Error>) -> Result<ProgressView, ErrorView> {
    match event {
        Ok(progress) => Ok(progress@),
        Err(error) => Err(error@),
    }
}

} // verus!
