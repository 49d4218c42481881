//! Telling archives from other files, and picking them out of what a walk
//! through a directory has found.

use vstd::prelude::*;
use vstd::string::*;

use crate::error::{Error, ErrorView};
use crate::path::{FilePath, PathView};

verus! {

/// Whether `extension` is one of the extensions by which an archive is known:
/// `zip`, `rar`, `7z`, `tar`, `gz` or `bz2`, written exactly so.
pub open spec fn is_archive_extension(extension: Seq<char>) -> bool {
    ||| extension == "zip"@
    ||| extension == "rar"@
    ||| extension == "7z"@
    ||| extension == "tar"@
    ||| extension == "gz"@
    ||| extension == "bz2"@
}

/// Whether `path` names an archive. Only the extension of its last name
/// decides: of `a.tar.gz` that is `gz`.
pub open spec fn is_archive(path: PathView) -> bool {
    path.extension() matches Some(extension) && is_archive_extension(extension)
}

/// One step of a walk through a directory.
#[derive(Debug, PartialEq, Eq)]
pub enum WalkItem {
    /// An entry was read: its path, and whether it is a file.
    Found { path: FilePath, is_file: bool },
    /// An entry could not be read.
    Unreadable,
}

/// A [`WalkItem`] over plain values.
pub enum WalkItemView {
    Found { path: PathView, is_file: bool },
    Unreadable,
}

impl View for WalkItem {
    type V = WalkItemView;

    open spec fn view(&self) -> WalkItemView {
        match self {
            WalkItem::Found { path, is_file } => WalkItemView::Found {
                path: path@,
                is_file: *is_file,
            },
            WalkItem::Unreadable => WalkItemView::Unreadable,
        }
    }
}

impl DeepView for WalkItem {
    type V = WalkItemView;

    open spec fn deep_view(&self) -> WalkItemView {
        self@
    }
}

impl WalkItemView {
    /// The archive that this step of the walk has found, if it has found one:
    /// a file whose name is that of an archive. Directories are passed over,
    /// and so are entries that could not be read.
    pub open spec fn archive(self) -> Option<PathView> {
        match self {
            WalkItemView::Found { path, is_file } => if is_file && is_archive(path) {
                Some(path)
            } else {
                None
            },
            WalkItemView::Unreadable => None,
        }
    }
}

/// The archives among what a walk has found, in the order of the walk.
pub open spec fn archives_among(items: Seq<WalkItemView>) -> Seq<PathView> {
    items.filter_map(|item: WalkItemView| item.archive())
}

/// What a scan of `search_dir` comes to. `exists` says whether that directory
/// exists, `items` what the walk through it has found.
pub open spec fn scanned(search_dir: PathView, exists: bool, items: Seq<WalkItemView>) -> Result<
    Seq<PathView>,
    ErrorView,
> {
    if exists {
        Ok(archives_among(items))
    } else {
        Err(ErrorView::FileNotExists(search_dir))
    }
}

/// The view of a scan's outcome.
pub open spec fn scan_view(outcome: Result<Vec<FilePath>, Error>) -> Result<
    Seq<PathView>,
    ErrorView,
> {
    match outcome {
        Ok(files) => Ok(files.deep_view()),
        Err(error) => Err(error@),
    }
}

/// Whether `file` names an archive.
pub fn is_compressed_file(file: &FilePath) -> (yes: bool)
    ensures
        yes == is_archive(file@),
{
    match file.extension() {
        None => false,
        Some(extension) => {
            extension.eq(&String::from_str("zip")) || extension.eq(&String::from_str("rar"))
                || extension.eq(&String::from_str("7z")) || extension.eq(
                &String::from_str("tar"),
            ) || extension.eq(&String::from_str("gz")) || extension.eq(&String::from_str("bz2"))
        },
    }
}

/// Picks the archives out of what a walk through `search_dir` has found. A
/// directory that does not exist is an error; an entry that could not be read
/// is none.
pub fn collect_compressed_files_in_dir(
    search_dir: &FilePath,
    exists: bool,
    items: &Vec<WalkItem>,
) -> (outcome: Result<Vec<FilePath>, Error>)
    ensures
        scan_view(outcome) == scanned(search_dir@, exists, items.deep_view()),
{
    if !exists {
        return Err(Error::FileNotExists(search_dir.clone()));
    }
    let mut files: Vec<FilePath> = Vec::new();
    let ghost all = items.deep_view();
    let mut i: usize = 0;
    assert(files.deep_view() =~= Seq::empty());
    assert(all.take(0) =~= Seq::empty());
    while i < items.len()
        invariant
            i <= items.len(),
            all == items.deep_view(),
            files.deep_view() == archives_among(all.take(i as int)),
        decreases items.len() - i,
    {
        let ghost before = files.deep_view();
        proof {
            let next = all.take(i + 1);
            assert(next.drop_last() =~= all.take(i as int));
            assert(next.last() == items[i as int]@);
        }
        match &items[i] {
            WalkItem::Found { path, is_file } => {
                if *is_file && is_compressed_file(path) {
                    let file = path.clone();
                    files.push(file);
                    assert(files.deep_view() =~= before + seq![file@]);
                }
            },
            WalkItem::Unreadable => {},
        }
        i = i + 1;
    }
    assert(all.take(i as int) =~= all);
    Ok(files)
}

} // verus!
