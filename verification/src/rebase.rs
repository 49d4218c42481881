//! Moving a path from below one root to below another.

use vstd::prelude::*;

use crate::name::{lemma_stem_is_name, stem_of};
use crate::path::{FilePath, PathView};
use crate::path_laws::lemma_common_len_is;

verus! {

/// `path` moved from `old_root` to `new_root`: the leading components that
/// `path` shares with `old_root` are taken away, as many as there are, and
/// what is left is appended to `new_root`.
pub open spec fn rebase(old_root: PathView, path: PathView, new_root: PathView) -> PathView {
    new_root.join(path.relative_to(old_root))
}

/// The directory into which the archive `file`, found below `source_dir`, is
/// unpacked below `target_dir`: the place of the archive moved over to
/// `target_dir`, with the stem of the archive's name in place of its last
/// component. A path without names has no stem to put there, and is only moved.
pub open spec fn unpack_dir(source_dir: PathView, file: PathView, target_dir: PathView) -> PathView {
    match file.file_stem() {
        Some(stem) => rebase(source_dir, file, target_dir).without_last().child(stem),
        None => rebase(source_dir, file, target_dir),
    }
}

/// Moves `path` from `old_root` to `new_root`.
pub fn change_path_root(old_root: &FilePath, path: &FilePath, new_root: &FilePath) -> (moved:
    FilePath)
    ensures
        moved@ == rebase(old_root@, path@, new_root@),
{
    new_root.join(&path.relative_to(old_root))
}

/// The directory into which the archive `file` of `source_dir` is unpacked
/// below `target_dir`.
pub fn output_dir_of(source_dir: &FilePath, file: &FilePath, target_dir: &FilePath) -> (dir:
    FilePath)
    ensures
        dir@ == unpack_dir(source_dir@, file@, target_dir@),
{
    let moved = change_path_root(source_dir, file, target_dir);
    match file.file_stem() {
        None => moved,
        Some(stem) => {
            proof {
                use_type_invariant(file);
                lemma_stem_is_name(file@.names.last());
            }
            moved.with_last_as(stem)
        },
    }
}

/// A path below a root stays where it is when that root is exchanged for itself.
pub proof fn lemma_rebase_to_same_root(root: PathView, path: PathView)
    requires
        path.under(root),
    ensures
        rebase(root, path, root) == path,
{
    let k = root.names.len() as int;
    assert forall|i: int| 0 <= i < k implies root.names[i] == path.names[i] by {
        assert(path.names.take(k)[i] == path.names[i]);
    }
    lemma_common_len_is(root.names, path.names, k);
    assert(root.names + path.names.skip(k) =~= path.names);
}

/// What lies below the old root lies, after the move, in the same place below the new one.
pub proof fn lemma_rebase_below(old_root: PathView, below: Seq<Seq<char>>, new_root: PathView)
    ensures
        rebase(old_root, old_root.join(PathView { rooted: false, names: below }), new_root)
            == new_root.join(PathView { rooted: false, names: below }),
{
    let path = old_root.join(PathView { rooted: false, names: below });
    let k = old_root.names.len() as int;
    assert forall|i: int| 0 <= i < k implies old_root.names[i] == path.names[i] by {}
    lemma_common_len_is(old_root.names, path.names, k);
    assert(path.names.skip(k) =~= below);
}

/// An archive `name` that lies in the directory `below` of the scanned root is
/// unpacked into the directory `below`, then the archive's stem, of the output root.
pub proof fn lemma_unpack_dir_layout(
    source_dir: PathView,
    below: Seq<Seq<char>>,
    name: Seq<char>,
    target_dir: PathView,
)
    ensures
        unpack_dir(
            source_dir,
            source_dir.join(PathView { rooted: false, names: below.push(name) }),
            target_dir,
        ) == target_dir.join(PathView { rooted: false, names: below.push(stem_of(name)) }),
{
    let file = source_dir.join(PathView { rooted: false, names: below.push(name) });
    lemma_rebase_below(source_dir, below.push(name), target_dir);
    let moved = rebase(source_dir, file, target_dir);
    assert(moved.names.drop_last() =~= target_dir.names + below);
    assert((target_dir.names + below).push(stem_of(name)) =~= target_dir.names + below.push(
        stem_of(name),
    ));
    assert(file.names.last() == name);
}

} // verus!
