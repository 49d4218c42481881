//! Paths as the engine sees them: an optional root and the names below it.
//!
//! A path is written with `/` between its names. Empty names do not exist:
//! `a//b` and `a/b/` are the path `a/b`. No other rewriting takes place, so
//! `a/./b` and `a/b` are different paths.

use vstd::prelude::*;
use vstd::string::*;

use crate::name::{extension_of, name_extension, name_stem, stem_of};
use crate::number::{decimal, decimal_string};
use crate::path_laws::{
    lemma_all_names_concat, lemma_all_names_subrange, lemma_common_len_is,
    lemma_decimal_is_name, lemma_name_between, lemma_name_len_bounds,
};

verus! {

/// What a path is: whether it starts at the root, and the names that lead on from there.
pub struct PathView {
    pub rooted: bool,
    pub names: Seq<Seq<char>>,
}

/// A name of a path is not empty and holds no separator.
pub open spec fn is_name(name: Seq<char>) -> bool {
    name.len() > 0 && forall|i: int| 0 <= i < name.len() ==> name[i] != '/'
}

/// Each of `names` is a name.
pub open spec fn all_names(names: Seq<Seq<char>>) -> bool {
    forall|i: int| 0 <= i < names.len() ==> is_name(#[trigger] names[i])
}

/// The length of the longest prefix of `text` that holds no separator.
pub open spec fn name_len(text: Seq<char>) -> nat
    decreases text.len(),
{
    if text.len() == 0 || text[0] == '/' {
        0
    } else {
        1 + name_len(text.skip(1))
    }
}

/// The names written in `text`: its longest runs of characters other than the
/// separator, from left to right.
pub open spec fn split_names(text: Seq<char>) -> Seq<Seq<char>>
    decreases text.len(),
{
    if text.len() == 0 {
        Seq::empty()
    } else if text[0] == '/' {
        split_names(text.skip(1))
    } else {
        proof {
            lemma_name_len_bounds(text);
        }
        let k = name_len(text) as int;
        seq![text.take(k)] + split_names(text.skip(k))
    }
}

/// The path written in `text`. It is rooted when the text starts with a separator.
pub open spec fn parse_path(text: Seq<char>) -> PathView {
    PathView { rooted: text.len() > 0 && text[0] == '/', names: split_names(text) }
}

/// The names with one separator between each two neighbours.
pub open spec fn joined(names: Seq<Seq<char>>) -> Seq<char>
    decreases names.len(),
{
    if names.len() == 0 {
        Seq::empty()
    } else if names.len() == 1 {
        names[0]
    } else {
        joined(names.drop_last()) + seq!['/'] + names.last()
    }
}

/// How many leading names `a` and `b` have in common.
pub open spec fn common_len(a: Seq<Seq<char>>, b: Seq<Seq<char>>) -> nat
    decreases a.len(),
{
    if a.len() == 0 || b.len() == 0 || a[0] != b[0] {
        0
    } else {
        1 + common_len(a.skip(1), b.skip(1))
    }
}

impl PathView {
    /// Every name is a name.
    pub open spec fn wf(self) -> bool {
        all_names(self.names)
    }

    /// The path without names that does not start at the root.
    pub open spec fn empty() -> PathView {
        PathView { rooted: false, names: Seq::empty() }
    }

    /// The path as text: the root as a separator, then the names with separators between them.
    pub open spec fn text(self) -> Seq<char> {
        if self.rooted {
            seq!['/'] + joined(self.names)
        } else {
            joined(self.names)
        }
    }

    /// `tail` appended to this path. A rooted `tail` stands for itself.
    pub open spec fn join(self, tail: PathView) -> PathView {
        if tail.rooted {
            tail
        } else {
            PathView { rooted: self.rooted, names: self.names + tail.names }
        }
    }

    /// This path lies at or below `root`: both start alike, and the names of `root`
    /// are the first names of this path.
    pub open spec fn under(self, root: PathView) -> bool {
        &&& self.rooted == root.rooted
        &&& root.names.len() <= self.names.len()
        &&& self.names.take(root.names.len() as int) == root.names
    }

    /// What is left of this path once the longest run of leading components that it
    /// shares with `root` is taken away.
    pub open spec fn relative_to(self, root: PathView) -> PathView {
        if self.rooted != root.rooted {
            self
        } else {
            PathView {
                rooted: false,
                names: self.names.skip(common_len(root.names, self.names) as int),
            }
        }
    }

    /// This path without its last component. The root is the last component of a
    /// rooted path without names.
    pub open spec fn without_last(self) -> PathView {
        if self.names.len() > 0 {
            PathView { rooted: self.rooted, names: self.names.drop_last() }
        } else {
            PathView::empty()
        }
    }

    /// The last name, where there is one.
    pub open spec fn file_name(self) -> Option<Seq<char>> {
        if self.names.len() > 0 {
            Some(self.names.last())
        } else {
            None
        }
    }

    /// The stem of the last name, where there is one.
    pub open spec fn file_stem(self) -> Option<Seq<char>> {
        if self.names.len() > 0 {
            Some(stem_of(self.names.last()))
        } else {
            None
        }
    }

    /// The extension of the last name, where there is a last name and it has one.
    pub open spec fn extension(self) -> Option<Seq<char>> {
        if self.names.len() > 0 {
            extension_of(self.names.last())
        } else {
            None
        }
    }

    /// This path with one more name at its end.
    pub open spec fn child(self, name: Seq<char>) -> PathView {
        PathView { rooted: self.rooted, names: self.names.push(name) }
    }
}

/// A path: a root, or none, and the names below it.
#[derive(Debug, PartialEq, Eq)]
pub struct FilePath {
    rooted: bool,
    names: Vec<String>,
}

impl View for FilePath {
    type V = PathView;

    closed spec fn view(&self) -> PathView {
        PathView { rooted: self.rooted, names: self.names.deep_view() }
    }
}

impl DeepView for FilePath {
    type V = PathView;

    open spec fn deep_view(&self) -> PathView {
        self@
    }
}

impl Clone for FilePath {
    fn clone(&self) -> (copy: FilePath)
        ensures
            copy@ == self@,
    {
        proof {
            use_type_invariant(self);
        }
        let mut names: Vec<String> = Vec::new();
        let mut i: usize = 0;
        while i < self.names.len()
            invariant
                i <= self.names.len(),
                names.deep_view() == self.names.deep_view().take(i as int),
            decreases self.names.len() - i,
        {
            let ghost before = names.deep_view();
            let name = self.names[i].clone();
            names.push(name);
            assert(names.deep_view() =~= before.push(name@));
            assert(before.push(name@) =~= self.names.deep_view().take(i + 1));
            i = i + 1;
        }
        assert(names.deep_view() =~= self.names.deep_view());
        FilePath { rooted: self.rooted, names }
    }
}

impl FilePath {
    /// Every path is made of names: this holds of each `FilePath` there is.
    #[verifier::type_invariant]
    pub open spec fn names_are_names(&self) -> bool {
        self@.wf()
    }

    /// The path without names that does not start at the root.
    pub fn empty() -> (path: FilePath)
        ensures
            path@ == PathView::empty(),
    {
        let names: Vec<String> = Vec::new();
        assert(names.deep_view() =~= Seq::empty());
        FilePath { rooted: false, names }
    }

    /// Reads a path from its text.
    pub fn parse(text: &str) -> (path: FilePath)
        ensures
            path@ == parse_path(text@),
    {
        let n = text.unicode_len();
        let mut rooted = false;
        let mut names: Vec<String> = Vec::new();
        // where the name begins that the walk through the text is in, if it is in one
        let mut start: Option<usize> = None;
        let mut i: usize = 0;
        assert(text@.skip(0) =~= text@);
        assert(names.deep_view() =~= Seq::empty());
        for c in it: text.chars()
            invariant
                it.seq() == text@,
                n == text@.len(),
                i == it.index(),
                rooted == (i > 0 && text@[0] == '/'),
                start matches Some(s) ==> s < i && forall|j: int| s <= j < i ==> text@[j] != '/',
                split_names(text@) == names.deep_view() + split_names(
                    text@.skip(
                        match start {
                            Some(s) => s as int,
                            None => i as int,
                        },
                    ),
                ),
                all_names(names.deep_view()),
        {
            let ghost before = names.deep_view();
            if i == 0 {
                rooted = c == '/';
            }
            if c == '/' {
                assert(text@.skip(i as int).skip(1) =~= text@.skip(i + 1));
                if let Some(s) = start {
                    let name = String::from_str(text.substring_char(s, i));
                    proof {
                        lemma_name_between(text@, s as int, i as int);
                    }
                    names.push(name);
                    proof {
                        assert(names.deep_view() =~= before.push(name@));
                        assert(before.push(name@) + split_names(text@.skip(i + 1)) =~= before + (
                        seq![name@] + split_names(text@.skip(i + 1))));
                        assert(before.push(name@) =~= before + seq![name@]);
                        lemma_all_names_concat(before, seq![name@]);
                    }
                    start = None;
                }
            } else if start.is_none() {
                start = Some(i);
            }
            i = i + 1;
        }
        if let Some(s) = start {
            let ghost before = names.deep_view();
            let name = String::from_str(text.substring_char(s, n));
            proof {
                lemma_name_between(text@, s as int, n as int);
                assert(text@.skip(n as int) =~= Seq::empty());
            }
            names.push(name);
            proof {
                assert(names.deep_view() =~= before.push(name@));
                assert(before.push(name@) =~= before + (seq![name@] + Seq::<Seq<char>>::empty()));
                assert(before.push(name@) =~= before + seq![name@]);
                lemma_all_names_concat(before, seq![name@]);
            }
        } else {
            assert(text@.skip(n as int) =~= Seq::empty());
            assert(names.deep_view() + Seq::<Seq<char>>::empty() =~= names.deep_view());
        }
        FilePath { rooted, names }
    }

    /// Whether the path starts at the root.
    pub fn is_rooted(&self) -> (rooted: bool)
        ensures
            rooted == self@.rooted,
    {
        self.rooted
    }

    /// The number of names.
    pub fn len(&self) -> (n: usize)
        ensures
            n == self@.names.len(),
    {
        self.names.len()
    }

    /// The name at position `i`, where the path has that many names.
    pub fn name(&self, i: usize) -> (name: Option<&String>)
        ensures
            name.is_some() == (i < self@.names.len()),
            name matches Some(n) ==> n@ == self@.names[i as int],
    {
        if i < self.names.len() {
            Some(&self.names[i])
        } else {
            None
        }
    }

    /// The path as text.
    pub fn to_string(&self) -> (text: String)
        ensures
            text@ == self@.text(),
    {
        let mut text = String::new();
        if self.rooted {
            text.append("/");
            proof {
                reveal_strlit("/");
            }
            assert(text@ =~= seq!['/']);
        }
        let ghost lead = text@;
        let ghost names = self.names.deep_view();
        let mut i: usize = 0;
        assert(names.take(0) =~= Seq::empty());
        assert(lead + joined(Seq::<Seq<char>>::empty()) =~= lead);
        while i < self.names.len()
            invariant
                i <= self.names.len(),
                names == self.names.deep_view(),
                text@ == lead + joined(names.take(i as int)),
            decreases self.names.len() - i,
        {
            proof {
                reveal_strlit("/");
                let next = names.take(i + 1);
                assert(next.drop_last() =~= names.take(i as int));
                assert(next.last() == names[i as int]);
            }
            if i > 0 {
                text.append("/");
            }
            text.append(self.names[i].as_str());
            assert(text@ =~= lead + joined(names.take(i + 1)));
            i = i + 1;
        }
        assert(names.take(i as int) =~= names);
        text
    }

    /// Whether the two paths are the same path.
    pub fn same_as(&self, other: &FilePath) -> (same: bool)
        ensures
            same == (self@ == other@),
    {
        if self.rooted != other.rooted || self.names.len() != other.names.len() {
            assert(self@.names.len() == self.names.len());
            assert(other@.names.len() == other.names.len());
            return false;
        }
        let mut i: usize = 0;
        while i < self.names.len()
            invariant
                i <= self.names.len(),
                self.names.len() == other.names.len(),
                forall|j: int| 0 <= j < i ==> self.names.deep_view()[j] == other.names.deep_view()[j],
            decreases self.names.len() - i,
        {
            if !self.names[i].eq(&other.names[i]) {
                assert(self.names.deep_view()[i as int] != other.names.deep_view()[i as int]);
                return false;
            }
            i = i + 1;
        }
        assert(self.names.deep_view() =~= other.names.deep_view());
        true
    }

    /// `tail` appended to this path. A rooted `tail` stands for itself.
    pub fn join(&self, tail: &FilePath) -> (path: FilePath)
        ensures
            path@ == self@.join(tail@),
    {
        if tail.rooted {
            return tail.clone();
        }
        proof {
            use_type_invariant(self);
            use_type_invariant(tail);
        }
        let mut names: Vec<String> = Vec::new();
        assert(names.deep_view() =~= Seq::empty());
        copy_names(&self.names, 0, self.names.len(), &mut names);
        copy_names(&tail.names, 0, tail.names.len(), &mut names);
        proof {
            assert(names.deep_view() =~= self.names.deep_view() + tail.names.deep_view());
            lemma_all_names_concat(self.names.deep_view(), tail.names.deep_view());
        }
        FilePath { rooted: self.rooted, names }
    }

    /// This path with the decimal text of `n` as one more name.
    pub fn numbered(&self, n: usize) -> (path: FilePath)
        ensures
            path@ == self@.child(decimal(n as nat)),
    {
        proof {
            lemma_decimal_is_name(n as nat);
        }
        self.with_name(decimal_string(n))
    }

    /// This path with one more name at its end.
    fn with_name(&self, name: String) -> (path: FilePath)
        requires
            is_name(name@),
        ensures
            path@ == self@.child(name@),
    {
        proof {
            use_type_invariant(self);
        }
        let mut names: Vec<String> = Vec::new();
        assert(names.deep_view() =~= Seq::empty());
        copy_names(&self.names, 0, self.names.len(), &mut names);
        let ghost before = names.deep_view();
        names.push(name);
        proof {
            assert(names.deep_view() =~= before.push(name@));
            assert(before =~= self.names.deep_view());
            assert(before.push(name@) =~= before + seq![name@]);
            lemma_all_names_concat(before, seq![name@]);
        }
        FilePath { rooted: self.rooted, names }
    }

    /// What is left of this path once the longest run of leading components that it
    /// shares with `root` is taken away.
    pub fn relative_to(&self, root: &FilePath) -> (rest: FilePath)
        ensures
            rest@ == self@.relative_to(root@),
    {
        if self.rooted != root.rooted {
            return self.clone();
        }
        proof {
            use_type_invariant(self);
        }
        let mut k: usize = 0;
        while k < root.names.len() && k < self.names.len() && root.names[k].eq(&self.names[k])
            invariant
                k <= root.names.len(),
                k <= self.names.len(),
                forall|j: int| 0 <= j < k ==> root.names.deep_view()[j] == self.names.deep_view()[j],
            decreases self.names.len() - k,
        {
            k = k + 1;
        }
        proof {
            lemma_common_len_is(root.names.deep_view(), self.names.deep_view(), k as int);
        }
        let mut names: Vec<String> = Vec::new();
        assert(names.deep_view() =~= Seq::empty());
        copy_names(&self.names, k, self.names.len(), &mut names);
        proof {
            assert(names.deep_view() =~= self.names.deep_view().skip(k as int));
            lemma_all_names_subrange(self.names.deep_view(), k as int, self.names.len() as int);
        }
        FilePath { rooted: false, names }
    }

    /// This path without its last component. The root is the last component of a
    /// rooted path without names.
    pub fn without_last(&self) -> (path: FilePath)
        ensures
            path@ == self@.without_last(),
    {
        if self.names.len() == 0 {
            return FilePath::empty();
        }
        proof {
            use_type_invariant(self);
        }
        let mut names: Vec<String> = Vec::new();
        assert(names.deep_view() =~= Seq::empty());
        copy_names(&self.names, 0, self.names.len() - 1, &mut names);
        proof {
            assert(names.deep_view() =~= self.names.deep_view().drop_last());
            lemma_all_names_subrange(self.names.deep_view(), 0, self.names.len() - 1);
        }
        FilePath { rooted: self.rooted, names }
    }

    /// The last name, where there is one.
    pub fn file_name(&self) -> (name: Option<String>)
        ensures
            name.is_some() == self@.file_name().is_some(),
            name matches Some(n) ==> self@.file_name() == Some(n@),
    {
        if self.names.len() == 0 {
            None
        } else {
            Some(self.names[self.names.len() - 1].clone())
        }
    }

    /// The stem of the last name, where there is one.
    pub fn file_stem(&self) -> (stem: Option<String>)
        ensures
            stem.is_some() == self@.file_stem().is_some(),
            stem matches Some(s) ==> self@.file_stem() == Some(s@),
    {
        if self.names.len() == 0 {
            None
        } else {
            Some(name_stem(self.names[self.names.len() - 1].as_str()))
        }
    }

    /// The extension of the last name, where there is a last name and it has one.
    pub fn extension(&self) -> (extension: Option<String>)
        ensures
            extension.is_some() == self@.extension().is_some(),
            extension matches Some(e) ==> self@.extension() == Some(e@),
    {
        if self.names.len() == 0 {
            None
        } else {
            name_extension(self.names[self.names.len() - 1].as_str())
        }
    }

    /// This path with its last component replaced by the name `name`.
    pub(crate) fn with_last_as(&self, name: String) -> (path: FilePath)
        requires
            is_name(name@),
        ensures
            path@ == self@.without_last().child(name@),
    {
        self.without_last().with_name(name)
    }
}

/// Appends the names of `from` at the positions `[start, end)` to `to`.
fn copy_names(from: &Vec<String>, start: usize, end: usize, to: &mut Vec<String>)
    requires
        start <= end <= from.len(),
    ensures
        final(to).deep_view() == old(to).deep_view() + from.deep_view().subrange(
            start as int,
            end as int,
        ),
{
    let mut i: usize = start;
    assert(from.deep_view().subrange(start as int, start as int) =~= Seq::empty());
    assert(to.deep_view() + Seq::<Seq<char>>::empty() =~= to.deep_view());
    while i < end
        invariant
            start <= i <= end <= from.len(),
            to.deep_view() == old(to).deep_view() + from.deep_view().subrange(
                start as int,
                i as int,
            ),
        decreases end - i,
    {
        let ghost before = to.deep_view();
        let name = from[i].clone();
        to.push(name);
        assert(to.deep_view() =~= before.push(name@));
        assert(before.push(name@) =~= old(to).deep_view() + from.deep_view().subrange(
            start as int,
            i + 1,
        ));
        i = i + 1;
    }
}

} // verus!
