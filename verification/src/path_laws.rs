//! What holds of paths: of the names in a text, of what two paths share, and
//! of reading a path back from its text.

use vstd::prelude::*;

use crate::number::decimal;
use crate::path::{
    all_names, common_len, is_name, joined, name_len, parse_path, split_names, PathView,
};

verus! {

/// The prefix without separator is never longer than the text.
pub proof fn lemma_name_len_bounds(text: Seq<char>)
    ensures
        name_len(text) <= text.len(),
        text.len() > 0 && text[0] != '/' ==> name_len(text) > 0,
    decreases text.len(),
{
    if text.len() > 0 && text[0] != '/' {
        lemma_name_len_bounds(text.skip(1));
    }
}

/// A prefix without separator that ends at a separator, or at the end of the
/// text, is the longest one.
pub proof fn lemma_name_len_is(text: Seq<char>, k: int)
    requires
        0 <= k <= text.len(),
        forall|i: int| 0 <= i < k ==> text[i] != '/',
        k == text.len() || text[k] == '/',
    ensures
        name_len(text) == k,
    decreases k,
{
    if k > 0 {
        let rest = text.skip(1);
        assert forall|i: int| 0 <= i < k - 1 implies rest[i] != '/' by {
            assert(rest[i] == text[i + 1]);
        }
        lemma_name_len_is(rest, k - 1);
    }
}

/// Characters other than the separator that start at `from` and end before a
/// separator at `to`, or at the end of the text, are the first name of the
/// text from `from` on, and the names that follow are those of the text from
/// `to` on.
pub proof fn lemma_name_between(text: Seq<char>, from: int, to: int)
    requires
        0 <= from < to <= text.len(),
        forall|j: int| from <= j < to ==> text[j] != '/',
        to == text.len() || text[to] == '/',
    ensures
        is_name(text.subrange(from, to)),
        split_names(text.skip(from)) == seq![text.subrange(from, to)] + split_names(
            text.skip(to),
        ),
{
    let rest = text.skip(from);
    assert forall|j: int| 0 <= j < to - from implies rest[j] != '/' by {
        assert(rest[j] == text[from + j]);
    }
    if to < text.len() {
        assert(rest[to - from] == text[to]);
    }
    lemma_name_len_is(rest, to - from);
    assert(rest[0] == text[from]);
    assert(rest.take(to - from) =~= text.subrange(from, to));
    assert(rest.skip(to - from) =~= text.skip(to));
    assert forall|j: int| 0 <= j < to - from implies text.subrange(from, to)[j] != '/' by {
        assert(text.subrange(from, to)[j] == text[from + j]);
    }
}

/// The longest prefix without separator holds no separator.
pub proof fn lemma_name_prefix_clean(text: Seq<char>)
    ensures
        forall|i: int| 0 <= i < name_len(text) ==> text[i] != '/',
    decreases text.len(),
{
    if text.len() > 0 && text[0] != '/' {
        let rest = text.skip(1);
        lemma_name_prefix_clean(rest);
        lemma_name_len_bounds(rest);
        assert forall|i: int| 0 <= i < name_len(text) implies text[i] != '/' by {
            if i > 0 {
                assert(rest[i - 1] == text[i]);
            }
        }
    }
}

/// The longest prefix without separator ends at a separator or at the end of the text.
pub proof fn lemma_name_len_ends(text: Seq<char>)
    ensures
        name_len(text) < text.len() ==> text[name_len(text) as int] == '/',
    decreases text.len(),
{
    if text.len() > 0 && text[0] != '/' {
        let rest = text.skip(1);
        lemma_name_len_ends(rest);
        lemma_name_len_bounds(rest);
        if name_len(text) < text.len() {
            assert(rest[name_len(rest) as int] == text[name_len(text) as int]);
        }
    }
}

/// The names that leading names have in common are found by comparing them one by one.
pub proof fn lemma_common_len_is(a: Seq<Seq<char>>, b: Seq<Seq<char>>, k: int)
    requires
        0 <= k <= a.len(),
        k <= b.len(),
        forall|i: int| 0 <= i < k ==> a[i] == b[i],
        k == a.len() || k == b.len() || a[k] != b[k],
    ensures
        common_len(a, b) == k,
    decreases k,
{
    if k > 0 {
        let a1 = a.skip(1);
        let b1 = b.skip(1);
        assert forall|i: int| 0 <= i < k - 1 implies a1[i] == b1[i] by {
            assert(a1[i] == a[i + 1]);
            assert(b1[i] == b[i + 1]);
        }
        lemma_common_len_is(a1, b1, k - 1);
    }
}

/// What two lists of names have in common is a prefix of both.
pub proof fn lemma_common_len_bounds(a: Seq<Seq<char>>, b: Seq<Seq<char>>)
    ensures
        common_len(a, b) <= a.len(),
        common_len(a, b) <= b.len(),
        a.take(common_len(a, b) as int) == b.take(common_len(a, b) as int),
        common_len(a, b) < a.len() && common_len(a, b) < b.len() ==> a[common_len(a, b) as int]
            != b[common_len(a, b) as int],
    decreases a.len(),
{
    if a.len() == 0 || b.len() == 0 || a[0] != b[0] {
        assert(a.take(0) =~= b.take(0));
    } else {
        let a1 = a.skip(1);
        let b1 = b.skip(1);
        lemma_common_len_bounds(a1, b1);
        let k = common_len(a1, b1) as int;
        assert(a.take(k + 1) =~= seq![a[0]] + a1.take(k));
        assert(b.take(k + 1) =~= seq![b[0]] + b1.take(k));
        if k < a1.len() && k < b1.len() {
            assert(a1[k] == a[k + 1]);
            assert(b1[k] == b[k + 1]);
        }
    }
}

/// Names stay names when two lists of them are put together.
pub proof fn lemma_all_names_concat(a: Seq<Seq<char>>, b: Seq<Seq<char>>)
    requires
        all_names(a),
        all_names(b),
    ensures
        all_names(a + b),
{
    assert forall|i: int| 0 <= i < (a + b).len() implies is_name(#[trigger] (a + b)[i]) by {
        if i < a.len() {
            assert((a + b)[i] == a[i]);
        } else {
            assert((a + b)[i] == b[i - a.len()]);
        }
    }
}

/// Names stay names when some of them are left out at either end.
pub proof fn lemma_all_names_subrange(a: Seq<Seq<char>>, from: int, to: int)
    requires
        all_names(a),
        0 <= from <= to <= a.len(),
    ensures
        all_names(a.subrange(from, to)),
{
    assert forall|i: int| 0 <= i < to - from implies is_name(#[trigger] a.subrange(from, to)[i]) by {
        assert(a.subrange(from, to)[i] == a[from + i]);
    }
}

/// The decimal text of a number is a name.
pub proof fn lemma_decimal_is_name(n: nat)
    ensures
        is_name(decimal(n)),
    decreases n,
{
    if n >= 10 {
        lemma_decimal_is_name(n / 10);
    }
}

/// The names of a text are names.
pub proof fn lemma_split_names_wf(text: Seq<char>)
    ensures
        parse_path(text).wf(),
    decreases text.len(),
{
    if text.len() == 0 {
    } else if text[0] == '/' {
        lemma_split_names_wf(text.skip(1));
    } else {
        lemma_name_len_bounds(text);
        let k = name_len(text) as int;
        lemma_name_prefix_clean(text);
        lemma_split_names_wf(text.skip(k));
        assert(is_name(text.take(k)));
        lemma_all_names_concat(seq![text.take(k)], split_names(text.skip(k)));
    }
}

/// A name at the start of a text, followed by nothing or by a separator, is
/// the first name of the text.
pub proof fn lemma_split_first_name(name: Seq<char>, rest: Seq<char>)
    requires
        is_name(name),
        rest.len() == 0 || rest[0] == '/',
    ensures
        split_names(name + rest) == seq![name] + split_names(rest),
{
    let text = name + rest;
    assert forall|i: int| 0 <= i < name.len() implies text[i] != '/' by {
        assert(text[i] == name[i]);
    }
    if rest.len() > 0 {
        assert(text[name.len() as int] == rest[0]);
    }
    lemma_name_len_is(text, name.len() as int);
    assert(text[0] == name[0]);
    assert(text.take(name.len() as int) =~= name);
    assert(text.skip(name.len() as int) =~= rest);
}

/// A separator and a name at the end of a text add that name to the names
/// of the text.
pub proof fn lemma_split_last_name(text: Seq<char>, name: Seq<char>)
    requires
        is_name(name),
    ensures
        split_names(text + seq!['/'] + name) == split_names(text).push(name),
    decreases text.len(),
{
    let tail = seq!['/'] + name;
    let whole = text + seq!['/'] + name;
    assert(whole =~= text + tail);
    if text.len() == 0 {
        assert(whole =~= tail);
        assert(tail.skip(1) =~= name);
        assert(name + Seq::<char>::empty() =~= name);
        lemma_split_first_name(name, Seq::empty());
        assert(split_names(Seq::<char>::empty()) =~= Seq::empty());
        assert(seq![name] + Seq::<Seq<char>>::empty() =~= Seq::<Seq<char>>::empty().push(name));
    } else if text[0] == '/' {
        assert(whole[0] == text[0]);
        assert(whole.skip(1) =~= text.skip(1) + seq!['/'] + name);
        lemma_split_last_name(text.skip(1), name);
    } else {
        lemma_name_len_bounds(text);
        lemma_name_prefix_clean(text);
        let k = name_len(text) as int;
        assert(whole[0] == text[0]);
        assert forall|i: int| 0 <= i < k implies whole[i] != '/' by {
            assert(whole[i] == text[i]);
        }
        if k < text.len() {
            lemma_name_len_ends(text);
            assert(whole[k] == text[k]);
        } else {
            assert(whole[k] == tail[0]);
        }
        lemma_name_len_is(whole, k);
        assert(whole.take(k) =~= text.take(k));
        assert(whole.skip(k) =~= text.skip(k) + seq!['/'] + name);
        lemma_split_last_name(text.skip(k), name);
        assert((seq![text.take(k)] + split_names(text.skip(k))).push(name) =~= seq![
            text.take(k),
        ] + split_names(text.skip(k)).push(name));
    }
}

/// Names written with separators between them start with the first of them.
pub proof fn lemma_joined_starts_with_name(names: Seq<Seq<char>>)
    requires
        all_names(names),
        names.len() > 0,
    ensures
        joined(names).len() > 0,
        joined(names)[0] == names[0][0],
    decreases names.len(),
{
    assert(is_name(names[0]));
    if names.len() > 1 {
        let front = names.drop_last();
        lemma_all_names_subrange(names, 0, names.len() - 1);
        lemma_joined_starts_with_name(front);
        assert(front[0] == names[0]);
    }
}

/// Names that are written with separators between them are read as they were written.
pub proof fn lemma_split_joined(names: Seq<Seq<char>>)
    requires
        all_names(names),
    ensures
        split_names(joined(names)) == names,
    decreases names.len(),
{
    if names.len() == 0 {
        assert(split_names(Seq::<char>::empty()) =~= names);
    } else if names.len() == 1 {
        assert(is_name(names[0]));
        lemma_split_first_name(names[0], Seq::empty());
        assert(names[0] + Seq::<char>::empty() =~= names[0]);
        assert(seq![names[0]] + split_names(Seq::<char>::empty()) =~= names);
    } else {
        let front = names.drop_last();
        lemma_all_names_subrange(names, 0, names.len() - 1);
        lemma_split_joined(front);
        assert(is_name(names[names.len() - 1]));
        lemma_split_last_name(joined(front), names.last());
        assert(front.push(names.last()) =~= names);
    }
}

/// The text of a path is read as that path.
pub proof fn lemma_parse_text(path: PathView)
    requires
        path.wf(),
    ensures
        parse_path(path.text()) == path,
{
    lemma_split_joined(path.names);
    let text = path.text();
    if path.rooted {
        assert(text[0] == '/');
        assert(text.skip(1) =~= joined(path.names));
    } else if path.names.len() > 0 {
        lemma_joined_starts_with_name(path.names);
    }
}

} // verus!
