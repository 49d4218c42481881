//! Names of files: where a name divides into stem and extension.

use vstd::prelude::*;
use vstd::string::*;

use crate::path::is_name;

verus! {

/// The position of the last dot in `name`, or -1 where it holds none.
pub open spec fn last_dot(name: Seq<char>) -> int
    decreases name.len(),
{
    if name.len() == 0 {
        -1
    } else if name.last() == '.' {
        name.len() - 1
    } else {
        last_dot(name.drop_last())
    }
}

/// Whether `name` divides into a stem and an extension. It divides at its last
/// dot, unless it starts with that dot, holds none, or is the name `..`.
pub open spec fn divides(name: Seq<char>) -> bool {
    last_dot(name) > 0 && name != seq!['.', '.']
}

/// The stem of a name: what stands before the dot at which it divides, or the
/// whole name where it does not divide.
pub open spec fn stem_of(name: Seq<char>) -> Seq<char> {
    if divides(name) {
        name.take(last_dot(name))
    } else {
        name
    }
}

/// The extension of a name: what stands behind the dot at which it divides.
pub open spec fn extension_of(name: Seq<char>) -> Option<Seq<char>> {
    if divides(name) {
        Some(name.skip(last_dot(name) + 1))
    } else {
        None
    }
}

/// The last dot of a name lies inside the name, and no dot follows it.
pub proof fn lemma_last_dot(name: Seq<char>)
    ensures
        -1 <= last_dot(name) < name.len(),
        last_dot(name) >= 0 ==> name[last_dot(name)] == '.',
        forall|i: int| last_dot(name) < i < name.len() ==> name[i] != '.',
    decreases name.len(),
{
    if name.len() > 0 && name.last() != '.' {
        let front = name.drop_last();
        lemma_last_dot(front);
        assert forall|i: int| last_dot(name) < i < name.len() implies name[i] != '.' by {
            if i < front.len() {
                assert(front[i] == name[i]);
            }
        }
        if last_dot(name) >= 0 {
            assert(front[last_dot(name)] == name[last_dot(name)]);
        }
    }
}

/// The stem of a name is a name.
pub proof fn lemma_stem_is_name(name: Seq<char>)
    requires
        is_name(name),
    ensures
        is_name(stem_of(name)),
{
    lemma_last_dot(name);
}

/// Finds the last dot of `name`.
fn find_last_dot(name: &str) -> (at: Option<usize>)
    ensures
        at matches Some(i) ==> last_dot(name@) == i,
        at is None ==> last_dot(name@) == -1,
{
    let n = name.unicode_len();
    let mut at: Option<usize> = None;
    let mut i: usize = 0;
    assert(name@.take(0) =~= Seq::empty());
    for c in it: name.chars()
        invariant
            it.seq() == name@,
            n == name@.len(),
            i == it.index(),
            at matches Some(k) ==> last_dot(name@.take(i as int)) == k,
            at is None ==> last_dot(name@.take(i as int)) == -1,
    {
        proof {
            let next = name@.take(i + 1);
            assert(next.drop_last() =~= name@.take(i as int));
            assert(next.last() == name@[i as int]);
        }
        if c == '.' {
            at = Some(i);
        }
        i = i + 1;
    }
    assert(name@.take(n as int) =~= name@);
    at
}

/// Where `name` divides into stem and extension, if it does.
fn dividing_dot(name: &str) -> (at: Option<usize>)
    ensures
        at.is_some() == divides(name@),
        at matches Some(i) ==> last_dot(name@) == i && 0 < i < name@.len(),
{
    proof {
        lemma_last_dot(name@);
    }
    match find_last_dot(name) {
        None => None,
        Some(i) => {
            if i == 0 {
                None
            } else if name.unicode_len() == 2 && name.get_char(0) == '.' {
                assert(name@ =~= seq!['.', '.']);
                None
            } else {
                assert(name@ != seq!['.', '.']) by {
                    if name@ == seq!['.', '.'] {
                        assert(seq!['.', '.'].len() == 2);
                        assert(seq!['.', '.'][0] == '.');
                    }
                }
                Some(i)
            }
        },
    }
}

/// The stem of a name.
pub fn name_stem(name: &str) -> (stem: String)
    ensures
        stem@ == stem_of(name@),
{
    match dividing_dot(name) {
        None => String::from_str(name),
        Some(i) => {
            assert(name@.subrange(0, i as int) =~= name@.take(i as int));
            String::from_str(name.substring_char(0, i))
        },
    }
}

/// The extension of a name, where it has one.
pub fn name_extension(name: &str) -> (extension: Option<String>)
    ensures
        extension.is_some() == extension_of(name@).is_some(),
        extension matches Some(e) ==> extension_of(name@) == Some(e@),
{
    match dividing_dot(name) {
        None => None,
        Some(i) => {
            let n = name.unicode_len();
            assert(name@.subrange(i + 1, n as int) =~= name@.skip(i + 1));
            Some(String::from_str(name.substring_char(i + 1, n)))
        },
    }
}



} // verus!
