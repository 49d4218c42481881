//! Text as it comes from an input field.

use vstd::prelude::*;
use vstd::string::*;

verus! {

/// Whether `c` is white space: one of the characters that Unicode lists as such.
pub open spec fn is_space(c: char) -> bool {
    let n = c as u32;
    ||| 0x9 <= n <= 0xD
    ||| n == 0x20
    ||| n == 0x85
    ||| n == 0xA0
    ||| n == 0x1680
    ||| 0x2000 <= n <= 0x200A
    ||| n == 0x2028
    ||| n == 0x2029
    ||| n == 0x202F
    ||| n == 0x205F
    ||| n == 0x3000
}

/// How many characters of white space `text` starts with.
pub open spec fn space_prefix(text: Seq<char>) -> nat
    decreases text.len(),
{
    if text.len() == 0 || !is_space(text[0]) {
        0
    } else {
        1 + space_prefix(text.skip(1))
    }
}

/// How many characters of white space `text` ends with.
pub open spec fn space_suffix(text: Seq<char>) -> nat
    decreases text.len(),
{
    if text.len() == 0 || !is_space(text.last()) {
        0
    } else {
        1 + space_suffix(text.drop_last())
    }
}

/// `text` without the white space at its start and at its end.
pub open spec fn trimmed(text: Seq<char>) -> Seq<char> {
    let rest = text.skip(space_prefix(text) as int);
    rest.take(rest.len() - space_suffix(rest))
}

/// White space that starts the text and ends before a character that is none,
/// or at the end of the text, is all the white space the text starts with.
pub proof fn lemma_space_prefix_is(text: Seq<char>, k: int)
    requires
        0 <= k <= text.len(),
        forall|i: int| 0 <= i < k ==> is_space(text[i]),
        k == text.len() || !is_space(text[k]),
    ensures
        space_prefix(text) == k,
    decreases k,
{
    if k > 0 {
        let rest = text.skip(1);
        assert forall|i: int| 0 <= i < k - 1 implies is_space(rest[i]) by {
            assert(rest[i] == text[i + 1]);
        }
        lemma_space_prefix_is(rest, k - 1);
    }
}

/// White space that ends the text and starts behind a character that is none,
/// or at the start of the text, is all the white space the text ends with.
pub proof fn lemma_space_suffix_is(text: Seq<char>, k: int)
    requires
        0 <= k <= text.len(),
        forall|i: int| text.len() - k <= i < text.len() ==> is_space(text[i]),
        k == text.len() || !is_space(text[text.len() - k - 1]),
    ensures
        space_suffix(text) == k,
    decreases k,
{
    if k > 0 {
        let front = text.drop_last();
        assert forall|i: int| front.len() - (k - 1) <= i < front.len() implies is_space(
            front[i],
        ) by {
            assert(front[i] == text[i]);
        }
        lemma_space_suffix_is(front, k - 1);
    }
}

/// Whether `c` is white space.
pub fn is_whitespace(c: char) -> (yes: bool)
    ensures
        yes == is_space(c),
{
    let n = c as u32;
    (0x9 <= n && n <= 0xD) || n == 0x20 || n == 0x85 || n == 0xA0 || n == 0x1680 || (0x2000 <= n
        && n <= 0x200A) || n == 0x2028 || n == 0x2029 || n == 0x202F || n == 0x205F || n
        == 0x3000
}

/// Takes the white space off both ends of `text`.
pub fn trim(text: &str) -> (inner: String)
    ensures
        inner@ == trimmed(text@),
{
    let n = text.unicode_len();
    // where the first character stands that is no white space, if there is one,
    // and where the last one ends
    let mut start: Option<usize> = None;
    let mut end: usize = 0;
    let mut i: usize = 0;
    for c in it: text.chars()
        invariant
            it.seq() == text@,
            n == text@.len(),
            i == it.index(),
            start is None ==> end == 0 && forall|j: int| 0 <= j < i ==> is_space(text@[j]),
            start matches Some(a) ==> {
                &&& a < end <= i
                &&& forall|j: int| 0 <= j < a ==> is_space(text@[j])
                &&& !is_space(text@[a as int])
                &&& !is_space(text@[end - 1])
                &&& forall|j: int| end <= j < i ==> is_space(text@[j])
            },
    {
        if !is_whitespace(c) {
            if start.is_none() {
                start = Some(i);
            }
            end = i + 1;
        }
        i = i + 1;
    }
    match start {
        None => {
            proof {
                lemma_space_prefix_is(text@, n as int);
                assert(text@.skip(n as int) =~= Seq::empty());
                assert(trimmed(text@) =~= Seq::empty());
            }
            String::new()
        },
        Some(a) => {
            proof {
                lemma_space_prefix_is(text@, a as int);
                let rest = text@.skip(a as int);
                assert forall|j: int| rest.len() - (n - end) <= j < rest.len() implies is_space(
                    rest[j],
                ) by {
                    assert(rest[j] == text@[j + a]);
                }
                assert(rest[rest.len() - (n - end) - 1] == text@[end - 1]);
                lemma_space_suffix_is(rest, n - end);
                assert(rest.take(rest.len() - (n - end)) =~= text@.subrange(a as int, end as int));
            }
            String::from_str(text.substring_char(a, end))
        },
    }
}

} // verus!
