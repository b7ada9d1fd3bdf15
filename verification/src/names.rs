//! What the names of release files and archive entries tell.

use vstd::prelude::*;
use vstd::string::StrSliceExecFns;
use vstd::string::StringExecFns;

verus! {

/// Whether `text` ends with `suffix`.
pub open spec fn is_suffix(text: Seq<char>, suffix: Seq<char>) -> bool {
    suffix.len() <= text.len() && text.skip(text.len() - suffix.len()) == suffix
}

/// Whether `part` stands somewhere in `text`.
pub open spec fn is_infix(text: Seq<char>, part: Seq<char>) -> bool {
    exists|at: int| occurs_at(text, part, at)
}

/// Whether `part` stands in `text` at the position `at`.
pub open spec fn occurs_at(text: Seq<char>, part: Seq<char>, at: int) -> bool {
    0 <= at && at + part.len() <= text.len() && text.subrange(at, at + part.len()) == part
}

/// What stands behind the last `/` of `name`; all of it where there is none.
pub open spec fn last_segment(name: Seq<char>) -> Seq<char>
    decreases name.len(),
{
    if name.len() == 0 || name.last() == '/' {
        Seq::empty()
    } else {
        last_segment(name.drop_last()).push(name.last())
    }
}

/// What `str::to_lowercase` makes of a string.
pub uninterp spec fn lowercase(text: Seq<char>) -> Seq<char>;

/// `str::to_lowercase`: the string in lower case, as Unicode defines it.
#[verifier::external_body]
fn to_lowercase(text: &str) -> (lower: String)
    ensures
        lower@ == lowercase(text@),
{
    text.to_lowercase()
}

/// Whether `part` stands in `text` at the position `at`.
fn matches_at(text: &str, part: &str, at: usize) -> (found: bool)
    requires
        at + part@.len() <= text@.len() <= usize::MAX,
    ensures
        found == occurs_at(text@, part@, at as int),
{
    let width = part.unicode_len();
    let mut k: usize = 0;
    while k < width
        invariant
            width == part@.len(),
            at + width <= text@.len() <= usize::MAX,
            k <= width,
            forall|j: int| 0 <= j < k ==> text@[at + j] == part@[j],
        decreases width - k,
    {
        if text.get_char(at + k) != part.get_char(k) {
            proof {
                assert(text@.subrange(at as int, at + width)[k as int] != part@[k as int]);
            }
            return false;
        }
        k += 1;
    }
    proof {
        assert(text@.subrange(at as int, at + width) =~= part@);
    }
    true
}

/// Whether `text` ends with `suffix`.
pub fn ends_with(text: &str, suffix: &str) -> (found: bool)
    ensures
        found == is_suffix(text@, suffix@),
{
    let length = text.unicode_len();
    let width = suffix.unicode_len();
    if width > length {
        return false;
    }
    let found = matches_at(text, suffix, length - width);
    proof {
        assert(text@.skip(length - width) =~= text@.subrange(length - width, length as int));
    }
    found
}

/// Whether `part` stands somewhere in `text`.
pub fn contains(text: &str, part: &str) -> (found: bool)
    ensures
        found == is_infix(text@, part@),
{
    let length = text.unicode_len();
    let width = part.unicode_len();
    if width > length {
        return false;
    }
    let last = length - width;
    let mut at: usize = 0;
    loop
        invariant
            length == text@.len(),
            width == part@.len(),
            last == length - width,
            at <= last,
            forall|j: int| 0 <= j < at ==> !occurs_at(text@, part@, j),
        decreases last - at,
    {
        if matches_at(text, part, at) {
            return true;
        }
        if at == last {
            return false;
        }
        at += 1;
    }
}

/// Whether the name, whatever its case, speaks of the dataset.
pub open spec fn names_dataset(name: Seq<char>) -> bool {
    is_infix(lowercase(name), "c3e6"@)
}

/// Whether `name` is that of a database that, whatever its case, speaks of
/// the dataset.
pub fn is_named_dataset(name: &str) -> (found: bool)
    ensures
        found == names_dataset(name@),
{
    let lower = to_lowercase(name);
    contains(lower.as_str(), "c3e6")
}

/// The name of the file that an archive entry stands for: what is behind the
/// last `/` of the entry's name.
pub fn entry_file_name(name: &str) -> (file: String)
    ensures
        file@ == last_segment(name@),
{
    let length = name.unicode_len();
    let mut from: usize = length;
    proof {
        assert(name@.take(from as int) =~= name@);
        assert(last_segment(name@) + name@.skip(from as int) =~= last_segment(name@));
    }
    while from > 0 && name.get_char(from - 1) != '/'
        invariant
            length == name@.len(),
            from <= length,
            last_segment(name@) == last_segment(name@.take(from as int)) + name@.skip(from as int),
        decreases from,
    {
        proof {
            let head = name@.take(from as int);
            assert(head.drop_last() == name@.take(from - 1));
            assert(last_segment(head) == last_segment(name@.take(from - 1)).push(head.last()));
            assert(seq![head.last()] + name@.skip(from as int) =~= name@.skip(from - 1));
            assert(last_segment(name@.take(from - 1)).push(head.last()) + name@.skip(from as int)
                =~= last_segment(name@.take(from - 1)) + name@.skip(from - 1));
        }
        from -= 1;
    }
    proof {
        assert(last_segment(name@.take(from as int)) == Seq::<char>::empty());
        assert(name@.skip(from as int) =~= name@.subrange(from as int, length as int));
    }
    String::from_str(name.substring_char(from, length))
}

} // verus!
