//! Finding the source of an exam: which files are exam sources, and which
//! of those listed a line of the user picks.

use crate::input::{count_of, parse_count};
use crate::order::ints;
use crate::text::chars_of;
use crate::text_set::texts;
use vstd::prelude::*;

verus! {

/// Why no source was picked. The user is asked again.
#[derive(Clone, Copy, PartialEq, Eq, Structural, Debug, Hash)]
pub enum SelectionError {
    /// There is no exam source to pick from.
    NoExamFiles,
    /// The line is not the number of a listed source.
    OutOfRange,
}

/// What came of creating the directory that exam sources are kept in.
#[derive(Clone, Copy, PartialEq, Eq, Structural, Debug, Hash)]
pub enum DirectoryOutcome {
    Created,
    AlreadyExists,
    Failed,
}

/// Whether the directory can be used: it can where it has just been made
/// and where it was there already.
pub fn directory_usable(outcome: DirectoryOutcome) -> (usable: bool)
    ensures
        usable == !(outcome is Failed),
{
    match outcome {
        DirectoryOutcome::Created => true,
        DirectoryOutcome::AlreadyExists => true,
        DirectoryOutcome::Failed => false,
    }
}

/// Whether a file of this name is an exam source: its name ends in `.json`,
/// in small letters, and has something before that.
pub open spec fn names_exam_source(name: Seq<char>) -> bool {
    name.len() > 5 && name.skip(name.len() - 5) == seq!['.', 'j', 's', 'o', 'n']
}

/// Whether a file of this name is an exam source.
pub fn is_exam_source(name: &str) -> (source: bool)
    ensures
        source == names_exam_source(name@),
{
    let chars = chars_of(name);
    let n = chars.len();
    if n <= 5 {
        return false;
    }
    let source = chars[n - 5] == '.' && chars[n - 4] == 'j' && chars[n - 3] == 's' && chars[n
        - 2] == 'o' && chars[n - 1] == 'n';
    assert(source ==> name@.skip(n - 5) =~= seq!['.', 'j', 's', 'o', 'n']);
    source
}

/// The positions of the exam sources among the first `n` of `names`, in
/// order.
pub open spec fn sources_up_to(names: Seq<Seq<char>>, n: int) -> Seq<int>
    decreases n,
{
    if n <= 0 {
        Seq::empty()
    } else if names_exam_source(names[n - 1]) {
        sources_up_to(names, n - 1).push(n - 1)
    } else {
        sources_up_to(names, n - 1)
    }
}

/// The positions of the exam sources among `names`, in order.
pub open spec fn sources_among(names: Seq<Seq<char>>) -> Seq<int> {
    sources_up_to(names, names.len() as int)
}

/// The listing of the first `n` names holds the positions of the exam
/// sources among them, each once, in increasing order.
proof fn lemma_sources_up_to(names: Seq<Seq<char>>, n: int)
    requires
        0 <= n <= names.len(),
    ensures
        forall|k: int|
            0 <= k < sources_up_to(names, n).len() ==> 0 <= #[trigger] sources_up_to(names, n)[k]
                < n && names_exam_source(names[sources_up_to(names, n)[k]]),
        forall|j: int, k: int|
            0 <= j < k < sources_up_to(names, n).len() ==> sources_up_to(names, n)[j]
                < sources_up_to(names, n)[k],
        forall|i: int|
            0 <= i < n && names_exam_source(names[i]) ==> sources_up_to(names, n).contains(i),
    decreases n,
{
    if n > 0 {
        lemma_sources_up_to(names, n - 1);
        let before = sources_up_to(names, n - 1);
        let now = sources_up_to(names, n);
        assert forall|i: int| 0 <= i < n && names_exam_source(names[i]) implies now.contains(
            i,
        ) by {
            if i < n - 1 {
                assert(before.contains(i));
                let k = choose|k: int| 0 <= k < before.len() && before[k] == i;
                assert(now[k] == i);
            } else {
                assert(now[now.len() - 1] == i);
            }
        }
    }
}

/// A listing holds every exam source of the directory once, and nothing
/// else, in the order of the directory. So each number that a source is
/// shown under stands for that source only.
pub proof fn lemma_sources_among(names: Seq<Seq<char>>)
    ensures
        forall|k: int|
            0 <= k < sources_among(names).len() ==> 0 <= #[trigger] sources_among(names)[k]
                < names.len() && names_exam_source(names[sources_among(names)[k]]),
        forall|j: int, k: int|
            0 <= j < k < sources_among(names).len() ==> sources_among(names)[j] < sources_among(
                names,
            )[k],
        forall|i: int|
            0 <= i < names.len() && names_exam_source(names[i]) ==> sources_among(names).contains(
                i,
            ),
{
    lemma_sources_up_to(names, names.len() as int);
}

/// Lists the exam sources among the files of a directory: the positions of
/// their names in `names`, in order. The source listed at position `k` is
/// shown to the user under the number `k + 1`.
pub fn exam_sources(names: &Vec<String>) -> (listed: Vec<usize>)
    ensures
        ints(listed@) == sources_among(texts(names@)),
{
    let mut listed: Vec<usize> = Vec::new();
    let mut i: usize = 0;
    while i < names.len()
        invariant
            i <= names.len(),
            ints(listed@) == sources_up_to(texts(names@), i as int),
        decreases names.len() - i,
    {
        if is_exam_source(names[i].as_str()) {
            listed.push(i);
        }
        i += 1;
    }
    listed
}

/// The position in a listing of `listed` sources that a line picks: the
/// line is the number that the source is shown under, counted from one.
pub open spec fn source_picked(line: Seq<char>, listed: nat) -> Result<int, SelectionError> {
    if listed == 0 {
        Err(SelectionError::NoExamFiles)
    } else {
        match count_of(line) {
            Some(number) if number <= listed => Ok(number - 1),
            _ => Err(SelectionError::OutOfRange),
        }
    }
}

/// Reads the number of the source that the user picks from a listing.
pub fn choose_source(line: &str, listed: usize) -> (picked: Result<usize, SelectionError>)
    ensures
        match picked {
            Ok(position) => source_picked(line@, listed as nat) == Ok::<int, SelectionError>(
                position as int,
            ),
            Err(e) => source_picked(line@, listed as nat) == Err::<int, SelectionError>(e),
        },
{
    if listed == 0 {
        return Err(SelectionError::NoExamFiles);
    }
    match parse_count(line) {
        Ok(number) => {
            if number <= listed {
                Ok(number - 1)
            } else {
                Err(SelectionError::OutOfRange)
            }
        },
        Err(_) => Err(SelectionError::OutOfRange),
    }
}

/// Whether a source of a listing is left to try, where `failed` says of each
/// listed source whether loading it has failed. When none is left, no exam
/// can be loaded.
pub fn source_left(failed: &Vec<bool>) -> (left: bool)
    ensures
        left == exists|i: int| 0 <= i < failed@.len() && !failed@[i],
{
    let mut i: usize = 0;
    while i < failed.len()
        invariant
            i <= failed.len(),
            forall|j: int| 0 <= j < i ==> failed@[j],
        decreases failed.len() - i,
    {
        if !failed[i] {
            return true;
        }
        i += 1;
    }
    false
}

} // verus!
