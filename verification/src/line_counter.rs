//! Counting the lines of the saved files: the step count.
use vstd::prelude::*;

use crate::git_diff::{added_lines, lemma_added_lines_are_code};
use crate::text::{
    join_chars, lemma_line_count_of_join, lemma_lines_have_no_newline, line_count, line_count_of,
    string_views, text_lines,
};

verus! {

/// The lines of all the given texts, together.
pub open spec fn total_lines(texts: Seq<Seq<char>>) -> nat
    decreases texts.len(),
{
    if texts.len() == 0 {
        0
    } else {
        total_lines(texts.drop_last()) + line_count_of(texts.last())
    }
}

/// The total number of lines of the given file contents, as counting each
/// file with `BufRead::lines` gives it; `None` if that total does not fit
/// in a `usize`.
pub fn count_lines(contents: &Vec<String>) -> (total: Option<usize>)
    ensures
        total matches Some(n) ==> n == total_lines(string_views(contents@)),
        total is None <==> total_lines(string_views(contents@)) > usize::MAX,
{
    let mut sum: usize = 0;
    let mut i: usize = 0;
    assert(string_views(contents@).take(0) =~= Seq::<Seq<char>>::empty());
    while i < contents.len()
        invariant
            i <= contents.len(),
            sum == total_lines(string_views(contents@).take(i as int)),
        decreases contents.len() - i,
    {
        let n: usize = line_count(contents[i].as_str());
        assert(string_views(contents@).take(i + 1).drop_last() =~= string_views(contents@).take(
            i as int,
        ));
        assert(string_views(contents@).take(i + 1).last() == contents@[i as int]@);
        if n > usize::MAX - sum {
            proof {
                lemma_total_lines_monotone(string_views(contents@), i + 1);
                assert(string_views(contents@).take(contents.len() as int) =~= string_views(
                    contents@,
                ));
            }
            return None;
        }
        sum = sum + n;
        i += 1;
    }
    assert(string_views(contents@).take(contents.len() as int) =~= string_views(contents@));
    Some(sum)
}

/// Counting more texts never gives fewer lines.
pub proof fn lemma_total_lines_monotone(texts: Seq<Seq<char>>, k: int)
    requires
        0 <= k <= texts.len(),
    ensures
        total_lines(texts.take(k)) <= total_lines(texts),
    decreases texts.len() - k,
{
    if k < texts.len() {
        lemma_total_lines_monotone(texts, k + 1);
        assert(texts.take(k + 1).drop_last() =~= texts.take(k));
    } else {
        assert(texts.take(k) =~= texts);
    }
}

/// The step count of a file of added lines is the number of lines that
/// were added: saving the lines that `get_added_lines` keeps from a diff,
/// joined by newlines as `filter_and_save` does, gives a text whose line
/// count, as `count_lines` takes it, is exactly how many lines were kept.
pub proof fn lemma_saved_lines_are_counted(diff: Seq<char>)
    ensures
        line_count_of(join_chars(added_lines(text_lines(diff)), "\n"@)) == added_lines(
            text_lines(diff),
        ).len(),
{
    reveal_strlit("\n");
    assert("\n"@ =~= seq!['\n']);
    lemma_lines_have_no_newline(diff);
    lemma_added_lines_are_code(text_lines(diff));
    lemma_line_count_of_join(added_lines(text_lines(diff)));
}

/// The step count is additive: the lines of two groups of files together
/// are the lines of the first group plus those of the second (so the same
/// contents saved twice count twice).
pub proof fn lemma_total_lines_append(a: Seq<Seq<char>>, b: Seq<Seq<char>>)
    ensures
        total_lines(a + b) == total_lines(a) + total_lines(b),
    decreases b.len(),
{
    if b.len() == 0 {
        assert(a + b =~= a);
    } else {
        let b0 = b.drop_last();
        lemma_total_lines_append(a, b0);
        assert((a + b).drop_last() =~= a + b0);
        assert((a + b).last() == b.last());
    }
}

/// One file counts its own lines.
pub proof fn lemma_total_lines_single(t: Seq<char>)
    ensures
        total_lines(seq![t]) == line_count_of(t),
{
    assert(seq![t].drop_last() =~= Seq::<Seq<char>>::empty());
    assert(seq![t].last() == t);
    assert(total_lines(Seq::<Seq<char>>::empty()) == 0);
    assert(total_lines(seq![t]) == total_lines(seq![t].drop_last()) + line_count_of(seq![t].last()));
}

} // verus!
