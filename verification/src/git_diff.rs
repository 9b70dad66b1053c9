//! What the command-line step counter asks Git, and what it keeps of the
//! answers.
use vstd::prelude::*;
use vstd::string::StringExecFns;

use crate::text::{
    lemma_skip_keeps_out, lemma_trim_keeps_out, join, join_chars, skip_chars, split_lines, starts_with, string_views, text_lines, trim,
    trim_chars,
};

verus! {

/// The arguments of `git log` that list the files changed in `git_rev`,
/// restricted to `author_name` unless that is blank.
pub open spec fn changed_files_args_spec(git_rev: Seq<char>, author_name: Seq<char>) -> Seq<
    Seq<char>,
> {
    let base = seq!["log"@, git_rev, "--name-only"@, "--pretty=format:"@];
    if trim_chars(author_name).len() == 0 {
        base
    } else {
        base + seq!["--author"@, author_name]
    }
}

/// The arguments of `git log` that `get_changed_files` runs.
pub fn changed_files_args(git_rev: &str, author_name: &str) -> (args: Vec<String>)
    ensures
        string_views(args@) == changed_files_args_spec(git_rev@, author_name@),
{
    let mut args: Vec<String> = Vec::new();
    args.push(String::from_str("log"));
    args.push(String::from_str(git_rev));
    args.push(String::from_str("--name-only"));
    args.push(String::from_str("--pretty=format:"));
    if !trim(author_name).is_empty() {
        args.push(String::from_str("--author"));
        args.push(String::from_str(author_name));
    }
    assert(string_views(args@) =~= changed_files_args_spec(git_rev@, author_name@));
    args
}

/// The command as it is shown to the user: `git` followed by the arguments,
/// separated by single spaces.
pub fn command_line(args: &Vec<String>) -> (cmd: String)
    ensures
        cmd@ == "git "@ + join_chars(string_views(args@), " "@),
{
    let joined = join(args, " ");
    String::from_str("git ").concat(joined.as_str())
}

/// The file names among some lines of `git log --name-only` output: each
/// line trimmed, blank lines (which separate commits) left out.
pub open spec fn changed_names(lines: Seq<Seq<char>>) -> Seq<Seq<char>>
    decreases lines.len(),
{
    if lines.len() == 0 {
        Seq::<Seq<char>>::empty()
    } else {
        let prev = changed_names(lines.drop_last());
        let t = trim_chars(lines.last());
        if t.len() > 0 {
            prev.push(t)
        } else {
            prev
        }
    }
}

/// The changed files named in the output of `git log --name-only`, in
/// order: each non-blank line, trimmed.
pub fn get_changed_files(git_output: &str) -> (files: Vec<String>)
    ensures
        string_views(files@) == changed_names(text_lines(git_output@)),
{
    let lines = split_lines(git_output);
    let mut files: Vec<String> = Vec::new();
    let mut i: usize = 0;
    assert(string_views(lines@).take(0) =~= Seq::<Seq<char>>::empty());
    while i < lines.len()
        invariant
            i <= lines.len(),
            string_views(lines@) == text_lines(git_output@),
            string_views(files@) == changed_names(string_views(lines@).take(i as int)),
        decreases lines.len() - i,
    {
        assert(string_views(lines@).take(i + 1).drop_last() =~= string_views(lines@).take(
            i as int,
        ));
        assert(string_views(lines@).take(i + 1).last() == lines@[i as int]@);
        let t = trim(lines[i].as_str());
        if !t.is_empty() {
            let ghost before = string_views(files@);
            files.push(String::from_str(t));
            assert(string_views(files@) =~= before.push(t@));
        }
        i += 1;
    }
    assert(string_views(lines@).take(lines.len() as int) =~= string_views(lines@));
    files
}

/// The arguments of `git diff` that show what `git_rev` changed in `file`.
pub fn added_lines_args(git_rev: &str, file: &str) -> (args: Vec<String>)
    ensures
        string_views(args@) == seq!["diff"@, git_rev@, "--"@, file@],
{
    let mut args: Vec<String> = Vec::new();
    args.push(String::from_str("diff"));
    args.push(String::from_str(git_rev));
    args.push(String::from_str("--"));
    args.push(String::from_str(file));
    assert(string_views(args@) =~= seq!["diff"@, git_rev@, "--"@, file@]);
    args
}

/// A diff line that adds something: it starts with `+` but not with `++`.
pub open spec fn is_addition(line: Seq<char>) -> bool {
    &&& line.len() >= 1
    &&& line[0] == '+'
    &&& !(line.len() >= 2 && line[1] == '+')
}

/// What one diff line contributes: the added text, trimmed, unless that is
/// empty or a `//` comment.
pub open spec fn added_line(line: Seq<char>) -> Option<Seq<char>> {
    if is_addition(line) {
        let t = trim_chars(line.skip(1));
        if t.len() > 0 && !(t.len() >= 2 && t[0] == '/' && t[1] == '/') {
            Some(t)
        } else {
            None
        }
    } else {
        None
    }
}

/// The added lines of a sequence of diff lines, in order.
pub open spec fn added_lines(lines: Seq<Seq<char>>) -> Seq<Seq<char>>
    decreases lines.len(),
{
    if lines.len() == 0 {
        Seq::<Seq<char>>::empty()
    } else {
        let prev = added_lines(lines.drop_last());
        match added_line(lines.last()) {
            Some(t) => prev.push(t),
            None => prev,
        }
    }
}

/// The lines that a diff adds, without blank lines and comment lines, each
/// trimmed.
pub fn get_added_lines(diff_output: &str) -> (kept: Vec<String>)
    ensures
        string_views(kept@) == added_lines(text_lines(diff_output@)),
{
    let lines = split_lines(diff_output);
    let mut kept: Vec<String> = Vec::new();
    let mut i: usize = 0;
    proof {
        reveal_strlit("+");
        reveal_strlit("++");
        reveal_strlit("//");
        assert(string_views(lines@).take(0) =~= Seq::<Seq<char>>::empty());
    }
    while i < lines.len()
        invariant
            i <= lines.len(),
            string_views(lines@) == text_lines(diff_output@),
            "+"@ == seq!['+'],
            "++"@ == seq!['+', '+'],
            "//"@ == seq!['/', '/'],
            string_views(kept@) == added_lines(string_views(lines@).take(i as int)),
        decreases lines.len() - i,
    {
        let line = lines[i].as_str();
        let ghost l = lines@[i as int]@;
        assert(string_views(lines@).take(i + 1).drop_last() =~= string_views(lines@).take(
            i as int,
        ));
        assert(string_views(lines@).take(i + 1).last() == l);
        if starts_with(line, "+") && !starts_with(line, "++") {
            proof {
                assert(l.subrange(0, 1)[0] == l[0]);
                if l.len() >= 2 && l[1] == '+' {
                    assert(seq!['+', '+'] =~= l.subrange(0, 2));
                }
                assert(is_addition(l));
            }
            let rest = skip_chars(line, 1);
            let t = trim(rest.as_str());
            let ghost tv = t@;
            let keep = !t.is_empty() && !starts_with(t, "//");
            proof {
                if tv.len() >= 2 {
                    assert((tv[0] == '/' && tv[1] == '/') <==> seq!['/', '/'] =~= tv.subrange(
                        0,
                        2,
                    ));
                }
            }
            if keep {
                kept.push(String::from_str(t));
            }
        } else {
            proof {
                if l.len() >= 2 && l[0] == '+' && l[1] == '+' {
                    assert(seq!['+', '+'] =~= l.subrange(0, 2));
                }
            }
        }
        i += 1;
    }
    assert(string_views(lines@).take(lines.len() as int) =~= string_views(lines@));
    kept
}

/// A kept line: non-empty, not a `//` comment, without newlines.
pub open spec fn is_kept_text(t: Seq<char>) -> bool {
    &&& t.len() > 0
    &&& !(t.len() >= 2 && t[0] == '/' && t[1] == '/')
    &&& !t.contains('\n')
}

/// Every line kept from a diff is non-empty and no `//` comment, and, where
/// the diff lines hold no newline, holds none either.
pub proof fn lemma_added_lines_are_code(lines: Seq<Seq<char>>)
    requires
        forall|i: int| 0 <= i < lines.len() ==> !(#[trigger] lines[i]).contains('\n'),
    ensures
        forall|i: int| 0 <= i < added_lines(lines).len() ==> is_kept_text(#[trigger] added_lines(lines)[i]),
    decreases lines.len(),
{
    if lines.len() > 0 {
        let init = lines.drop_last();
        assert forall|i: int| 0 <= i < init.len() implies !(#[trigger] init[i]).contains('\n') by {
            assert(init[i] == lines[i]);
        }
        lemma_added_lines_are_code(init);
        let l = lines.last();
        assert(!l.contains('\n')) by {
            assert(lines[lines.len() - 1] == l);
        }
        if is_addition(l) {
            lemma_skip_keeps_out(l, 1, '\n');
            lemma_trim_keeps_out(l.skip(1), '\n');
        }
        let prev = added_lines(init);
        assert forall|i: int| 0 <= i < added_lines(lines).len() implies is_kept_text(
            #[trigger] added_lines(lines)[i],
        ) by {
            if i < prev.len() {
                assert(added_lines(lines)[i] == prev[i]);
            }
        }
    }
}

/// Keeping added lines works line by line: the lines kept from two
/// stretches of a diff read one after the other are those of the first
/// followed by those of the second, so no kept line is ever dropped.
pub proof fn lemma_added_lines_append(a: Seq<Seq<char>>, b: Seq<Seq<char>>)
    ensures
        added_lines(a + b) == added_lines(a) + added_lines(b),
    decreases b.len(),
{
    if b.len() == 0 {
        assert(a + b =~= a);
        assert(added_lines(a) + added_lines(b) =~= added_lines(a));
    } else {
        let b0 = b.drop_last();
        lemma_added_lines_append(a, b0);
        assert((a + b).drop_last() =~= a + b0);
        assert((a + b).last() == b.last());
        match added_line(b.last()) {
            Some(t) => {
                assert((added_lines(a) + added_lines(b0)).push(t) =~= added_lines(a)
                    + added_lines(b0).push(t));
            },
            None => {},
        }
    }
}

/// One diff line alone is kept, trimmed, exactly when it starts with `+`
/// but not `++` and its trimmed text is neither empty nor a `//` comment.
pub proof fn lemma_added_lines_single(l: Seq<char>)
    ensures
        added_lines(seq![l]) == (if l.len() >= 1 && l[0] == '+' && !(l.len() >= 2 && l[1] == '+')
            && trim_chars(l.skip(1)).len() > 0 && !(trim_chars(l.skip(1)).len() >= 2 && trim_chars(
            l.skip(1),
        )[0] == '/' && trim_chars(l.skip(1))[1] == '/') {
            seq![trim_chars(l.skip(1))]
        } else {
            Seq::<Seq<char>>::empty()
        }),
{
    assert(seq![l].drop_last() =~= Seq::<Seq<char>>::empty());
    assert(seq![l].last() == l);
    assert(added_lines(Seq::<Seq<char>>::empty()) == Seq::<Seq<char>>::empty());
    assert(added_lines(seq![l]) == match added_line(l) {
        Some(t) => added_lines(seq![l].drop_last()).push(t),
        None => added_lines(seq![l].drop_last()),
    });
    assert(Seq::<Seq<char>>::empty().push(trim_chars(l.skip(1))) =~= seq![trim_chars(l.skip(1))]);
}

/// The changed files of two stretches of `git log` output read one after
/// the other are those of the first followed by those of the second.
pub proof fn lemma_changed_names_append(a: Seq<Seq<char>>, b: Seq<Seq<char>>)
    ensures
        changed_names(a + b) == changed_names(a) + changed_names(b),
    decreases b.len(),
{
    if b.len() == 0 {
        assert(a + b =~= a);
        assert(changed_names(a) + changed_names(b) =~= changed_names(a));
    } else {
        let b0 = b.drop_last();
        lemma_changed_names_append(a, b0);
        assert((a + b).drop_last() =~= a + b0);
        assert((a + b).last() == b.last());
        let t = trim_chars(b.last());
        assert((changed_names(a) + changed_names(b0)).push(t) =~= changed_names(a)
            + changed_names(b0).push(t));
    }
}

} // verus!
