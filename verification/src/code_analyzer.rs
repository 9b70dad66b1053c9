//! Reducing a unified diff to the code lines it adds: the filter behind the
//! desktop step counter.
use vstd::prelude::*;
use vstd::string::StringExecFns;

use crate::pattern::compile;
use crate::text::{
    lemma_skip_keeps_out, lemma_trim_keeps_out,
    skip_chars, split_lines, starts_with, string_views, text_lines, trim, trim_chars,
};

verus! {

/// A diff line that adds something: it starts with `+`, but not with the
/// `+++` of a file header.
pub open spec fn is_added_line(line: Seq<char>) -> bool {
    &&& line.len() >= 1
    &&& line[0] == '+'
    &&& !(line.len() >= 3 && line[1] == '+' && line[2] == '+')
}

/// A line comment: it starts with `//`.
pub open spec fn is_comment(t: Seq<char>) -> bool {
    t.len() >= 2 && t[0] == '/' && t[1] == '/'
}

/// A line that holds nothing but `{`, `}` or `};`.
pub open spec fn is_lone_brace(t: Seq<char>) -> bool {
    ||| t == seq!['{']
    ||| t == seq!['}']
    ||| t == seq!['}', ';']
}

/// What one diff line contributes to the count: the added text without the
/// `+` and without surrounding white space, unless that is empty, a comment
/// or a lone brace.
pub open spec fn code_line(line: Seq<char>) -> Option<Seq<char>> {
    if is_added_line(line) {
        let t = trim_chars(line.skip(1));
        if t.len() > 0 && !is_comment(t) && !is_lone_brace(t) {
            Some(t)
        } else {
            None
        }
    } else {
        None
    }
}

/// The code lines of a sequence of diff lines, in order.
pub open spec fn code_lines(lines: Seq<Seq<char>>) -> Seq<Seq<char>>
    decreases lines.len(),
{
    if lines.len() == 0 {
        Seq::<Seq<char>>::empty()
    } else {
        let prev = code_lines(lines.drop_last());
        match code_line(lines.last()) {
            Some(t) => prev.push(t),
            None => prev,
        }
    }
}

/// The lines of `content` (a diff) that count as added code, each trimmed:
/// what the step counter writes to its temporary file.
pub fn filter_lines(content: &str) -> (kept: Vec<String>)
    ensures
        string_views(kept@) == code_lines(text_lines(content@)),
{
    let comment = compile("^//").unwrap();
    let bracket = compile("^(\\{|\\}|};)$").unwrap();
    let lines = split_lines(content);
    let mut kept: Vec<String> = Vec::new();
    let mut i: usize = 0;
    proof {
        reveal_strlit("+");
        reveal_strlit("+++");
        reveal_strlit("//");
        reveal_strlit("{");
        reveal_strlit("}");
        reveal_strlit("};");
        assert(string_views(lines@).take(0) =~= Seq::<Seq<char>>::empty());
    }
    while i < lines.len()
        invariant
            i <= lines.len(),
            string_views(lines@) == text_lines(content@),
            comment.source() == "^//"@,
            bracket.source() == "^(\\{|\\}|};)$"@,
            "+"@ == seq!['+'],
            "+++"@ == seq!['+', '+', '+'],
            "//"@ == seq!['/', '/'],
            "{"@ == seq!['{'],
            "}"@ == seq!['}'],
            "};"@ == seq!['}', ';'],
            string_views(kept@) == code_lines(string_views(lines@).take(i as int)),
        decreases lines.len() - i,
    {
        let line = lines[i].as_str();
        let ghost l = lines@[i as int]@;
        assert(string_views(lines@).take(i + 1).drop_last() =~= string_views(lines@).take(
            i as int,
        ));
        assert(string_views(lines@).take(i + 1).last() == l);
        if starts_with(line, "+") && !starts_with(line, "+++") {
            proof {
                assert(l.subrange(0, 1)[0] == l[0]);
                if l.len() >= 3 && l[1] == '+' && l[2] == '+' {
                    assert(seq!['+', '+', '+'] =~= l.subrange(0, 3));
                }
                assert(is_added_line(l));
            }
            let rest = skip_chars(line, 1);
            let t = trim(rest.as_str());
            let ghost tv = t@;
            assert(tv == trim_chars(l.skip(1)));
            let keep = !t.is_empty() && !comment.is_match(t) && !bracket.is_match(t);
            proof {
                if tv.len() >= 2 {
                    assert(is_comment(tv) <==> seq!['/', '/'] =~= tv.subrange(0, 2));
                }
                assert(keep <==> (tv.len() > 0 && !is_comment(tv) && !is_lone_brace(tv)));
            }
            if keep {
                kept.push(String::from_str(t));
            }
        } else {
            proof {
                if l.len() >= 3 && l[0] == '+' && l[1] == '+' && l[2] == '+' {
                    assert(seq!['+', '+', '+'] =~= l.subrange(0, 3));
                }
            }
        }
        i += 1;
    }
    assert(string_views(lines@).take(lines.len() as int) =~= string_views(lines@));
    kept
}

/// A counted line: non-empty, no `//` comment, no lone brace, without
/// newlines.
pub open spec fn is_code(t: Seq<char>) -> bool {
    &&& t.len() > 0
    &&& !is_comment(t)
    &&& !is_lone_brace(t)
    &&& !t.contains('\n')
}

/// Every line kept for counting is non-empty, no `//` comment and no lone
/// brace, and, where the diff lines hold no newline, holds none either.
pub proof fn lemma_code_lines_are_code(lines: Seq<Seq<char>>)
    requires
        forall|i: int| 0 <= i < lines.len() ==> !(#[trigger] lines[i]).contains('\n'),
    ensures
        forall|i: int| 0 <= i < code_lines(lines).len() ==> is_code(#[trigger] code_lines(lines)[i]),
    decreases lines.len(),
{
    if lines.len() > 0 {
        let init = lines.drop_last();
        assert forall|i: int| 0 <= i < init.len() implies !(#[trigger] init[i]).contains('\n') by {
            assert(init[i] == lines[i]);
        }
        lemma_code_lines_are_code(init);
        let l = lines.last();
        assert(!l.contains('\n')) by {
            assert(lines[lines.len() - 1] == l);
        }
        if is_added_line(l) {
            lemma_skip_keeps_out(l, 1, '\n');
            lemma_trim_keeps_out(l.skip(1), '\n');
        }
        let prev = code_lines(init);
        assert forall|i: int| 0 <= i < code_lines(lines).len() implies is_code(
            #[trigger] code_lines(lines)[i],
        ) by {
            if i < prev.len() {
                assert(code_lines(lines)[i] == prev[i]);
            }
        }
    }
}

/// Filtering works line by line: the code lines of two stretches of a diff
/// read one after the other are those of the first followed by those of
/// the second.  A header or any other line never removes what was kept.
pub proof fn lemma_code_lines_append(a: Seq<Seq<char>>, b: Seq<Seq<char>>)
    ensures
        code_lines(a + b) == code_lines(a) + code_lines(b),
    decreases b.len(),
{
    if b.len() == 0 {
        assert(a + b =~= a);
        assert(code_lines(a) + code_lines(b) =~= code_lines(a));
    } else {
        let b0 = b.drop_last();
        lemma_code_lines_append(a, b0);
        assert((a + b).drop_last() =~= a + b0);
        assert((a + b).last() == b.last());
        match code_line(b.last()) {
            Some(t) => {
                assert((code_lines(a) + code_lines(b0)).push(t) =~= code_lines(a) + code_lines(
                    b0,
                ).push(t));
            },
            None => {},
        }
    }
}

/// One diff line alone gives its trimmed added text exactly when that is a
/// counted line, and nothing otherwise.
pub proof fn lemma_code_lines_single(l: Seq<char>)
    ensures
        code_lines(seq![l]) == (if l.len() >= 1 && l[0] == '+' && !(l.len() >= 3 && l[1] == '+'
            && l[2] == '+') && is_code_text(trim_chars(l.skip(1))) {
            seq![trim_chars(l.skip(1))]
        } else {
            Seq::<Seq<char>>::empty()
        }),
{
    assert(seq![l].drop_last() =~= Seq::<Seq<char>>::empty());
    assert(seq![l].last() == l);
    assert(code_lines(Seq::<Seq<char>>::empty()) == Seq::<Seq<char>>::empty());
    assert(code_lines(seq![l]) == match code_line(l) {
        Some(t) => code_lines(seq![l].drop_last()).push(t),
        None => code_lines(seq![l].drop_last()),
    });
    assert(Seq::<Seq<char>>::empty().push(trim_chars(l.skip(1))) =~= seq![trim_chars(l.skip(1))]);
}

/// A text that is counted when added: non-empty, not a `//` comment, not a
/// lone brace.
pub open spec fn is_code_text(t: Seq<char>) -> bool {
    &&& t.len() > 0
    &&& !(t.len() >= 2 && t[0] == '/' && t[1] == '/')
    &&& t != seq!['{']
    &&& t != seq!['}']
    &&& t != seq!['}', ';']
}

} // verus!
