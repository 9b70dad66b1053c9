//! Character-level text handling: splitting into lines, trimming, prefixes,
//! suffixes and joining, each stated over the `Seq<char>` view of a string.
use vstd::prelude::*;
use vstd::string::{StrSliceExecFns, StringExecFns};

verus! {

// ---------------------------------------------------------------------------
// Specifications
// ---------------------------------------------------------------------------
/// The pieces of `s` between the `'\n'` characters, in order.  There is
/// always at least one piece: the text after the last `'\n'` (possibly empty).
pub open spec fn newline_segments(s: Seq<char>) -> Seq<Seq<char>>
    decreases s.len(),
{
    if s.len() == 0 {
        seq![Seq::<char>::empty()]
    } else {
        let prev = newline_segments(s.drop_last());
        if s.last() == '\n' {
            prev.push(Seq::<char>::empty())
        } else {
            prev.update(prev.len() - 1, prev.last().push(s.last()))
        }
    }
}

/// A line that was ended by `"\r\n"` loses its `'\r'`.
pub open spec fn strip_cr(line: Seq<char>) -> Seq<char> {
    if line.len() > 0 && line.last() == '\r' {
        line.drop_last()
    } else {
        line
    }
}

/// The lines of a text: split at `'\n'` or `"\r\n"`, terminators not
/// included, the final line ending optional.  An empty text has no lines.
pub open spec fn text_lines(s: Seq<char>) -> Seq<Seq<char>> {
    let segs = newline_segments(s);
    let ended = segs.take(segs.len() - 1).map_values(|seg: Seq<char>| strip_cr(seg));
    if segs.last().len() == 0 {
        ended
    } else {
        ended.push(segs.last())
    }
}

/// The number of lines of a text.
pub open spec fn line_count_of(s: Seq<char>) -> nat {
    text_lines(s).len()
}

/// Whether `c` has the Unicode `White_Space` property (PropList.txt), which
/// is what `str::trim` and `char::is_whitespace` go by: the controls U+0009
/// to U+000D, space, U+0085, no-break space, U+1680, U+2000 to U+200A, the
/// line and paragraph separators, U+202F, U+205F and U+3000.
pub open spec fn is_white_space(c: char) -> bool {
    ||| '\u{9}' <= c <= '\u{D}'
    ||| c == ' '
    ||| c == '\u{85}'
    ||| c == '\u{A0}'
    ||| c == '\u{1680}'
    ||| '\u{2000}' <= c <= '\u{200A}'
    ||| c == '\u{2028}'
    ||| c == '\u{2029}'
    ||| c == '\u{202F}'
    ||| c == '\u{205F}'
    ||| c == '\u{3000}'
}

/// `s` without its leading white space.
pub open spec fn trim_start_chars(s: Seq<char>) -> Seq<char>
    decreases s.len(),
{
    if s.len() > 0 && is_white_space(s[0]) {
        trim_start_chars(s.drop_first())
    } else {
        s
    }
}

/// `s` without its trailing white space.
pub open spec fn trim_end_chars(s: Seq<char>) -> Seq<char>
    decreases s.len(),
{
    if s.len() > 0 && is_white_space(s.last()) {
        trim_end_chars(s.drop_last())
    } else {
        s
    }
}

/// `s` without leading and trailing white space.
pub open spec fn trim_chars(s: Seq<char>) -> Seq<char> {
    trim_end_chars(trim_start_chars(s))
}

/// `pieces` joined, with `sep` between each two neighbours.
pub open spec fn join_chars(pieces: Seq<Seq<char>>, sep: Seq<char>) -> Seq<char>
    decreases pieces.len(),
{
    if pieces.len() == 0 {
        Seq::<char>::empty()
    } else if pieces.len() == 1 {
        pieces[0]
    } else {
        join_chars(pieces.drop_last(), sep) + sep + pieces.last()
    }
}

/// The views of a vector of strings.
pub open spec fn string_views(v: Seq<String>) -> Seq<Seq<char>> {
    v.map_values(|s: String| s@)
}

// ---------------------------------------------------------------------------
// Lemmas
// ---------------------------------------------------------------------------
pub proof fn lemma_segments_nonempty(s: Seq<char>)
    ensures
        newline_segments(s).len() >= 1,
    decreases s.len(),
{
    if s.len() > 0 {
        lemma_segments_nonempty(s.drop_last());
    }
}

/// No piece between newlines holds a newline.
pub proof fn lemma_segments_have_no_newline(s: Seq<char>)
    ensures
        forall|i: int|
            0 <= i < newline_segments(s).len() ==> !(#[trigger] newline_segments(s)[i]).contains(
                '\n',
            ),
    decreases s.len(),
{
    lemma_segments_nonempty(s);
    if s.len() > 0 {
        lemma_segments_nonempty(s.drop_last());
        lemma_segments_have_no_newline(s.drop_last());
        let prev = newline_segments(s.drop_last());
        if s.last() != '\n' {
            assert forall|i: int| 0 <= i < newline_segments(s).len() implies !(
            #[trigger] newline_segments(s)[i]).contains('\n') by {
                if i == prev.len() - 1 {
                    let seg = prev.last().push(s.last());
                    assert(newline_segments(s)[i] == seg);
                    if seg.contains('\n') {
                        let k = choose|k: int| 0 <= k < seg.len() && seg[k] == '\n';
                        if k < prev.last().len() {
                            assert(prev.last()[k] == '\n');
                        }
                    }
                }
            }
        }
    }
}

/// No line of a text holds a newline.
pub proof fn lemma_lines_have_no_newline(s: Seq<char>)
    ensures
        forall|i: int|
            0 <= i < text_lines(s).len() ==> !(#[trigger] text_lines(s)[i]).contains('\n'),
{
    lemma_segments_nonempty(s);
    lemma_segments_have_no_newline(s);
    let segs = newline_segments(s);
    assert forall|i: int| 0 <= i < text_lines(s).len() implies !(
    #[trigger] text_lines(s)[i]).contains('\n') by {
        let seg = segs[i];
        assert(!seg.contains('\n'));
        if i < segs.len() - 1 {
            assert(text_lines(s)[i] == strip_cr(seg));
            if strip_cr(seg).contains('\n') {
                let k = choose|k: int| 0 <= k < strip_cr(seg).len() && strip_cr(seg)[k] == '\n';
                assert(seg[k] == '\n');
            }
        } else {
            assert(text_lines(s)[i] == segs.last());
        }
    }
}

/// Appending text without newlines extends the last piece.
pub proof fn lemma_segments_append_plain(s: Seq<char>, t: Seq<char>)
    requires
        !t.contains('\n'),
    ensures
        newline_segments(s + t) == newline_segments(s).update(
            newline_segments(s).len() - 1,
            newline_segments(s).last() + t,
        ),
    decreases t.len(),
{
    lemma_segments_nonempty(s);
    if t.len() == 0 {
        assert(s + t =~= s);
        assert(newline_segments(s).last() + t =~= newline_segments(s).last());
        assert(newline_segments(s).update(newline_segments(s).len() - 1, newline_segments(s).last())
            =~= newline_segments(s));
    } else {
        let t0 = t.drop_last();
        assert(!t0.contains('\n')) by {
            if t0.contains('\n') {
                let k = choose|k: int| 0 <= k < t0.len() && t0[k] == '\n';
                assert(t[k] == '\n');
            }
        }
        assert(t.last() != '\n') by {
            assert(t[t.len() - 1] == t.last());
        }
        lemma_segments_append_plain(s, t0);
        assert((s + t).drop_last() =~= s + t0);
        assert((s + t).last() == t.last());
        lemma_segments_nonempty(s + t0);
        assert(newline_segments(s).last() + t0 + seq![t.last()] =~= newline_segments(s).last()
            + t);
        let segs = newline_segments(s);
        let prev = newline_segments(s + t0);
        assert(prev.len() == segs.len());
        assert(prev.last() == segs.last() + t0);
        assert(prev.last().push(t.last()) =~= segs.last() + t);
        assert(newline_segments(s + t) == prev.update(prev.len() - 1, prev.last().push(t.last())));
        assert(newline_segments(s + t) =~= newline_segments(s).update(
            newline_segments(s).len() - 1,
            newline_segments(s).last() + t,
        ));
    }
}

/// Appending a newline starts a new, empty piece.
pub proof fn lemma_segments_append_newline(s: Seq<char>)
    ensures
        newline_segments(s.push('\n')) == newline_segments(s).push(Seq::<char>::empty()),
{
    assert(s.push('\n').drop_last() =~= s);
}

/// The pieces between the newlines of newline-free pieces joined by `"\n"`
/// are those pieces.
pub proof fn lemma_segments_of_join(pieces: Seq<Seq<char>>)
    requires
        pieces.len() >= 1,
        forall|i: int| 0 <= i < pieces.len() ==> !(#[trigger] pieces[i]).contains('\n'),
    ensures
        newline_segments(join_chars(pieces, seq!['\n'])) == pieces,
    decreases pieces.len(),
{
    if pieces.len() == 1 {
        lemma_segments_append_plain(Seq::<char>::empty(), pieces[0]);
        assert(Seq::<char>::empty() + pieces[0] =~= pieces[0]);
        assert(newline_segments(Seq::<char>::empty()) =~= seq![Seq::<char>::empty()]);
        assert(Seq::<char>::empty() + pieces[0] =~= pieces[0]);
        assert(newline_segments(pieces[0]) =~= pieces);
    } else {
        let init = pieces.drop_last();
        assert forall|i: int| 0 <= i < init.len() implies !(#[trigger] init[i]).contains('\n') by {
            assert(init[i] == pieces[i]);
        }
        lemma_segments_of_join(init);
        let j = join_chars(init, seq!['\n']);
        assert(j + seq!['\n'] =~= j.push('\n'));
        lemma_segments_append_newline(j);
        assert(!pieces.last().contains('\n')) by {
            assert(pieces[pieces.len() - 1] == pieces.last());
        }
        lemma_segments_append_plain(j.push('\n'), pieces.last());
        assert(Seq::<char>::empty() + pieces.last() =~= pieces.last());
        assert(newline_segments(join_chars(pieces, seq!['\n'])) =~= pieces);
    }
}

/// Newline-free, non-empty pieces joined by `"\n"` make a text of exactly
/// that many lines.
pub proof fn lemma_line_count_of_join(pieces: Seq<Seq<char>>)
    requires
        forall|i: int|
            0 <= i < pieces.len() ==> !(#[trigger] pieces[i]).contains('\n') && pieces[i].len()
                > 0,
    ensures
        line_count_of(join_chars(pieces, seq!['\n'])) == pieces.len(),
{
    if pieces.len() == 0 {
        assert(newline_segments(Seq::<char>::empty()) =~= seq![Seq::<char>::empty()]);
        assert(text_lines(Seq::<char>::empty()).len() == 0);
    } else {
        lemma_segments_of_join(pieces);
        assert(pieces[pieces.len() - 1] == pieces.last());
    }
}

/// Trimming never brings in a character that was not there.
pub proof fn lemma_trim_keeps_out(s: Seq<char>, c: char)
    requires
        !s.contains(c),
    ensures
        !trim_chars(s).contains(c),
{
    lemma_trim_start_keeps_out(s, c);
    lemma_trim_end_keeps_out(trim_start_chars(s), c);
}

proof fn lemma_trim_start_keeps_out(s: Seq<char>, c: char)
    requires
        !s.contains(c),
    ensures
        !trim_start_chars(s).contains(c),
    decreases s.len(),
{
    if s.len() > 0 && is_white_space(s[0]) {
        assert(!s.drop_first().contains(c)) by {
            if s.drop_first().contains(c) {
                let k = choose|k: int| 0 <= k < s.drop_first().len() && s.drop_first()[k] == c;
                assert(s[k + 1] == c);
            }
        }
        lemma_trim_start_keeps_out(s.drop_first(), c);
    }
}

proof fn lemma_trim_end_keeps_out(s: Seq<char>, c: char)
    requires
        !s.contains(c),
    ensures
        !trim_end_chars(s).contains(c),
    decreases s.len(),
{
    if s.len() > 0 && is_white_space(s.last()) {
        assert(!s.drop_last().contains(c)) by {
            if s.drop_last().contains(c) {
                let k = choose|k: int| 0 <= k < s.drop_last().len() && s.drop_last()[k] == c;
                assert(s[k] == c);
            }
        }
        lemma_trim_end_keeps_out(s.drop_last(), c);
    }
}

/// A newline-free text stays newline-free when its start is cut off.
pub proof fn lemma_skip_keeps_out(s: Seq<char>, n: int, c: char)
    requires
        !s.contains(c),
        0 <= n <= s.len(),
    ensures
        !s.skip(n).contains(c),
{
    if s.skip(n).contains(c) {
        let k = choose|k: int| 0 <= k < s.skip(n).len() && s.skip(n)[k] == c;
        assert(s[k + n] == c);
    }
}

// ---------------------------------------------------------------------------
// Trusted calls into std that vstd does not specify
// ---------------------------------------------------------------------------
/// Calls `String::push`, which appends one character.
#[verifier::external_body]
fn push_char(s: &mut String, c: char)
    ensures
        final(s)@ == old(s)@.push(c),
{
    s.push(c);
}

// ---------------------------------------------------------------------------
// Executable helpers
// ---------------------------------------------------------------------------
/// The characters of a string.
pub fn chars_of(s: &str) -> (v: Vec<char>)
    ensures
        v@ == s@,
{
    let mut v: Vec<char> = Vec::new();
    for c in it: s.chars()
        invariant
            v@ == it.seq().take(it.index() as int),
            it.seq() == s@,
    {
        v.push(c);
    }
    v
}

/// A string made of `v[lo..hi]`.
pub fn string_from(v: &Vec<char>, lo: usize, hi: usize) -> (s: String)
    requires
        lo <= hi <= v.len(),
    ensures
        s@ == v@.subrange(lo as int, hi as int),
{
    let mut s = String::new();
    let mut i = lo;
    while i < hi
        invariant
            lo <= i <= hi <= v.len(),
            s@ == v@.subrange(lo as int, i as int),
        decreases hi - i,
    {
        push_char(&mut s, v[i]);
        i += 1;
    }
    s
}


/// Splits a text into its lines, as `str::lines` does.
pub fn split_lines(text: &str) -> (lines: Vec<String>)
    ensures
        string_views(lines@) == text_lines(text@),
{
    let v = chars_of(text);
    let mut lines: Vec<String> = Vec::new();
    let mut start: usize = 0;
    let mut i: usize = 0;
    proof {
        assert(v@.take(0) =~= Seq::<char>::empty());
    }
    while i < v.len()
        invariant
            start <= i <= v.len(),
            v@ == text@,
            newline_segments(v@.take(i as int)).len() == lines.len() + 1,
            forall|k: int|
                0 <= k < lines.len() ==> (#[trigger] lines@[k])@ == strip_cr(
                    newline_segments(v@.take(i as int))[k],
                ),
            newline_segments(v@.take(i as int)).last() == v@.subrange(start as int, i as int),
        decreases v.len() - i,
    {
        let ghost old_segs = newline_segments(v@.take(i as int));
        assert(v@.take(i + 1).drop_last() =~= v@.take(i as int));
        assert(v@.take(i + 1).last() == v@[i as int]);
        if v[i] == '\n' {
            let hi: usize = if i > start && v[i - 1] == '\r' {
                i - 1
            } else {
                i
            };
            let line = string_from(&v, start, hi);
            proof {
                let seg = v@.subrange(start as int, i as int);
                if i > start && v@[i - 1] == '\r' {
                    assert(seg.drop_last() =~= v@.subrange(start as int, hi as int));
                } else {
                    assert(seg =~= v@.subrange(start as int, hi as int));
                }
                assert(line@ == strip_cr(old_segs.last()));
            }
            lines.push(line);
            start = i + 1;
            i = i + 1;
            proof {
                assert(v@.subrange(start as int, i as int) =~= Seq::<char>::empty());
            }
        } else {
            i = i + 1;
            proof {
                assert(v@.subrange(start as int, i as int) =~= v@.subrange(
                    start as int,
                    i - 1,
                ).push(v@[i - 1]));
            }
        }
    }
    assert(v@.take(v.len() as int) =~= v@);
    if start < v.len() {
        let last = string_from(&v, start, v.len());
        lines.push(last);
    }
    proof {
        assert(string_views(lines@) =~= text_lines(text@));
    }
    lines
}

/// The number of lines of a text: what `BufRead::lines().count()` gives.
pub fn line_count(text: &str) -> (n: usize)
    ensures
        n == line_count_of(text@),
{
    let v = chars_of(text);
    let mut ended: usize = 0;
    let mut start: usize = 0;
    let mut i: usize = 0;
    proof {
        assert(v@.take(0) =~= Seq::<char>::empty());
    }
    while i < v.len()
        invariant
            start <= i <= v.len(),
            v@ == text@,
            ended <= start,
            newline_segments(v@.take(i as int)).len() == ended + 1,
            newline_segments(v@.take(i as int)).last().len() == i - start,
        decreases v.len() - i,
    {
        assert(v@.take(i + 1).drop_last() =~= v@.take(i as int));
        assert(v@.take(i + 1).last() == v@[i as int]);
        if v[i] == '\n' {
            ended = ended + 1;
            start = i + 1;
        }
        i = i + 1;
    }
    assert(v@.take(v.len() as int) =~= v@);
    if start < v.len() {
        ended + 1
    } else {
        ended
    }
}

/// Whether `prefix` is a prefix of `s`.
pub fn starts_with(s: &str, prefix: &str) -> (b: bool)
    ensures
        b == prefix@.is_prefix_of(s@),
{
    let sv = chars_of(s);
    let pv = chars_of(prefix);
    if pv.len() > sv.len() {
        return false;
    }
    let mut i: usize = 0;
    while i < pv.len()
        invariant
            i <= pv.len() <= sv.len(),
            sv@ == s@,
            pv@ == prefix@,
            forall|k: int| 0 <= k < i ==> sv@[k] == pv@[k],
        decreases pv.len() - i,
    {
        if sv[i] != pv[i] {
            return false;
        }
        i += 1;
    }
    assert(pv@ =~= sv@.subrange(0, pv@.len() as int));
    true
}

/// Whether `suffix` is a suffix of `s`.
pub fn ends_with(s: &str, suffix: &str) -> (b: bool)
    ensures
        b == suffix@.is_suffix_of(s@),
{
    let sv = chars_of(s);
    let pv = chars_of(suffix);
    if pv.len() > sv.len() {
        return false;
    }
    let off: usize = sv.len() - pv.len();
    let mut i: usize = 0;
    while i < pv.len()
        invariant
            i <= pv.len() <= sv.len(),
            off == sv.len() - pv.len(),
            sv@ == s@,
            pv@ == suffix@,
            forall|k: int| 0 <= k < i ==> sv@[off + k] == pv@[k],
        decreases pv.len() - i,
    {
        if sv[off + i] != pv[i] {
            proof {
                let t = sv@.subrange(off as int, sv@.len() as int);
                assert(t[i as int] != pv@[i as int]);
            }
            return false;
        }
        i += 1;
    }
    assert(pv@ =~= sv@.subrange(off as int, sv@.len() as int));
    true
}

/// The characters of `s` from position `from` on.
pub fn skip_chars(s: &str, from: usize) -> (res: String)
    requires
        from <= s@.len(),
    ensures
        res@ == s@.skip(from as int),
{
    let v = chars_of(s);
    let r = string_from(&v, from, v.len());
    assert(v@.subrange(from as int, v@.len() as int) =~= s@.skip(from as int));
    r
}

/// `pieces` joined with `sep` between each two neighbours, as `[String]::join`.
pub fn join(pieces: &Vec<String>, sep: &str) -> (res: String)
    ensures
        res@ == join_chars(string_views(pieces@), sep@),
{
    let mut res = String::new();
    let mut i: usize = 0;
    while i < pieces.len()
        invariant
            i <= pieces.len(),
            res@ == join_chars(string_views(pieces@.take(i as int)), sep@),
        decreases pieces.len() - i,
    {
        let ghost before = string_views(pieces@.take(i as int));
        assert(string_views(pieces@.take(i + 1)).drop_last() =~= before);
        if i > 0 {
            res.append(sep);
        }
        res.append(pieces[i].as_str());
        i += 1;
        proof {
            let now = string_views(pieces@.take(i as int));
            assert(now.last() == pieces@[i - 1]@);
            if i == 1 {
                assert(res@ =~= now[0]);
            }
        }
    }
    assert(pieces@.take(pieces.len() as int) =~= pieces@);
    res
}

/// Whether `c` has the Unicode `White_Space` property.
pub fn is_white_space_char(c: char) -> (b: bool)
    ensures
        b == is_white_space(c),
{
    let u: u32 = c as u32;
    (0x9 <= u && u <= 0xD) || u == 0x20 || u == 0x85 || u == 0xA0 || u == 0x1680 || (0x2000 <= u
        && u <= 0x200A) || u == 0x2028 || u == 0x2029 || u == 0x202F || u == 0x205F || u == 0x3000
}

/// `s` without leading and trailing white space, as `str::trim` gives it.
pub fn trim(s: &str) -> (res: &str)
    ensures
        res@ == trim_chars(s@),
{
    let v = chars_of(s);
    let mut lo: usize = 0;
    assert(v@.skip(0) =~= v@);
    while lo < v.len() && is_white_space_char(v[lo])
        invariant
            lo <= v.len(),
            v@ == s@,
            trim_start_chars(v@) == trim_start_chars(v@.skip(lo as int)),
        decreases v.len() - lo,
    {
        assert(v@.skip(lo as int)[0] == v@[lo as int]);
        assert(v@.skip(lo as int).drop_first() =~= v@.skip(lo + 1));
        lo += 1;
    }
    proof {
        if lo < v.len() {
            assert(v@.skip(lo as int)[0] == v@[lo as int]);
        }
    }
    assert(trim_start_chars(v@) == v@.skip(lo as int));
    let mut hi: usize = v.len();
    assert(v@.subrange(lo as int, hi as int) =~= v@.skip(lo as int));
    while hi > lo && is_white_space_char(v[hi - 1])
        invariant
            lo <= hi <= v.len(),
            v@ == s@,
            trim_start_chars(v@) == v@.skip(lo as int),
            trim_chars(v@) == trim_end_chars(v@.subrange(lo as int, hi as int)),
        decreases hi - lo,
    {
        assert(v@.subrange(lo as int, hi as int).last() == v@[hi - 1]);
        assert(v@.subrange(lo as int, hi as int).drop_last() =~= v@.subrange(
            lo as int,
            hi - 1,
        ));
        hi -= 1;
    }
    proof {
        if hi > lo {
            assert(v@.subrange(lo as int, hi as int).last() == v@[hi - 1]);
        }
    }
    s.substring_char(lo, hi)
}

} // verus!
