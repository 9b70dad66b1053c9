//! Reading `git diff` output for the files to count: the desktop step
//! counter copies each changed file whose extension is configured and whose
//! name is not excluded.
use vstd::prelude::*;
use vstd::string::StringExecFns;

use crate::config::Config;
use crate::path::{extension, file_name, opt_view, path_extension, file_name_spec};
use crate::text::{
    ends_with, skip_chars, split_lines, starts_with, string_views, text_lines, trim, trim_chars,
};

verus! {

/// `+++ b/`, which starts the line naming a file in `git diff` output.
pub open spec fn header_prefix() -> Seq<char> {
    seq!['+', '+', '+', ' ', 'b', '/']
}

/// The file that a diff header line names, trimmed.
pub open spec fn header_path(line: Seq<char>) -> Option<Seq<char>> {
    if header_prefix().is_prefix_of(line) {
        Some(trim_chars(line.skip(6)))
    } else {
        None
    }
}

/// Whether some entry of `endings` ends `name`.
pub open spec fn has_excluded_ending(name: Seq<char>, endings: Seq<Seq<char>>) -> bool {
    exists|k: int| 0 <= k < endings.len() && (#[trigger] endings[k]).is_suffix_of(name)
}

/// Whether the file at `path` is counted: its extension is one of
/// `extensions` and no entry of `exclusions` ends its name.
pub open spec fn counted_file(path: Seq<char>, extensions: Seq<Seq<char>>, exclusions: Seq<Seq<char>>) -> bool {
    let name = match file_name_spec(path) {
        Some(n) => n,
        None => Seq::<char>::empty(),
    };
    &&& path_extension(path) is Some
    &&& extensions.contains(path_extension(path)->0)
    &&& !has_excluded_ending(name, exclusions)
}

/// Reading diff lines in order: the file named by the latest header, and
/// the copies made so far (source path and file name).  Every line after a
/// header that is not itself a header copies the current file once more,
/// if that file is counted.
pub open spec fn copy_scan(
    lines: Seq<Seq<char>>,
    extensions: Seq<Seq<char>>,
    exclusions: Seq<Seq<char>>,
) -> (Option<Seq<char>>, Seq<(Seq<char>, Seq<char>)>)
    decreases lines.len(),
{
    if lines.len() == 0 {
        (None, Seq::empty())
    } else {
        let (current, copies) = copy_scan(lines.drop_last(), extensions, exclusions);
        match header_path(lines.last()) {
            Some(p) => (Some(p), copies),
            None => match current {
                Some(p) => if counted_file(p, extensions, exclusions) {
                    (current, copies.push((p, file_name_spec(p)->0)))
                } else {
                    (current, copies)
                },
                None => (current, copies),
            },
        }
    }
}

/// One copy of a changed file into the count directory.
pub struct CopyTask {
    /// The changed file, as the diff names it.
    pub source: String,
    /// Its file name, under which it is copied.
    pub file_name: String,
}

/// The views of copy tasks.
pub open spec fn copy_views(tasks: Seq<CopyTask>) -> Seq<(Seq<char>, Seq<char>)> {
    tasks.map_values(|t: CopyTask| (t.source@, t.file_name@))
}

/// Whether `v` holds a string equal to `s`.
pub fn contains_string(v: &Vec<String>, s: &String) -> (b: bool)
    ensures
        b == string_views(v@).contains(s@),
{
    let mut i: usize = 0;
    while i < v.len()
        invariant
            i <= v.len(),
            forall|k: int| 0 <= k < i ==> v@[k]@ != s@,
        decreases v.len() - i,
    {
        if v[i] == *s {
            assert(string_views(v@)[i as int] == s@);
            return true;
        }
        i += 1;
    }
    assert forall|k: int| 0 <= k < string_views(v@).len() implies string_views(v@)[k] != s@ by {
        assert(string_views(v@)[k] == v@[k]@);
    }
    false
}

/// Whether some entry of `endings` ends `name`.
pub fn has_ending_in(name: &str, endings: &Vec<String>) -> (b: bool)
    ensures
        b == has_excluded_ending(name@, string_views(endings@)),
{
    let mut i: usize = 0;
    while i < endings.len()
        invariant
            i <= endings.len(),
            forall|k: int| 0 <= k < i ==> !endings@[k]@.is_suffix_of(name@),
        decreases endings.len() - i,
    {
        if ends_with(name, endings[i].as_str()) {
            assert(string_views(endings@)[i as int] == endings@[i as int]@);
            return true;
        }
        i += 1;
    }
    assert forall|k: int| 0 <= k < string_views(endings@).len() implies !(
    #[trigger] string_views(endings@)[k]).is_suffix_of(name@) by {
        assert(string_views(endings@)[k] == endings@[k]@);
    }
    false
}

/// Whether the file at `path` is counted under `config`.
pub fn is_counted_file(path: &str, config: &Config) -> (b: bool)
    ensures
        b == counted_file(path@, config.extensions(), config.exclusions()),
{
    let mut is_excluded = match extension(path) {
        Some(ext) => !contains_string(&config.included_extensions, &ext),
        None => true,
    };
    let name = match file_name(path) {
        Some(n) => n,
        None => String::new(),
    };
    if has_ending_in(name.as_str(), &config.exclude_files) {
        is_excluded = true;
    }
    !is_excluded
}

/// The copies that the desktop step counter makes while reading
/// `diff_output` (the output of `git diff -U0`), in order.
pub fn create_temp_files(diff_output: &str, config: &Config) -> (tasks: Vec<CopyTask>)
    ensures
        copy_views(tasks@) == copy_scan(
            text_lines(diff_output@),
            config.extensions(),
            config.exclusions(),
        ).1,
{
    let lines = split_lines(diff_output);
    let mut current: Option<String> = None;
    let mut tasks: Vec<CopyTask> = Vec::new();
    let mut i: usize = 0;
    proof {
        reveal_strlit("+++ b/");
        assert(string_views(lines@).take(0) =~= Seq::<Seq<char>>::empty());
    }
    while i < lines.len()
        invariant
            i <= lines.len(),
            string_views(lines@) == text_lines(diff_output@),
            "+++ b/"@ == header_prefix(),
            opt_view(current) == copy_scan(
                string_views(lines@).take(i as int),
                config.extensions(),
                config.exclusions(),
            ).0,
            copy_views(tasks@) == copy_scan(
                string_views(lines@).take(i as int),
                config.extensions(),
                config.exclusions(),
            ).1,
        decreases lines.len() - i,
    {
        let line = lines[i].as_str();
        assert(string_views(lines@).take(i + 1).drop_last() =~= string_views(lines@).take(
            i as int,
        ));
        assert(string_views(lines@).take(i + 1).last() == line@);
        if starts_with(line, "+++ b/") {
            let rest = skip_chars(line, 6);
            let path = trim(rest.as_str());
            current = Some(String::from_str(path));
        } else {
            match &current {
                Some(p) => {
                    if is_counted_file(p.as_str(), config) {
                        let name = file_name(p.as_str()).unwrap();
                        let ghost before = copy_views(tasks@);
                        tasks.push(CopyTask { source: p.clone(), file_name: name });
                        assert(copy_views(tasks@) =~= before.push((p@, file_name_spec(p@)->0)));
                    }
                },
                None => {},
            }
        }
        i += 1;
    }
    assert(string_views(lines@).take(lines.len() as int) =~= string_views(lines@));
    tasks
}

/// Every copy made while reading a diff is of a file that a header line of
/// the diff named, that is counted (configured extension, no excluded
/// ending), and is made under that file's own name; and the file being
/// read at any point was named by a header line.
pub proof fn lemma_copies_are_counted(
    lines: Seq<Seq<char>>,
    extensions: Seq<Seq<char>>,
    exclusions: Seq<Seq<char>>,
)
    ensures
        copy_scan(lines, extensions, exclusions).0 matches Some(p) ==> exists|j: int|
            0 <= j < lines.len() && header_path(#[trigger] lines[j]) == Some(p),
        forall|k: int|
            0 <= k < copy_scan(lines, extensions, exclusions).1.len() ==> {
                let (src, name) = #[trigger] copy_scan(lines, extensions, exclusions).1[k];
                &&& counted_file(src, extensions, exclusions)
                &&& file_name_spec(src) == Some(name)
                &&& exists|j: int| 0 <= j < lines.len() && header_path(#[trigger] lines[j]) == Some(src)
            },
    decreases lines.len(),
{
    if lines.len() > 0 {
        let init = lines.drop_last();
        lemma_copies_are_counted(init, extensions, exclusions);
        let (current, copies) = copy_scan(init, extensions, exclusions);
        let last: int = lines.len() - 1;
        assert(lines[last] == lines.last());
        assert forall|j: int| 0 <= j < init.len() implies #[trigger] init[j] == lines[j] by {}
        if let Some(p) = current {
            let j = choose|j: int| 0 <= j < init.len() && header_path(#[trigger] init[j]) == Some(p);
            assert(header_path(lines[j]) == Some(p));
        }
        assert forall|k: int| 0 <= k < copies.len() implies exists|j: int|
            0 <= j < lines.len() && header_path(#[trigger] lines[j]) == Some(
                (#[trigger] copies[k]).0,
            ) by {
            let j = choose|j: int|
                0 <= j < init.len() && header_path(#[trigger] init[j]) == Some(copies[k].0);
            assert(header_path(lines[j]) == Some(copies[k].0));
        }
        match header_path(lines.last()) {
            Some(p) => {},
            None => {
                if let Some(p) = current {
                    if counted_file(p, extensions, exclusions) {
                        assert(file_name_spec(p) is Some);
                        let now = copies.push((p, file_name_spec(p)->0));
                        assert forall|k: int| 0 <= k < now.len() implies {
                            let (src, name) = #[trigger] now[k];
                            &&& counted_file(src, extensions, exclusions)
                            &&& file_name_spec(src) == Some(name)
                            &&& exists|j: int|
                                0 <= j < lines.len() && header_path(#[trigger] lines[j]) == Some(src)
                        } by {
                            if k < copies.len() {
                                assert(now[k] == copies[k]);
                            }
                        }
                    }
                }
            },
        }
    }
}

/// A changed file is copied for counting exactly when it has a file name
/// whose extension is one of the configured extensions, and no entry of
/// the exclusions ends that name.
pub proof fn lemma_counted_file_iff(
    path: Seq<char>,
    extensions: Seq<Seq<char>>,
    exclusions: Seq<Seq<char>>,
)
    ensures
        counted_file(path, extensions, exclusions) <==> {
            &&& file_name_spec(path) is Some
            &&& path_extension(path) is Some
            &&& exists|k: int|
                0 <= k < extensions.len() && #[trigger] extensions[k] == path_extension(path)->0
            &&& forall|k: int|
                0 <= k < exclusions.len() ==> !(#[trigger] exclusions[k]).is_suffix_of(
                    file_name_spec(path)->0,
                )
        },
{
    if counted_file(path, extensions, exclusions) {
        let e = path_extension(path)->0;
        assert(file_name_spec(path) is Some);
        let k = choose|k: int| 0 <= k < extensions.len() && extensions[k] == e;
        assert(extensions[k] == e);
    } else {
        if path_extension(path) is Some && file_name_spec(path) is Some && extensions.contains(
            path_extension(path)->0,
        ) {
            let name = file_name_spec(path)->0;
            assert(has_excluded_ending(name, exclusions));
            let k = choose|k: int| 0 <= k < exclusions.len() && (#[trigger] exclusions[k]).is_suffix_of(name);
            assert(exclusions[k].is_suffix_of(name));
        }
    }
}

/// A file whose name ends with any entry of the exclusions is never copied
/// for counting.
pub proof fn lemma_excluded_never_counted(
    path: Seq<char>,
    extensions: Seq<Seq<char>>,
    exclusions: Seq<Seq<char>>,
    k: int,
)
    requires
        0 <= k < exclusions.len(),
        file_name_spec(path) is Some,
        exclusions[k].is_suffix_of(file_name_spec(path)->0),
    ensures
        !counted_file(path, extensions, exclusions),
{
    lemma_counted_file_iff(path, extensions, exclusions);
}

/// One file's section of a diff: after its `+++ b/` header, each of the
/// following lines that is no header copies the file once, if it is
/// counted, and nothing otherwise; what was copied before stays.
pub proof fn lemma_copies_of_section(
    prefix: Seq<Seq<char>>,
    header: Seq<char>,
    body: Seq<Seq<char>>,
    extensions: Seq<Seq<char>>,
    exclusions: Seq<Seq<char>>,
)
    requires
        header_path(header) is Some,
        forall|i: int| 0 <= i < body.len() ==> header_path(#[trigger] body[i]) is None,
    ensures
        copy_scan(prefix.push(header) + body, extensions, exclusions).0 == header_path(header),
        copy_scan(prefix.push(header) + body, extensions, exclusions).1 == copy_scan(
            prefix,
            extensions,
            exclusions,
        ).1 + (if counted_file(header_path(header)->0, extensions, exclusions) {
            Seq::new(
                body.len(),
                |i: int| (header_path(header)->0, file_name_spec(header_path(header)->0)->0),
            )
        } else {
            Seq::empty()
        }),
    decreases body.len(),
{
    let p = header_path(header)->0;
    let all = prefix.push(header) + body;
    if body.len() == 0 {
        assert(all =~= prefix.push(header));
        assert(prefix.push(header).drop_last() =~= prefix);
        assert(prefix.push(header).last() == header);
        assert(copy_scan(prefix, extensions, exclusions).1 + Seq::new(
            0,
            |i: int| (p, file_name_spec(p)->0),
        ) =~= copy_scan(prefix, extensions, exclusions).1);
        assert(copy_scan(prefix, extensions, exclusions).1 + Seq::<(Seq<char>, Seq<char>)>::empty()
            =~= copy_scan(prefix, extensions, exclusions).1);
    } else {
        let b0 = body.drop_last();
        assert forall|i: int| 0 <= i < b0.len() implies header_path(#[trigger] b0[i]) is None by {
            assert(b0[i] == body[i]);
        }
        lemma_copies_of_section(prefix, header, b0, extensions, exclusions);
        assert(all.drop_last() =~= prefix.push(header) + b0);
        assert(all.last() == body.last());
        assert(header_path(body[body.len() - 1]) is None);
        assert(body[body.len() - 1] == body.last());
        let before = copy_scan(prefix, extensions, exclusions).1;
        if counted_file(p, extensions, exclusions) {
            let c = (p, file_name_spec(p)->0);
            assert((before + Seq::new(b0.len(), |i: int| c)).push(c) =~= before + Seq::new(
                body.len(),
                |i: int| c,
            ));
        }
    }
}

} // verus!
