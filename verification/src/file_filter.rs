//! Choosing the files that are counted, and where their lines are saved.
use vstd::prelude::*;
use vstd::string::StringExecFns;

use crate::config::Config;
use crate::path::{
    file_name, file_name_spec, is_plain_name, is_portable_path, lemma_plain_name_is_file_name,
};
use crate::pattern::{
    all_words, compile, ending_pattern, ends_with_alternative, ends_with_entry, is_word,
    regex_compiles, regex_matches, suffix_pattern,
};
use crate::text::{join, join_chars, string_views};

verus! {

/// Whether the regex `suffix_pattern(alternatives)` matches `name`: stated
/// outright where the alternatives are words, else the named result.
pub open spec fn suffix_match(alternatives: Seq<Seq<char>>, name: Seq<char>) -> bool {
    if all_words(alternatives) {
        ends_with_alternative(name, alternatives)
    } else {
        regex_matches(suffix_pattern(alternatives), name)
    }
}

/// Whether the regex `ending_pattern(alternatives)` matches `name`: stated
/// outright where the alternatives are words, else the named result.
pub open spec fn ending_match(alternatives: Seq<Seq<char>>, name: Seq<char>) -> bool {
    if all_words(alternatives) {
        ends_with_entry(name, alternatives)
    } else {
        regex_matches(ending_pattern(alternatives), name)
    }
}

/// Whether a file is counted.  It has a file name; some extension is
/// configured, and its pattern `\.(e1|e2|...)$` compiles and matches the
/// name; and, where exclusions are configured, their pattern
/// `(x1|x2|...)$` compiles and does not match the name.  With no
/// extensions nothing is counted, and with no exclusions nothing is
/// excluded.
pub open spec fn included(file: Seq<char>, extensions: Seq<Seq<char>>, exclusions: Seq<Seq<char>>) -> bool {
    match file_name_spec(file) {
        None => false,
        Some(name) => {
            &&& extensions.len() > 0
            &&& regex_compiles(suffix_pattern(extensions))
            &&& exclusions.len() > 0 ==> regex_compiles(ending_pattern(exclusions))
            &&& suffix_match(extensions, name)
            &&& !(exclusions.len() > 0 && ending_match(exclusions, name))
        },
    }
}

/// The regex source `\.(a|b|...)$` for the given alternatives.
pub fn suffix_regex_source(alternatives: &Vec<String>) -> (src: String)
    ensures
        src@ == suffix_pattern(string_views(alternatives@)),
{
    let joined = join(alternatives, "|");
    String::from_str("\\.(").concat(joined.as_str()).concat(")$")
}

/// The regex source `(a|b|...)$` for the given alternatives.
pub fn ending_regex_source(alternatives: &Vec<String>) -> (src: String)
    ensures
        src@ == ending_pattern(string_views(alternatives@)),
{
    let joined = join(alternatives, "|");
    String::from_str("(").concat(joined.as_str()).concat(")$")
}

/// Whether `file` is to be counted under `config`.
pub fn should_include(file: &str, config: &Config) -> (b: bool)
    ensures
        b == included(file@, config.extensions(), config.exclusions()),
{
    let name = match file_name(file) {
        Some(name) => name,
        None => return false,
    };
    if config.included_extensions.len() == 0 {
        return false;
    }
    let inc_source = suffix_regex_source(&config.included_extensions);
    let inc = match compile(inc_source.as_str()) {
        Ok(re) => re,
        Err(_) => return false,
    };
    let exc = if config.exclude_files.len() > 0 {
        let exc_source = ending_regex_source(&config.exclude_files);
        match compile(exc_source.as_str()) {
            Ok(re) => Some(re),
            Err(_) => return false,
        }
    } else {
        None
    };
    let inc_hit = inc.is_match(name.as_str());
    proof {
        assert(suffix_pattern(config.extensions()) == inc.source());
        assert(inc_hit == suffix_match(config.extensions(), name@));
    }
    if !inc_hit {
        return false;
    }
    match exc {
        Some(re) => {
            let exc_hit = re.is_match(name.as_str());
            proof {
                assert(ending_pattern(config.exclusions()) == re.source());
                assert(exc_hit == ending_match(config.exclusions(), name@));
            }
            !exc_hit
        },
        None => true,
    }
}

/// Only the final file name decides: a plain name under any directory
/// that leaves the path portable is counted exactly when the name alone is.
pub proof fn lemma_only_file_name_matters(
    dir: Seq<char>,
    name: Seq<char>,
    extensions: Seq<Seq<char>>,
    exclusions: Seq<Seq<char>>,
)
    requires
        is_plain_name(name),
        is_portable_path(dir.push('/')),
    ensures
        included(dir.push('/') + name, extensions, exclusions) == included(
            name,
            extensions,
            exclusions,
        ),
{
    lemma_plain_name_is_file_name(dir, name);
}

/// One more excluded word never lets a file in: with word exclusions, a file
/// counted with the extra exclusion is counted without it, provided the
/// shorter exclusion pattern (if any) compiles.
pub proof fn lemma_more_exclusions_include_less(
    file: Seq<char>,
    extensions: Seq<Seq<char>>,
    exclusions: Seq<Seq<char>>,
    extra: Seq<char>,
)
    requires
        all_words(exclusions),
        is_word(extra),
        exclusions.len() > 0 ==> regex_compiles(ending_pattern(exclusions)),
        included(file, extensions, exclusions.push(extra)),
    ensures
        included(file, extensions, exclusions),
{
    let name = file_name_spec(file)->0;
    let more = exclusions.push(extra);
    assert(all_words(more)) by {
        assert forall|k: int| 0 <= k < more.len() implies is_word(#[trigger] more[k]) by {
            if k < exclusions.len() {
                assert(more[k] == exclusions[k]);
            }
        }
    }
    assert forall|j: int| 0 <= j < exclusions.len() implies !(
    #[trigger] exclusions[j]).is_suffix_of(name) by {
        assert(more[j] == exclusions[j]);
    }
}

/// One more included word never shuts a file out: with word extensions, a
/// counted file stays counted with the extra extension, provided the longer
/// extension pattern compiles.
pub proof fn lemma_more_extensions_include_more(
    file: Seq<char>,
    extensions: Seq<Seq<char>>,
    exclusions: Seq<Seq<char>>,
    extra: Seq<char>,
)
    requires
        all_words(extensions),
        is_word(extra),
        regex_compiles(suffix_pattern(extensions.push(extra))),
        included(file, extensions, exclusions),
    ensures
        included(file, extensions.push(extra), exclusions),
{
    let name = file_name_spec(file)->0;
    let more = extensions.push(extra);
    assert(all_words(more)) by {
        assert forall|k: int| 0 <= k < more.len() implies is_word(#[trigger] more[k]) by {
            if k < extensions.len() {
                assert(more[k] == extensions[k]);
            }
        }
    }
    let k = choose|k: int|
        0 <= k < extensions.len() && (seq!['.'] + #[trigger] extensions[k]).is_suffix_of(name);
    assert(more[k] == extensions[k]);
}

/// Where a file of added lines is written, and what it holds.
pub struct SavePlan {
    /// `<output directory>/<file name>`.
    pub destination: String,
    /// The added lines, separated by `'\n'`.
    pub contents: String,
}

/// Where the added lines of `file` go: nowhere if there are none, else a
/// file of the same name in `output_file_path`, holding the lines joined by
/// newlines.
pub fn filter_and_save(output_file_path: &str, file: &str, added_lines: &Vec<String>) -> (plan:
    Option<SavePlan>)
    requires
        added_lines.len() > 0 ==> file_name_spec(file@) is Some,
    ensures
        added_lines.len() == 0 <==> plan is None,
        plan matches Some(p) ==> {
            &&& p.destination@ == output_file_path@ + "/"@ + file_name_spec(file@)->0
            &&& p.contents@ == join_chars(string_views(added_lines@), "\n"@)
        },
{
    if added_lines.len() == 0 {
        return None;
    }
    let name = file_name(file).unwrap();
    let destination = String::from_str(output_file_path).concat("/").concat(name.as_str());
    let contents = join(added_lines, "\n");
    Some(SavePlan { destination, contents })
}

/// `filter_and_save`, for any file: `None` where there are lines to save
/// but `file` has no file name to save them under.
pub fn try_filter_and_save(output_file_path: &str, file: &str, added_lines: &Vec<String>) -> (res:
    Option<Option<SavePlan>>)
    ensures
        res is None <==> (added_lines.len() > 0 && file_name_spec(file@) is None),
        res matches Some(plan) ==> {
            &&& (added_lines.len() == 0 <==> plan is None)
            &&& plan matches Some(p) ==> {
                &&& p.destination@ == output_file_path@ + "/"@ + file_name_spec(file@)->0
                &&& p.contents@ == join_chars(string_views(added_lines@), "\n"@)
            }
        },
{
    if added_lines.len() > 0 && file_name(file).is_none() {
        return None;
    }
    Some(filter_and_save(output_file_path, file, added_lines))
}

/// A file to move into the backup directory.
pub struct MoveTask {
    pub from: String,
    pub to: String,
}

/// What moving `files` into `backup_path` does: each counted file, in
/// order, goes to a file of the same name there.
pub open spec fn move_plan(
    files: Seq<Seq<char>>,
    backup_path: Seq<char>,
    extensions: Seq<Seq<char>>,
    exclusions: Seq<Seq<char>>,
) -> Seq<(Seq<char>, Seq<char>)>
    decreases files.len(),
{
    if files.len() == 0 {
        Seq::empty()
    } else {
        let prev = move_plan(files.drop_last(), backup_path, extensions, exclusions);
        let f = files.last();
        if included(f, extensions, exclusions) {
            prev.push((f, backup_path + "/"@ + file_name_spec(f)->0))
        } else {
            prev
        }
    }
}

/// The views of move tasks.
pub open spec fn move_views(tasks: Seq<MoveTask>) -> Seq<(Seq<char>, Seq<char>)> {
    tasks.map_values(|t: MoveTask| (t.from@, t.to@))
}

/// The moves that bring the counted ones of `files` into `backup_path`.
pub fn move_files(files: &Vec<String>, backup_path: &str, config: &Config) -> (tasks: Vec<MoveTask>)
    ensures
        move_views(tasks@) == move_plan(
            string_views(files@),
            backup_path@,
            config.extensions(),
            config.exclusions(),
        ),
{
    let mut tasks: Vec<MoveTask> = Vec::new();
    let mut i: usize = 0;
    assert(string_views(files@).take(0) =~= Seq::<Seq<char>>::empty());
    while i < files.len()
        invariant
            i <= files.len(),
            move_views(tasks@) == move_plan(
                string_views(files@).take(i as int),
                backup_path@,
                config.extensions(),
                config.exclusions(),
            ),
        decreases files.len() - i,
    {
        let f = files[i].as_str();
        assert(string_views(files@).take(i + 1).drop_last() =~= string_views(files@).take(
            i as int,
        ));
        assert(string_views(files@).take(i + 1).last() == f@);
        if should_include(f, config) {
            let name = file_name(f).unwrap();
            let to = String::from_str(backup_path).concat("/").concat(name.as_str());
            let ghost before = move_views(tasks@);
            tasks.push(MoveTask { from: String::from_str(f), to });
            assert(move_views(tasks@) =~= before.push((f@, to@)));
        }
        i += 1;
    }
    assert(string_views(files@).take(files.len() as int) =~= string_views(files@));
    tasks
}

/// Every move brings a counted file into the backup directory under its own
/// file name.
pub proof fn lemma_moves_are_included(
    files: Seq<Seq<char>>,
    backup_path: Seq<char>,
    extensions: Seq<Seq<char>>,
    exclusions: Seq<Seq<char>>,
)
    ensures
        forall|k: int|
            0 <= k < move_plan(files, backup_path, extensions, exclusions).len() ==> {
                let (from, to) = #[trigger] move_plan(files, backup_path, extensions, exclusions)[k];
                &&& files.contains(from)
                &&& included(from, extensions, exclusions)
                &&& file_name_spec(from) is Some
                &&& to == backup_path + "/"@ + file_name_spec(from)->0
            },
    decreases files.len(),
{
    if files.len() > 0 {
        let init = files.drop_last();
        lemma_moves_are_included(init, backup_path, extensions, exclusions);
        let prev = move_plan(init, backup_path, extensions, exclusions);
        let now = move_plan(files, backup_path, extensions, exclusions);
        assert(files[files.len() - 1] == files.last());
        assert forall|k: int| 0 <= k < now.len() implies {
            let (from, to) = #[trigger] now[k];
            &&& files.contains(from)
            &&& included(from, extensions, exclusions)
            &&& file_name_spec(from) is Some
            &&& to == backup_path + "/"@ + file_name_spec(from)->0
        } by {
            if k < prev.len() {
                assert(now[k] == prev[k]);
                let j = choose|j: int| 0 <= j < init.len() && init[j] == prev[k].0;
                assert(files[j] == init[j]);
            }
        }
    }
}

/// With word extensions and exclusions, a file is counted exactly when it
/// has a file name, some extension is configured, the patterns compile,
/// the name ends in `.` followed by one of the extensions, and no exclusion
/// ends the name.
pub proof fn lemma_included_iff(file: Seq<char>, extensions: Seq<Seq<char>>, exclusions: Seq<Seq<char>>)
    requires
        all_words(extensions),
        all_words(exclusions),
    ensures
        included(file, extensions, exclusions) <==> {
            &&& file_name_spec(file) is Some
            &&& extensions.len() > 0
            &&& regex_compiles(suffix_pattern(extensions))
            &&& exclusions.len() > 0 ==> regex_compiles(ending_pattern(exclusions))
            &&& exists|k: int|
                0 <= k < extensions.len() && (seq!['.'] + #[trigger] extensions[k]).is_suffix_of(
                    file_name_spec(file)->0,
                )
            &&& forall|k: int|
                0 <= k < exclusions.len() ==> !(#[trigger] exclusions[k]).is_suffix_of(
                    file_name_spec(file)->0,
                )
        },
{
}

/// Moving works file by file: the moves for two lists of files one after
/// the other are those of the first list followed by those of the second.
pub proof fn lemma_move_plan_append(
    a: Seq<Seq<char>>,
    b: Seq<Seq<char>>,
    backup_path: Seq<char>,
    extensions: Seq<Seq<char>>,
    exclusions: Seq<Seq<char>>,
)
    ensures
        move_plan(a + b, backup_path, extensions, exclusions) == move_plan(
            a,
            backup_path,
            extensions,
            exclusions,
        ) + move_plan(b, backup_path, extensions, exclusions),
    decreases b.len(),
{
    if b.len() == 0 {
        assert(a + b =~= a);
        assert(move_plan(a, backup_path, extensions, exclusions) + move_plan(
            b,
            backup_path,
            extensions,
            exclusions,
        ) =~= move_plan(a, backup_path, extensions, exclusions));
    } else {
        let b0 = b.drop_last();
        lemma_move_plan_append(a, b0, backup_path, extensions, exclusions);
        assert((a + b).drop_last() =~= a + b0);
        assert((a + b).last() == b.last());
        let f = b.last();
        if included(f, extensions, exclusions) {
            let m = (f, backup_path + "/"@ + file_name_spec(f)->0);
            assert((move_plan(a, backup_path, extensions, exclusions) + move_plan(
                b0,
                backup_path,
                extensions,
                exclusions,
            )).push(m) =~= move_plan(a, backup_path, extensions, exclusions) + move_plan(
                b0,
                backup_path,
                extensions,
                exclusions,
            ).push(m));
        }
    }
}

} // verus!
