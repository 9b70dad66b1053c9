use std::io::BufRead;

use step_count::code_analyzer::filter_lines;
use step_count::config::Config;
use step_count::diff_processor::{contains_string, create_temp_files, has_ending_in, is_counted_file};
use step_count::file_filter::{
    filter_and_save, move_files, should_include, suffix_regex_source, try_filter_and_save,
};
use step_count::git_diff::{
    added_lines_args, changed_files_args, command_line, get_added_lines, get_changed_files,
};
use step_count::line_counter::count_lines;
use step_count::path::extension;
use step_count::step_count::UserRequestData;
use step_count::text::{
    chars_of, ends_with, is_white_space_char, join, line_count, skip_chars, split_lines, starts_with, trim,
};
use step_count::user_request::UserRequest;

fn strings(v: &[&str]) -> Vec<String> {
    v.iter().map(|s| s.to_string()).collect()
}

fn config(exts: &[&str], excl: &[&str]) -> Config {
    Config { included_extensions: strings(exts), exclude_files: strings(excl) }
}

#[test]
fn split_lines_follows_str_lines() {
    for text in ["", "a", "a\n", "a\r\nb\n\nc", "\n", "x\r", "a\rb\n", "\r\n\r\n", "one\ntwo\r\nthree\n"] {
        let expected: Vec<String> = text.lines().map(|l| l.to_string()).collect();
        assert_eq!(split_lines(text), expected, "text {:?}", text);
        assert_eq!(line_count(text), expected.len(), "text {:?}", text);
    }
}

#[test]
fn line_count_matches_bufread_lines() {
    for text in ["", "a", "a\n", "a\n\n", "a\r\nb", "\n\n\n", "last\r"] {
        let n = std::io::Cursor::new(text.as_bytes()).lines().count();
        assert_eq!(line_count(text), n, "text {:?}", text);
    }
}

#[test]
fn prefixes_suffixes_and_joining() {
    assert!(starts_with("+++ b/x", "+++"));
    assert!(!starts_with("++", "+++"));
    assert!(starts_with("abc", ""));
    assert!(ends_with("Form1.Designer.cs", ".Designer.cs"));
    assert!(!ends_with("cs", ".cs"));
    assert_eq!(join(&strings(&["a", "b", "c"]), ", "), "a, b, c");
    assert_eq!(join(&strings(&[]), "|"), "");
    assert_eq!(join(&strings(&["only"]), "|"), "only");
    assert_eq!(skip_chars("+日本", 1), "日本");
    assert_eq!(chars_of("añb"), vec!['a', 'ñ', 'b']);
}

#[test]
fn filter_lines_keeps_added_code_only() {
    let diff = "diff --git a/x.rs b/x.rs\n\
                +++ b/x.rs\n\
                @@ -1 +1,8 @@\n\
                +fn main() {\n\
                +    // comment\n\
                +\n\
                +   let x = 1;  \n\
                +}\n\
                +  };\n\
                -removed\n\
                ++still added\n\
                +{ x }\n";
    assert_eq!(
        filter_lines(diff),
        strings(&["fn main() {", "let x = 1;", "+still added", "{ x }"])
    );
    assert_eq!(filter_lines(""), Vec::<String>::new());
    assert_eq!(filter_lines("+//c\n+{\n+}\n+};\n+ \n"), Vec::<String>::new());
}

#[test]
fn get_added_lines_drops_blank_and_comment_lines() {
    let diff = "+++ b/src/a.rs\n+let a = 1;\n+  // note\n+\n+}\n++double\n+x // tail\r\n unchanged\n";
    assert_eq!(get_added_lines(diff), strings(&["let a = 1;", "}", "x // tail"]));
}

#[test]
fn changed_files_are_trimmed_output_lines() {
    assert_eq!(get_changed_files("src/a.rs\n\n  src/b.rs \nREADME.md"), strings(&["src/a.rs", "src/b.rs", "README.md"]));
    assert_eq!(get_changed_files("a.rs\n\nb.rs\n"), strings(&["a.rs", "b.rs"]));
    assert_eq!(get_changed_files("\n \n"), Vec::<String>::new());
    assert_eq!(get_changed_files(""), Vec::<String>::new());
}

#[test]
fn git_arguments() {
    assert_eq!(changed_files_args("a..b", "  "), strings(&["log", "a..b", "--name-only", "--pretty=format:"]));
    assert_eq!(
        changed_files_args("a..b", "taro"),
        strings(&["log", "a..b", "--name-only", "--pretty=format:", "--author", "taro"])
    );
    let args = changed_files_args("v1..v2", "");
    assert_eq!(command_line(&args), "git log v1..v2 --name-only --pretty=format:");
    assert_eq!(added_lines_args("a..b", "src/x.rs"), strings(&["diff", "a..b", "--", "src/x.rs"]));
}

#[test]
fn should_include_by_extension_and_exclusion() {
    let cfg = config(&["cs", "rs"], &["Designer\\.cs", "Reference\\.cs"]);
    assert_eq!(suffix_regex_source(&cfg.included_extensions), "\\.(cs|rs)$");
    assert!(should_include("dir/Program.cs", &cfg));
    assert!(should_include("/tmp/CountTempFile/main.rs", &cfg));
    assert!(!should_include("dir/Form1.Designer.cs", &cfg));
    // An excluded entry matches at the end of the name, with no dot before it.
    assert!(!should_include("dir/Reference.cs", &cfg));
    assert!(!should_include("dir/Web.Reference.cs", &cfg));
    assert!(should_include("dir/Preference.rs", &cfg));
    assert!(!should_include("notes.txt", &cfg));
    assert!(!should_include("", &cfg));
    assert!(!should_include("dir/..", &cfg));
    // An extension that is not a valid regex makes every file excluded.
    assert!(!should_include("a.cs", &config(&["cs("], &["x"])));
}

#[test]
fn filter_and_save_plans() {
    assert!(filter_and_save("/tmp/out", "src/a.rs", &strings(&[])).is_none());
    let plan = filter_and_save("/tmp/out", "src/a.rs", &strings(&["x", "y"])).unwrap();
    assert_eq!(plan.destination, "/tmp/out/a.rs");
    assert_eq!(plan.contents, "x\ny");
    assert!(try_filter_and_save("/tmp/out", "", &strings(&["x"])).is_none());
    assert!(matches!(try_filter_and_save("/tmp/out", "", &strings(&[])), Some(None)));
    let p = try_filter_and_save("o", "d/b.cs", &strings(&["z"])).unwrap().unwrap();
    assert_eq!(p.destination, "o/b.cs");
}

#[test]
fn move_files_plans_counted_files() {
    let cfg = config(&["rs"], &["gen\\.rs"]);
    let tasks = move_files(&strings(&["/t/a.rs", "/t/b.txt", "/t/x.gen.rs", "/t/c.rs"]), "/t/Countfile", &cfg);
    let pairs: Vec<(String, String)> = tasks.into_iter().map(|t| (t.from, t.to)).collect();
    assert_eq!(
        pairs,
        vec![
            ("/t/a.rs".to_string(), "/t/Countfile/a.rs".to_string()),
            ("/t/c.rs".to_string(), "/t/Countfile/c.rs".to_string()),
        ]
    );
}

#[test]
fn count_lines_sums_files() {
    assert_eq!(count_lines(&strings(&["a\nb", "c\n", "", "\n\n"])), Some(5));
    assert_eq!(count_lines(&strings(&[])), Some(0));
}

#[test]
fn saved_lines_are_counted_scenario() {
    let added = get_added_lines("+a\n+\n+b\n+// c\n+  d  \n");
    let plan = filter_and_save("o", "f.rs", &added).unwrap();
    assert_eq!(count_lines(&vec![plan.contents]), Some(added.len()));
    assert_eq!(added.len(), 3);
}

#[test]
fn create_temp_files_copies_counted_files() {
    let cfg = config(&["cs", "rs"], &["Designer.cs"]);
    let diff = "diff --git a/src/a.rs b/src/a.rs\n\
                index 1..2\n\
                --- a/src/a.rs\n\
                +++ b/src/a.rs\n\
                @@ -0,0 +1 @@\n\
                +x\n\
                diff --git a/f.Designer.cs b/f.Designer.cs\n\
                +++ b/f.Designer.cs\n\
                +y\n\
                +++ b/readme.md\n\
                +z\n\
                +++ b/ Program.cs \n\
                +w\n";
    let tasks = create_temp_files(diff, &cfg);
    let pairs: Vec<(String, String)> = tasks.into_iter().map(|t| (t.source, t.file_name)).collect();
    let a = ("src/a.rs".to_string(), "a.rs".to_string());
    let p = ("Program.cs".to_string(), "Program.cs".to_string());
    assert_eq!(pairs, vec![a.clone(), a.clone(), a, p]);
    assert!(create_temp_files("", &cfg).is_empty());
}

#[test]
fn counted_file_rules() {
    let cfg = config(&["rs"], &["_test.rs"]);
    assert!(is_counted_file("src/lib.rs", &cfg));
    assert!(!is_counted_file("src/lib_test.rs", &cfg));
    assert!(!is_counted_file(".rs", &cfg));
    assert!(!is_counted_file("Makefile", &cfg));
    assert!(contains_string(&strings(&["a", "b"]), &"b".to_string()));
    assert!(!contains_string(&strings(&["a", "b"]), &"c".to_string()));
    assert!(has_ending_in("x_test.rs", &strings(&["_test.rs"])));
    assert!(!has_ending_in("x.rs", &strings(&[])));
}

#[test]
fn user_requests_are_trimmed() {
    let r = UserRequest::from_user_input(" /repo\n", "v1 \n", "\tv2\n", "taro\n");
    assert_eq!(r.source_path, "/repo");
    assert_eq!(r.git_rev, "v1..v2");
    assert_eq!(r.author_name, "taro");
    let d = UserRequestData::new(" /repo\n", "a\n", "b\r\n", " hanako ");
    assert_eq!((d.source_path.as_str(), d.start_revision.as_str(), d.end_revision.as_str(), d.user_name.as_str()), ("/repo", "a", "b", "hanako"));
    assert_eq!(d.diff_args(), strings(&["diff", "-U0", "a", "b", "--author", "hanako"]));
}

#[test]
fn trimming_removes_exactly_unicode_white_space() {
    for code in 0u32..=0x10FFFF {
        if let Some(c) = char::from_u32(code) {
            assert_eq!(c.is_whitespace(), is_white_space_char(c), "char {:#x}", code);
        }
    }
    for c in ['\t', '\n', '\r', ' ', '\u{A0}', '\u{3000}', 'x', '/', '\u{200B}'] {
        let r = UserRequest::from_user_input(&format!("{c}a{c}"), "", "", "");
        let expected = if c.is_whitespace() { "a".to_string() } else { format!("{c}a{c}") };
        assert_eq!(r.source_path, expected, "char {:?}", c);
    }
    for t in ["", "   ", " x", "x ", "\u{2000}a b\u{3000}", "\t\r\n", "a", " \u{85}z\u{A0} "] {
        assert_eq!(trim(t), t.trim(), "text {:?}", t);
    }
}

#[test]
fn extension_follows_path_extension() {
    for p in ["a/b.tar.gz", ".bashrc", "a.", "dir.d/file", "", "x/..", "x/.hidden.rs", "/", "a//b.c", "k.rs/", "c.x.", "..a"] {
        let expected = std::path::Path::new(p).extension().map(|e| e.to_str().unwrap().to_string());
        assert_eq!(extension(p), expected, "path {:?}", p);
    }
}

#[test]
fn should_include_looks_at_the_file_name_only() {
    let cfg = config(&["rs", "cs"], &["gen"]);
    for name in ["main.rs", "x.gen", "a.txt", "Form.cs", "lib.rs.bak"] {
        for dir in ["d", "/abs/path", "a.rs", "x/y/z"] {
            assert_eq!(should_include(&format!("{dir}/{name}"), &cfg), should_include(name, &cfg), "{dir}/{name}");
        }
    }
}

#[test]
fn more_exclusions_and_extensions_are_monotone() {
    let files = ["a.rs", "b.cs", "c.txt", "d.gen", "e.rs.gen", "f.gen.rs", "g"];
    let c = config(&["rs"], &["gen"]);
    let c2 = config(&["rs"], &["gen", "rs"]);
    let c3 = config(&["rs", "cs"], &["gen"]);
    for f in files {
        assert!(!should_include(f, &c2) || should_include(f, &c), "{f}");
        assert!(!should_include(f, &c) || should_include(f, &c3), "{f}");
    }
    assert!(should_include("b.cs", &c3) && !should_include("b.cs", &c));
    assert!(should_include("a.rs", &c) && !should_include("a.rs", &c2));
    // No extensions: nothing is counted; no exclusions: nothing is excluded.
    assert!(!should_include("foo.", &config(&[], &["x"])));
    assert!(!should_include("foo.rs", &config(&[], &[])));
    assert!(should_include("x.rs", &config(&["rs"], &[])));
    assert!(!should_include("x.", &config(&["rs"], &[])));
    // An exclusion needs no dot before it.
    assert!(!should_include("mygen.rs", &config(&["rs"], &["gen.rs"])));
    assert!(!should_include("ab_x.rs", &config(&["rs"], &["x", "rs"])));
}

#[test]
fn paths_without_a_file_name() {
    let cfg = config(&["rs"], &[]);
    for p in ["", "/", "src/..", ".."] {
        assert!(!should_include(p, &cfg), "path {:?}", p);
        assert!(try_filter_and_save("o", p, &strings(&["x"])).is_none(), "path {:?}", p);
    }
    assert_eq!(filter_and_save("o", "/abs/x/lib.rs", &strings(&["x"])).unwrap().destination, "o/lib.rs");
}
