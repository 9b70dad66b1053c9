//! What the user of the desktop step counter asks for, and the `git diff`
//! it runs.
use vstd::prelude::*;
use vstd::string::StringExecFns;

use crate::text::{string_views, trim, trim_chars};

verus! {

/// A request of the desktop step counter.
pub struct UserRequestData {
    /// The Git repository.
    pub source_path: String,
    /// The revision the count starts from.
    pub start_revision: String,
    /// The revision the count ends at.
    pub end_revision: String,
    /// The author whose changes are counted.
    pub user_name: String,
}

impl UserRequestData {
    /// The request made of the four answers the user typed, each without
    /// surrounding white space.
    pub fn new(
        source_path_input: &str,
        start_revision_input: &str,
        end_revision_input: &str,
        user_name_input: &str,
    ) -> (req: UserRequestData)
        ensures
            req.source_path@ == trim_chars(source_path_input@),
            req.start_revision@ == trim_chars(start_revision_input@),
            req.end_revision@ == trim_chars(end_revision_input@),
            req.user_name@ == trim_chars(user_name_input@),
    {
        UserRequestData {
            source_path: String::from_str(trim(source_path_input)),
            start_revision: String::from_str(trim(start_revision_input)),
            end_revision: String::from_str(trim(end_revision_input)),
            user_name: String::from_str(trim(user_name_input)),
        }
    }

    /// The arguments of the `git diff` that lists this request's changes:
    /// no context lines, between the two revisions, by the user.
    pub fn diff_args(&self) -> (args: Vec<String>)
        ensures
            string_views(args@) == seq![
                "diff"@,
                "-U0"@,
                self.start_revision@,
                self.end_revision@,
                "--author"@,
                self.user_name@,
            ],
    {
        let mut args: Vec<String> = Vec::new();
        args.push(String::from_str("diff"));
        args.push(String::from_str("-U0"));
        args.push(self.start_revision.clone());
        args.push(self.end_revision.clone());
        args.push(String::from_str("--author"));
        args.push(self.user_name.clone());
        assert(string_views(args@) =~= seq![
            "diff"@,
            "-U0"@,
            self.start_revision@,
            self.end_revision@,
            "--author"@,
            self.user_name@,
        ]);
        args
    }
}

} // verus!
