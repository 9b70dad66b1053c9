//! What the user of the command-line step counter asks for.
use vstd::prelude::*;
use vstd::string::StringExecFns;

use crate::text::{trim, trim_chars};

verus! {

/// A request of the command-line step counter.
pub struct UserRequest {
    /// The Git repository.
    pub source_path: String,
    /// The revision range, `<start>..<end>`.
    pub git_rev: String,
    /// The author whose changes are counted; blank for every author.
    pub author_name: String,
}

impl UserRequest {
    /// The request made of the four answers the user typed (source path,
    /// start revision, end revision, author), each without surrounding white
    /// space; the revisions become the range `<start>..<end>`.
    pub fn from_user_input(
        source_path_input: &str,
        rev_before_input: &str,
        rev_after_input: &str,
        author_name_input: &str,
    ) -> (req: UserRequest)
        ensures
            req.source_path@ == trim_chars(source_path_input@),
            req.git_rev@ == trim_chars(rev_before_input@) + ".."@ + trim_chars(rev_after_input@),
            req.author_name@ == trim_chars(author_name_input@),
    {
        let source_path = String::from_str(trim(source_path_input));
        let git_rev = String::from_str(trim(rev_before_input)).concat("..").concat(
            trim(rev_after_input),
        );
        let author_name = String::from_str(trim(author_name_input));
        UserRequest { source_path, git_rev, author_name }
    }
}

} // verus!
