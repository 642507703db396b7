//! The `ignore` subcommand: puts a repo on the ignore list.

use vstd::prelude::*;
use vstd::string::StringExecFns;
use crate::errors::GitGlobalError;
use crate::ignore::IgnoreList;
use crate::repo::{paths_of, Repo};
use crate::report::{fresh, with_messages, Report};

verus! {

/// The sentence that says that `path` is ignored from now on.
pub open spec fn added_message(path: Seq<char>) -> Seq<char> {
    "Added '"@ + path + "' to global.ignore. Run `git global scan` to update the cache."@
}

/// Puts a repo on the ignore list. `resolved` is the path that the operator
/// named, with symbolic links followed, or `None` where it could not be
/// resolved: only resolved paths go on the list. A path that is on the
/// list already is refused. Where the subcommand fails the list stays as
/// it was.
pub fn execute(ignored: &mut IgnoreList, resolved: Option<String>) -> (made: Result<
    Report,
    GitGlobalError,
>)
    ensures
        match resolved {
            None => {
                &&& made == Err::<Report, GitGlobalError>(GitGlobalError::Generic)
                &&& final(ignored)@ == old(ignored)@
            },
            Some(path) => if old(ignored)@.contains(path@) {
                &&& made == Err::<Report, GitGlobalError>(GitGlobalError::AlreadyIgnored(path))
                &&& final(ignored)@ == old(ignored)@
            } else {
                &&& made matches Ok(report)
                &&& report@ == with_messages(fresh(Seq::empty()), seq![added_message(path@)])
                &&& final(ignored)@ == old(ignored)@.push(path@)
            },
        },
{
    let path = match resolved {
        Some(path) => path,
        None => {
            return Err(GitGlobalError::Generic);
        },
    };
    let mut message = String::from_str("Added '");
    message.append(path.as_str());
    message.append("' to global.ignore. Run `git global scan` to update the cache.");
    match ignored.add(path) {
        Ok(()) => {
            let none: Vec<Repo> = Vec::new();
            let mut report = Report::new(&none);
            report.add_message(message);
            proof {
                assert(paths_of(none@) =~= Seq::<Seq<char>>::empty());
                assert(report@.messages =~= seq![added_message(path@)]);
            }
            Ok(report)
        },
        Err(e) => Err(e),
    }
}

} // verus!
