//! The `install-manpage` subcommand: tells where the man page is and where it
//! would go.

use vstd::prelude::*;
use vstd::string::StringExecFns;
use crate::errors::GitGlobalError;
use crate::repo::{paths_of, Repo};
use crate::report::{fresh, with_messages, Report};
use crate::text::opt_str;

verus! {

/// What the subcommand says. `manpage_file` is where the man page would
/// go, where that is known.
pub open spec fn manpage_messages(manpage_file: Option<Seq<char>>) -> Seq<Seq<char>> {
    seq![
        "This feature is a work-in-progress."@,
        "In the meantime, you can find the manpage at https://raw.githubusercontent.com/peap/git-global/master/doc/git-global.1"@,
        match manpage_file {
            Some(file) => "...would write file to "@ + file,
            None => "...not sure where to put it!"@,
        },
    ]
}

/// Tells where git-global's man page can be found, and where on this
/// machine it would be installed.
pub fn execute(repos: &Vec<Repo>, manpage_file: Option<&str>) -> (made: Result<
    Report,
    GitGlobalError,
>)
    ensures
        made matches Ok(report) && report@ == with_messages(
            fresh(paths_of(repos@)),
            manpage_messages(opt_str(manpage_file)),
        ),
{
    let mut report = Report::new(repos);
    report.add_message(String::from_str("This feature is a work-in-progress."));
    report.add_message(
        String::from_str(
            "In the meantime, you can find the manpage at https://raw.githubusercontent.com/peap/git-global/master/doc/git-global.1",
        ),
    );
    match manpage_file {
        Some(file) => {
            let mut message = String::from_str("...would write file to ");
            message.append(file);
            report.add_message(message);
        },
        None => {
            report.add_message(String::from_str("...not sure where to put it!"));
        },
    }
    proof {
        assert(report@.messages =~= manpage_messages(opt_str(manpage_file)));
    }
    Ok(report)
}

} // verus!
