//! The `info` subcommand: shows metadata about the git-global installation.

use vstd::prelude::*;
use vstd::string::StringExecFns;
use vstd::utf8::encode_utf8;
use crate::config::{Config, ConfigView};
use crate::decimal::{decimal, push_decimal};
use crate::errors::GitGlobalError;
use crate::repo::{paths_of, Repo};
use crate::report::{fresh, with_messages, Report};
use crate::subcommands::ignored::indented;
use crate::text::texts;

verus! {

/// The number of seconds in a minute, an hour, a day.
pub const MINUTE: u64 = 60;

pub const HOUR: u64 = 3600;

pub const DAY: u64 = 86400;

/// An age of `seconds` seconds in days, hours, minutes and seconds.
pub open spec fn age_text(seconds: nat) -> Seq<char> {
    decimal(seconds / (DAY as nat)) + "d, "@ + decimal((seconds % (DAY as nat)) / (HOUR as nat))
        + "h, "@ + decimal((seconds % (HOUR as nat)) / (MINUTE as nat)) + "m, "@ + decimal(
        seconds % (MINUTE as nat),
    ) + "s"@
}

/// Returns an age in terms of days, hours, minutes, and seconds.
pub fn get_age(seconds: u64) -> (age: String)
    ensures
        age@ == age_text(seconds as nat),
{
    let days = seconds / DAY;
    let hours = (seconds % DAY) / HOUR;
    let mins = (seconds % HOUR) / MINUTE;
    let secs = seconds % MINUTE;
    let mut age = String::new();
    push_decimal(&mut age, days);
    age.append("d, ");
    push_decimal(&mut age, hours);
    age.append("h, ");
    push_decimal(&mut age, mins);
    age.append("m, ");
    push_decimal(&mut age, secs);
    age.append("s");
    proof {
        assert(age@ =~= age_text(seconds as nat));
    }
    age
}

/// A flag in words.
pub open spec fn flag_text(flag: bool) -> Seq<char> {
    if flag {
        "true"@
    } else {
        "false"@
    }
}

/// A path that may be absent, in words.
pub open spec fn path_text(path: Option<Seq<char>>) -> Seq<char> {
    match path {
        Some(p) => p,
        None => "<none>"@,
    }
}

/// A line of `n` equals signs.
pub open spec fn rule(n: nat) -> Seq<char> {
    Seq::new(n, |i: int| '=')
}

/// What is known of the installation besides its configuration.
#[derive(Debug)]
pub struct Installation {
    /// The version of the program.
    pub version: String,
    /// How many seconds ago the cache file was written, where there is one
    /// and its age can be told.
    pub cache_age: Option<u64>,
    /// Where the man page goes, where that is known.
    pub manpage_file: Option<String>,
    /// The name of the operating system.
    pub os: String,
}

/// The lines on the cache file: where it is, and how old it is where that
/// is known.
pub open spec fn cache_lines(cache_file: Option<Seq<char>>, cache_age: Option<u64>) -> Seq<
    Seq<char>,
> {
    match cache_file {
        Some(file) => match cache_age {
            Some(seconds) => seq![
                "Cache file: "@ + file,
                "Cache file age: "@ + age_text(seconds as nat),
            ],
            None => seq!["Cache file: "@ + file],
        },
        None => seq!["Cache file: <none>"@],
    }
}

/// What `info` says: the version, underlined; the number of known repos;
/// and the configuration, field by field.
pub open spec fn info_messages(config: ConfigView, count: nat, installation: Installation) -> Seq<
    Seq<char>,
> {
    seq![
        "git-global "@ + installation.version@,
        rule(11 + encode_utf8(installation.version@).len()),
        "Number of repos: "@ + decimal(count),
        "Base directory: "@ + config.basedir,
        "Ignored patterns:"@,
    ] + indented(config.ignored_patterns) + seq![
        "Default command: "@ + config.default_cmd,
        "Verbose: "@ + flag_text(config.verbose),
        "Show untracked: "@ + flag_text(config.show_untracked),
    ] + cache_lines(config.cache_file, installation.cache_age) + seq![
        "Manpage file: "@ + path_text(
            match installation.manpage_file {
                Some(file) => Some(file@),
                None => None,
            },
        ),
        "Detected OS: "@ + installation.os@,
    ]
}

/// `label` followed by `value`.
fn labelled(label: &str, value: &str) -> (line: String)
    ensures
        line@ == label@ + value@,
{
    let mut line = String::from_str(label);
    line.append(value);
    line
}

/// A flag in words.
fn flag_word(flag: bool) -> (word: &'static str)
    ensures
        word@ == flag_text(flag),
{
    if flag {
        "true"
    } else {
        "false"
    }
}

/// Gathers metadata about the git-global installation.
pub fn execute(config: &Config, repos: &Vec<Repo>, installation: &Installation) -> (made: Result<
    Report,
    GitGlobalError,
>)
    ensures
        made matches Ok(report) && report@ == with_messages(
            fresh(paths_of(repos@)),
            info_messages(config@, repos.len() as nat, *installation),
        ),
{
    let mut report = Report::new(repos);
    let ghost start = report@;
    let version = installation.version.as_str();
    // The underline is as long as the line above it.
    let width = version.as_bytes().len();
    let mut underline = String::from_str("===========");
    proof {
        reveal_strlit("===========");
        assert(underline@ =~= rule(11));
    }
    let mut i: usize = 0;
    while i < width
        invariant
            i <= width,
            underline@ == rule((11 + i) as nat),
        decreases width - i,
    {
        proof {
            assert(rule((11 + i) as nat).push('=') =~= rule((11 + i + 1) as nat));
        }
        underline.push('=');
        i += 1;
    }
    report.add_message(labelled("git-global ", version));
    report.add_message(underline);
    let mut count = String::from_str("Number of repos: ");
    push_decimal(&mut count, repos.len() as u64);
    report.add_message(count);
    report.add_message(labelled("Base directory: ", config.basedir.as_str()));
    report.add_message(String::from_str("Ignored patterns:"));
    let ghost head = seq![
        "git-global "@ + installation.version@,
        rule(11 + encode_utf8(installation.version@).len()),
        "Number of repos: "@ + decimal(repos.len() as nat),
        "Base directory: "@ + config@.basedir,
        "Ignored patterns:"@,
    ];
    proof {
        assert(report@.messages =~= head);
    }
    let ghost patterns = indented(config@.ignored_patterns);
    let mut p: usize = 0;
    proof {
        assert(head + patterns.take(0) =~= head);
    }
    while p < config.ignored_patterns.len()
        invariant
            p <= config.ignored_patterns.len(),
            patterns == indented(config@.ignored_patterns),
            report@ == with_messages(start, head + patterns.take(p as int)),
        decreases config.ignored_patterns.len() - p,
    {
        let line = labelled("  ", config.ignored_patterns[p].as_str());
        proof {
            let pattern = config.ignored_patterns@[p as int];
            assert(texts(config.ignored_patterns@)[p as int] == pattern@);
            assert((head + patterns.take(p as int)).push(line@) =~= head + patterns.take(p + 1));
            assert(start.messages + (head + patterns.take(p as int)).push(line@) =~= (
            start.messages + (head + patterns.take(p as int))).push(line@));
        }
        report.add_message(line);
        p += 1;
    }
    proof {
        assert(patterns.take(config.ignored_patterns.len() as int) =~= patterns);
    }
    report.add_message(labelled("Default command: ", config.default_cmd.as_str()));
    report.add_message(labelled("Verbose: ", flag_word(config.verbose)));
    report.add_message(labelled("Show untracked: ", flag_word(config.show_untracked)));
    match &config.cache_file {
        Some(cache_file) => {
            report.add_message(labelled("Cache file: ", cache_file.as_str()));
            match installation.cache_age {
                Some(seconds) => {
                    let age = get_age(seconds);
                    report.add_message(labelled("Cache file age: ", age.as_str()));
                },
                None => {},
            }
        },
        None => {
            report.add_message(String::from_str("Cache file: <none>"));
        },
    }
    match &installation.manpage_file {
        Some(manpage_file) => {
            report.add_message(labelled("Manpage file: ", manpage_file.as_str()));
        },
        None => {
            report.add_message(labelled("Manpage file: ", "<none>"));
        },
    }
    report.add_message(labelled("Detected OS: ", installation.os.as_str()));
    proof {
        assert(report@.messages =~= info_messages(config@, repos.len() as nat, *installation));
    }
    Ok(report)
}

} // verus!
