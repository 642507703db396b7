//! The configuration of a run.
//!
//! A `Config` is made once, from built-in defaults and from the settings that
//! the operator keeps elsewhere, and is then handed to whatever needs it.

use vstd::prelude::*;
use vstd::string::StringExecFns;
use crate::text::{chars_of, opt_text, rows, split, split_on, string_of_range, texts, trim, trimmed};

verus! {

/// The subcommand that runs where none is named.
pub open spec fn default_cmd() -> Seq<char> {
    "status"@
}

/// The character that parts the patterns of the `ignore` setting.
pub const PATTERN_SEPARATOR: char = ',';

/// The options of a run.
#[derive(Debug)]
pub struct Config {
    /// The directory to walk when searching for git repositories.
    ///
    /// Default: the home directory.
    pub basedir: String,
    /// Whether to follow symbolic links when searching for git repos.
    ///
    /// Default: true
    pub follow_symlinks: bool,
    /// Whether to stay on the filesystem of `basedir` when searching for git
    /// repos.
    ///
    /// Default: true
    pub same_filesystem: bool,
    /// Path patterns to ignore when searching for git repositories.
    ///
    /// Default: none
    pub ignored_patterns: Vec<String>,
    /// The subcommand to run when unspecified.
    ///
    /// Default: `status`
    pub default_cmd: String,
    /// Whether to report progress while scanning.
    ///
    /// Default: false
    pub verbose: bool,
    /// Whether to show untracked files in output.
    ///
    /// Default: true
    pub show_untracked: bool,
    /// The file that keeps the list of known repositories, if there is one.
    pub cache_file: Option<String>,
    /// The file that keeps the list of ignored repositories, if there is one.
    pub ignore_file: Option<String>,
}

/// What a `Config` holds, as plain values.
pub struct ConfigView {
    pub basedir: Seq<char>,
    pub follow_symlinks: bool,
    pub same_filesystem: bool,
    pub ignored_patterns: Seq<Seq<char>>,
    pub default_cmd: Seq<char>,
    pub verbose: bool,
    pub show_untracked: bool,
    pub cache_file: Option<Seq<char>>,
    pub ignore_file: Option<Seq<char>>,
}

impl View for Config {
    type V = ConfigView;

    open spec fn view(&self) -> ConfigView {
        ConfigView {
            basedir: self.basedir@,
            follow_symlinks: self.follow_symlinks,
            same_filesystem: self.same_filesystem,
            ignored_patterns: texts(self.ignored_patterns@),
            default_cmd: self.default_cmd@,
            verbose: self.verbose,
            show_untracked: self.show_untracked,
            cache_file: opt_text(self.cache_file),
            ignore_file: opt_text(self.ignore_file),
        }
    }
}

/// The settings that the operator keeps outside the program, each under its
/// key. A setting that is not there is `None`.
#[derive(Debug)]
pub struct Settings {
    /// `basedir`
    pub basedir: Option<String>,
    /// `follow-symlinks`
    pub follow_symlinks: Option<bool>,
    /// `same-filesystem`
    pub same_filesystem: Option<bool>,
    /// `ignore`: patterns, parted by commas
    pub ignore: Option<String>,
    /// `default-cmd`
    pub default_cmd: Option<String>,
    /// `show-untracked`
    pub show_untracked: Option<bool>,
    /// `verbose`
    pub verbose: Option<bool>,
}

/// The patterns that the text of an `ignore` setting holds: its pieces
/// between commas, each without the white space round it.
pub open spec fn patterns_in(setting: Seq<char>) -> Seq<Seq<char>> {
    let pieces = split_on(setting, PATTERN_SEPARATOR);
    Seq::new(pieces.len(), |i: int| trimmed(pieces[i]))
}

/// The configuration that the settings give, with the defaults where a
/// setting is absent.
pub open spec fn merged(
    home: Seq<char>,
    cache_file: Option<Seq<char>>,
    ignore_file: Option<Seq<char>>,
    settings: Settings,
) -> ConfigView {
    ConfigView {
        basedir: match settings.basedir {
            Some(dir) => dir@,
            None => home,
        },
        follow_symlinks: match settings.follow_symlinks {
            Some(b) => b,
            None => true,
        },
        same_filesystem: match settings.same_filesystem {
            Some(b) => b,
            None => true,
        },
        ignored_patterns: match settings.ignore {
            Some(text) => patterns_in(text@),
            None => Seq::empty(),
        },
        default_cmd: match settings.default_cmd {
            Some(cmd) => cmd@,
            None => default_cmd(),
        },
        verbose: match settings.verbose {
            Some(b) => b,
            None => false,
        },
        show_untracked: match settings.show_untracked {
            Some(b) => b,
            None => true,
        },
        cache_file,
        ignore_file,
    }
}

/// Reads the patterns out of the text of an `ignore` setting.
pub fn parse_patterns(setting: &str) -> (patterns: Vec<String>)
    ensures
        texts(patterns@) == patterns_in(setting@),
{
    let chars = chars_of(setting);
    let pieces = split(&chars, PATTERN_SEPARATOR);
    let mut patterns: Vec<String> = Vec::new();
    let mut i: usize = 0;
    while i < pieces.len()
        invariant
            i <= pieces.len(),
            rows(pieces@) == split_on(setting@, PATTERN_SEPARATOR),
            patterns.len() == i,
            forall|j: int| 0 <= j < i ==> patterns@[j]@ == trimmed(#[trigger] pieces@[j]@),
        decreases pieces.len() - i,
    {
        let piece = trim(&pieces[i]);
        let pattern = string_of_range(&piece, 0, piece.len());
        proof {
            assert(piece@.subrange(0, piece@.len() as int) =~= piece@);
        }
        patterns.push(pattern);
        i += 1;
    }
    proof {
        let want = patterns_in(setting@);
        assert(rows(pieces@).len() == pieces@.len());
        assert forall|j: int| 0 <= j < want.len() implies texts(patterns@)[j] == want[j] by {
            assert(rows(pieces@)[j] == pieces@[j]@);
        }
        assert(texts(patterns@) =~= want);
    }
    patterns
}

impl Config {
    /// The configuration of a run: the defaults, overridden by the settings
    /// that are there. `home` is the operator's home directory; `cache_file`
    /// and `ignore_file` are where the two lists are kept, if anywhere.
    pub fn new(
        home: String,
        cache_file: Option<String>,
        ignore_file: Option<String>,
        settings: Settings,
    ) -> (config: Config)
        ensures
            config@ == merged(home@, opt_text(cache_file), opt_text(ignore_file), settings),
    {
        let ignored_patterns = match &settings.ignore {
            Some(text) => parse_patterns(text.as_str()),
            None => Vec::new(),
        };
        proof {
            if settings.ignore is None {
                assert(texts(ignored_patterns@) =~= Seq::<Seq<char>>::empty());
            }
        }
        let basedir = match settings.basedir {
            Some(dir) => dir,
            None => home,
        };
        let follow_symlinks = match settings.follow_symlinks {
            Some(b) => b,
            None => true,
        };
        let same_filesystem = match settings.same_filesystem {
            Some(b) => b,
            None => true,
        };
        let default_cmd = match settings.default_cmd {
            Some(cmd) => cmd,
            None => String::from_str("status"),
        };
        let verbose = match settings.verbose {
            Some(b) => b,
            None => false,
        };
        let show_untracked = match settings.show_untracked {
            Some(b) => b,
            None => true,
        };
        Config {
            basedir,
            follow_symlinks,
            same_filesystem,
            ignored_patterns,
            default_cmd,
            verbose,
            show_untracked,
            cache_file,
            ignore_file,
        }
    }

    /// Applies the flags of the command line: `untracked` switches the
    /// display of untracked files on, `nountracked` switches it off (where
    /// both are given the second wins), and `verbose` switches the report
    /// of progress on.
    pub fn merge_args(&mut self, untracked: bool, nountracked: bool, verbose: bool)
        ensures
            final(self)@ == (ConfigView {
                show_untracked: if nountracked {
                    false
                } else if untracked {
                    true
                } else {
                    old(self)@.show_untracked
                },
                verbose: verbose || old(self)@.verbose,
                ..old(self)@
            }),
    {
        if untracked {
            self.show_untracked = true;
        }
        if nountracked {
            self.show_untracked = false;
        }
        if verbose {
            self.verbose = true;
        }
    }
}

} // verus!
