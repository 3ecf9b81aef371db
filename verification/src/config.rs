//! The settings of one search and how an invocation's arguments resolve to
//! them.

use vstd::prelude::*;

verus! {

/// What is shown to a caller who left out a required argument.
pub const USAGE: &'static str =
    "\nUSAGE\n    minigrep <pattern> <file> [flags]\n\nFLAGS:\n    -i - Case insensitive search;\n    -q - Quiet mode. Only outputs occurence count;\n";

/// The settings of one search.
#[derive(Debug, PartialEq, Eq)]
pub struct Config {
    /// The literal text to look for.
    pub query: String,
    /// The path of the file to search.
    pub filename: String,
    /// Whether letter case counts.
    pub case_sensitive: bool,
    /// Whether only the count is shown.
    pub quiet: bool,
}

/// A `Config` as plain values.
pub struct Settings {
    pub query: Seq<char>,
    pub filename: Seq<char>,
    pub case_sensitive: bool,
    pub quiet: bool,
}

impl View for Config {
    type V = Settings;

    open spec fn view(&self) -> Settings {
        Settings {
            query: self.query@,
            filename: self.filename@,
            case_sensitive: self.case_sensitive,
            quiet: self.quiet,
        }
    }
}

/// Why no settings could be resolved.
#[derive(Debug, Clone, Copy, PartialEq, Eq)]
pub enum ConfigError {
    /// Fewer than two arguments were given.
    MissingArguments,
}

impl ConfigError {
    /// The text to show for this error: the usage of the program.
    pub fn message(&self) -> (text: &'static str)
        ensures
            text@ == USAGE@,
    {
        USAGE
    }
}

/// Whether `flag` is among the arguments that follow the two positional ones.
pub open spec fn flag_given(args: Seq<Seq<char>>, flag: Seq<char>) -> bool {
    exists|i: int| 2 <= i < args.len() && args[i] == flag
}

/// The settings that `args` resolve to. `args` are the arguments without the
/// program's own name, and `env_insensitive` says whether the environment
/// asks for a search without regard to case. The first two arguments are the
/// query and the file name; the search regards case unless the environment
/// or the flag `-i` says otherwise, and is quiet exactly if `-q` is given.
pub open spec fn resolve(args: Seq<Seq<char>>, env_insensitive: bool) -> Result<
    Settings,
    ConfigError,
> {
    if args.len() < 2 {
        Err(ConfigError::MissingArguments)
    } else {
        Ok(
            Settings {
                query: args[0],
                filename: args[1],
                case_sensitive: !env_insensitive && !flag_given(args, "-i"@),
                quiet: flag_given(args, "-q"@),
            },
        )
    }
}

/// Tells whether `flag` is among the arguments that follow the first two.
fn has_flag(args: &[String], flag: &str) -> (given: bool)
    ensures
        given == flag_given(args.deep_view(), flag@),
{
    let wanted = flag.to_owned();
    let mut i: usize = 2;
    while i < args.len()
        invariant
            2 <= i,
            wanted@ == flag@,
            forall|j: int| 2 <= j < i && j < args@.len() ==> args.deep_view()[j] != flag@,
        decreases args@.len() - i,
    {
        if args[i] == wanted {
            assert(args.deep_view()[i as int] == flag@);
            return true;
        }
        i += 1;
    }
    false
}

impl Config {
    /// Resolves the settings of a search from the arguments of an invocation
    /// (without the program's own name) and from whether the environment
    /// asks for a search without regard to case.
    pub fn new(args: &[String], env_insensitive: bool) -> (resolved: Result<Config, ConfigError>)
        ensures
            resolved is Ok <==> args@.len() >= 2,
            match resolved {
                Ok(config) => resolve(args.deep_view(), env_insensitive) == Ok::<
                    Settings,
                    ConfigError,
                >(config@),
                Err(error) => resolve(args.deep_view(), env_insensitive) == Err::<
                    Settings,
                    ConfigError,
                >(error),
            },
    {
        if args.len() < 2 {
            return Err(ConfigError::MissingArguments);
        }
        let ignore_case = has_flag(args, "-i");
        let quiet = has_flag(args, "-q");
        Ok(
            Config {
                query: args[0].clone(),
                filename: args[1].clone(),
                case_sensitive: !env_insensitive && !ignore_case,
                quiet,
            },
        )
    }
}

/// Fewer than two arguments resolve to no settings, and two or more always
/// resolve to some.
pub proof fn too_few_arguments_fail(args: Seq<Seq<char>>, env_insensitive: bool)
    ensures
        args.len() < 2 ==> resolve(args, env_insensitive) == Err::<Settings, ConfigError>(
            ConfigError::MissingArguments,
        ),
        args.len() >= 2 ==> resolve(args, env_insensitive) is Ok,
{
}

/// With the query and the file name given, the search regards case when
/// neither the environment nor the flag `-i` asks otherwise, whether or not
/// `-q` is given.
pub proof fn case_counts_by_default(args: Seq<Seq<char>>)
    requires
        args.len() >= 2,
        !flag_given(args, "-i"@),
    ensures
        resolve(args, false) is Ok,
        resolve(args, false)->Ok_0.case_sensitive,
{
}

/// The environment alone turns regard to case off.
pub proof fn environment_turns_case_off(args: Seq<Seq<char>>)
    requires
        args.len() >= 2,
    ensures
        resolve(args, true) is Ok,
        !resolve(args, true)->Ok_0.case_sensitive,
{
}

/// The flag `-i` turns regard to case off, whatever the environment says.
pub proof fn flag_turns_case_off(args: Seq<Seq<char>>, env_insensitive: bool)
    requires
        args.len() >= 2,
        flag_given(args, "-i"@),
    ensures
        resolve(args, env_insensitive) is Ok,
        !resolve(args, env_insensitive)->Ok_0.case_sensitive,
{
}

} // verus!
