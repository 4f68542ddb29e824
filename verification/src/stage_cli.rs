//! The command line of the stage tool: `parse FILE` or `build FILE`, with
//! an optional output name, stage file type and verbosity.
use vstd::prelude::*;
use getopts::{Fail, Matches, Options};
use crate::paths::path_with_extension;
use crate::stage::StageFileKind;
use crate::nest::strings_view;
use crate::text::{chars_eq, str_chars};

verus! {

/// `getopts::Options`, the option table the command line is parsed by; its
/// groups are named by `option_groups`.
#[verifier::external_type_specification]
#[verifier::external_body]
pub struct ExOptions(Options);

/// `getopts::Matches`, the outcome of a parse; the names it can be asked
/// about are named by `matched_names`.
#[verifier::external_type_specification]
#[verifier::external_body]
pub struct ExMatches(Matches);

/// `getopts::Fail`, why a parse failed; carried through as it is.
#[verifier::external_type_specification]
#[verifier::external_body]
pub struct ExFail(Fail);

/// The option groups of a `getopts::Options`, in the order they were added:
/// each group's short name, long name, and whether it takes a value.
pub uninterp spec fn option_groups(o: Options) -> Seq<(Seq<char>, Seq<char>, bool)>;

/// Whether a `getopts::Options` parses in getopts' default way (free
/// arguments may stand among the options; a long option needs `--`), as
/// `Options::new` sets it.
pub uninterp spec fn options_floating(o: Options) -> bool;

/// Whether every option group of a `getopts::Options` is an optional
/// option that may be given at most once and either always or never takes a
/// value, as `optopt` and `optflag` add them.
pub uninterp spec fn options_plain(o: Options) -> bool;

/// What `getopts::Options::parse` gives for options with the groups `groups`
/// (each optional, given at most once, and parsed in the default way) on the arguments `args`: `None` where it
/// fails, else the names of the options given, the first value given to each
/// option that took one, and the free arguments.
pub uninterp spec fn getopts_parse(
    groups: Seq<(Seq<char>, Seq<char>, bool)>,
    args: Seq<Seq<char>>,
) -> Option<(Set<Seq<char>>, Map<Seq<char>, Seq<char>>, Seq<Seq<char>>)>;

/// The option names that a `getopts::Matches` can be asked about without a
/// panic: those defined by the options that parsed it.
pub uninterp spec fn matched_names(m: Matches) -> Set<Seq<char>>;

/// The option names that a `getopts::Matches` holds as given (both names of
/// an option given under either).
pub uninterp spec fn matched_given(m: Matches) -> Set<Seq<char>>;

/// The first value that a `getopts::Matches` holds for each option name
/// whose option was given a value.
pub uninterp spec fn matched_values(m: Matches) -> Map<Seq<char>, Seq<char>>;

/// The free arguments that a `getopts::Matches` holds.
pub uninterp spec fn matched_free(m: Matches) -> Seq<Seq<char>>;

/// A name that `getopts` accepts: ASCII, a short name of at most one
/// character, a long name of none or more than one.
pub open spec fn group_ok(g: (Seq<char>, Seq<char>, bool)) -> bool {
    &&& g.0.len() > 0 || g.1.len() > 0
    &&& vstd::utf8::is_ascii_chars(g.0) && g.0.len() <= 1
    &&& vstd::utf8::is_ascii_chars(g.1) && g.1.len() != 1
}

/// The names the option groups define: their non-empty short and long names.
pub open spec fn group_names(gs: Seq<(Seq<char>, Seq<char>, bool)>) -> Set<Seq<char>> {
    Set::new(
        |n: Seq<char>|
            n.len() > 0 && exists|i: int| 0 <= i < gs.len() && (#[trigger] gs[i].0 == n || gs[i].1 == n),
    )
}

/// `getopts::Options::new`: a set of options with no option in it, parsing
/// in the default way.
#[verifier::external_body]
fn new_options() -> (r: Options)
    ensures
        option_groups(r) == Seq::<(Seq<char>, Seq<char>, bool)>::empty(),
        options_floating(r),
        options_plain(r),
{
    Options::new()
}

/// `getopts::Options::optopt`: adds an option that takes a value, with the
/// short and long name given; it panics on a short name of more than one
/// byte or a long name of exactly one.
#[verifier::external_body]
fn add_optopt(o: &mut Options, short: &str, long: &str, desc: &str, hint: &str)
    requires
        short.is_ascii(),
        short@.len() <= 1,
        long.is_ascii(),
        long@.len() != 1,
    ensures
        option_groups(*final(o)) == option_groups(*old(o)).push((short@, long@, true)),
        options_floating(*final(o)) == options_floating(*old(o)),
        options_plain(*final(o)) == options_plain(*old(o)),
{
    o.optopt(short, long, desc, hint);
}

/// `getopts::Options::optflag`: adds a flag, with the short and long name
/// given; it panics on the same names as `optopt`.
#[verifier::external_body]
fn add_optflag(o: &mut Options, short: &str, long: &str, desc: &str)
    requires
        short.is_ascii(),
        short@.len() <= 1,
        long.is_ascii(),
        long@.len() != 1,
    ensures
        option_groups(*final(o)) == option_groups(*old(o)).push((short@, long@, false)),
        options_floating(*final(o)) == options_floating(*old(o)),
        options_plain(*final(o)) == options_plain(*old(o)),
{
    o.optflag(short, long, desc);
}

/// `getopts::Options::parse`: a function of the option groups and the
/// arguments, named `getopts_parse`; on success, matches that can be asked
/// about each name the options define and that hold what `getopts_parse`
/// gives. Which failure comes is not stated.
#[verifier::external_body]
fn parse_options(o: &Options, args: &[String]) -> (r: Result<Matches, Fail>)
    requires
        forall|i: int| 0 <= i < option_groups(*o).len() ==> group_ok(#[trigger] option_groups(*o)[i]),
        options_floating(*o),
        options_plain(*o),
    ensures
        match r {
            Ok(m) => {
                &&& matched_names(m) == group_names(option_groups(*o))
                &&& getopts_parse(option_groups(*o), strings_view(args@)) == Some(
                    (matched_given(m), matched_values(m), matched_free(m)),
                )
            },
            Err(_) => getopts_parse(option_groups(*o), strings_view(args@)) is None,
        },
{
    o.parse(args)
}

/// `getopts::Matches::opt_present`: whether the option was given; it panics
/// on a name that no option has.
#[verifier::external_body]
fn opt_present(m: &Matches, name: &str) -> (r: bool)
    requires
        name.is_ascii(),
        matched_names(*m).contains(name@),
    ensures
        r == matched_given(*m).contains(name@),
{
    m.opt_present(name)
}

/// `getopts::Matches::opt_str`: the first value given to the option, if
/// any; it panics on a name that no option has.
#[verifier::external_body]
fn opt_str(m: &Matches, name: &str) -> (r: Option<String>)
    requires
        name.is_ascii(),
        matched_names(*m).contains(name@),
    ensures
        match r {
            Some(v) => matched_values(*m).contains_key(name@) && matched_values(*m)[name@] == v@,
            None => !matched_values(*m).contains_key(name@),
        },
{
    m.opt_str(name)
}

/// The field `getopts::Matches::free`: the arguments that are no option.
#[verifier::external_body]
fn free_args(m: &Matches) -> (r: Vec<String>)
    ensures
        strings_view(r@) == matched_free(*m),
{
    m.free.clone()
}

/// The option groups of the stage tool: `-o/--output NAME`, `-t/--type TYPE`,
/// `-h/--help`, `--verbose` and `-V/--version`.
pub open spec fn stage_groups() -> Seq<(Seq<char>, Seq<char>, bool)> {
    seq![
        (seq!['o'], seq!['o', 'u', 't', 'p', 'u', 't'], true),
        (seq!['t'], seq!['t', 'y', 'p', 'e'], true),
        (seq!['h'], seq!['h', 'e', 'l', 'p'], false),
        (Seq::empty(), seq!['v', 'e', 'r', 'b', 'o', 's', 'e'], false),
        (seq!['V'], seq!['v', 'e', 'r', 's', 'i', 'o', 'n'], false),
    ]
}

/// The options of the stage tool.
pub fn cli_options() -> (r: Options)
    ensures
        option_groups(r) == stage_groups(),
        options_floating(r),
        options_plain(r),
{
    proof {
        reveal_strlit("o");
        reveal_strlit("output");
        reveal_strlit("t");
        reveal_strlit("type");
        reveal_strlit("h");
        reveal_strlit("help");
        reveal_strlit("");
        reveal_strlit("verbose");
        reveal_strlit("V");
        reveal_strlit("version");
    }
    let mut opts = new_options();
    add_optopt(&mut opts, "o", "output", "set name of output file", "NAME");
    add_optopt(
        &mut opts,
        "t",
        "type",
        "manually set the type of stage file when parsing\n\
        Either \"no-item\" or \"item\"",
        "TYPE",
    );
    add_optflag(&mut opts, "h", "help", "print this help menu");
    add_optflag(&mut opts, "", "verbose", "print additional information to the console");
    add_optflag(&mut opts, "V", "version", "print version information");
    assert(option_groups(opts) =~~= stage_groups());
    opts
}

/// What the stage tool was asked, read from its command line.
#[derive(Debug)]
pub struct CliArgs {
    pub help: bool,
    pub version: bool,
    pub verbose: bool,
    pub output: Option<String>,
    pub kind: Option<String>,
    pub free: Vec<String>,
}

/// Why the tool prints help in place of doing any work.
#[derive(Debug)]
pub enum HelpTopic {
    /// `--help` was given.
    Usage,
    /// `--version` was given.
    Version,
    /// The subcommand or the file is missing.
    MissingFile { no_subcommand: bool },
    /// The subcommand is neither `parse` nor `build`.
    UnknownSubcommand(String),
}

/// What the stage tool is to do.
#[derive(Debug)]
pub enum Config {
    /// Read a stage binary into JSON.
    Parse { input: String, output: String, kind: Option<StageFileKind>, verbose: bool },
    /// Write a stage binary from JSON.
    Build { input: String, output: String, verbose: bool },
    /// Print help.
    Help(HelpTopic),
}

impl Config {
    pub fn is_verbose(&self) -> (r: bool)
        ensures
            r == match self {
                Config::Parse { verbose, .. } => *verbose,
                Config::Build { verbose, .. } => *verbose,
                Config::Help(_) => false,
            },
    {
        match self {
            Config::Parse { verbose: true, .. } => true,
            Config::Build { verbose: true, .. } => true,
            _ => false,
        }
    }
}

/// Why the command line could not be read.
#[derive(Debug)]
pub enum ArgsError {
    /// Not even the program name was given.
    NoArgs,
    /// The options could not be parsed.
    Options(Fail),
}

/// What the stage tool was asked, as plain values.
pub struct ArgsView {
    pub help: bool,
    pub version: bool,
    pub verbose: bool,
    pub output: Option<Seq<char>>,
    pub kind: Option<Seq<char>>,
    pub free: Seq<Seq<char>>,
}

pub open spec fn opt_view(o: Option<String>) -> Option<Seq<char>> {
    match o {
        Some(s) => Some(s@),
        None => None,
    }
}

pub open spec fn cli_view(a: CliArgs) -> ArgsView {
    ArgsView {
        help: a.help,
        version: a.version,
        verbose: a.verbose,
        output: opt_view(a.output),
        kind: opt_view(a.kind),
        free: strings_view(a.free@),
    }
}

/// The value of an option in parsed values, if it has one.
pub open spec fn value_of(values: Map<Seq<char>, Seq<char>>, name: Seq<char>) -> Option<Seq<char>> {
    if values.contains_key(name) {
        Some(values[name])
    } else {
        None
    }
}

/// What the stage tool was asked, from what getopts parsed: `-h`, `-V`,
/// `--verbose`, the values of `-o` and `-t`, and the free arguments.
pub open spec fn parsed_args(
    p: (Set<Seq<char>>, Map<Seq<char>, Seq<char>>, Seq<Seq<char>>),
) -> ArgsView {
    ArgsView {
        help: p.0.contains(seq!['h']),
        version: p.0.contains(seq!['V']),
        verbose: p.0.contains(seq!['v', 'e', 'r', 'b', 'o', 's', 'e']),
        output: value_of(p.1, seq!['o']),
        kind: value_of(p.1, seq!['t']),
        free: p.2,
    }
}

/// The stage file type named by `-t`: `no-item` or `item`.
pub open spec fn kind_named(t: Option<Seq<char>>) -> Option<StageFileKind> {
    match t {
        Some(v) => if v == seq!['n', 'o', '-', 'i', 't', 'e', 'm'] {
            Some(StageFileKind::NoItem)
        } else if v == seq!['i', 't', 'e', 'm'] {
            Some(StageFileKind::Item)
        } else {
            None
        },
        None => None,
    }
}

/// The output file: the one named, else the input with the extension `ext`.
pub open spec fn output_named(input: Seq<char>, output: Option<Seq<char>>, ext: Seq<char>) -> Seq<
    char,
> {
    match output {
        Some(o) => o,
        None => path_with_extension(input, ext),
    }
}

/// What the command line `a` asks the stage tool to do: help where asked
/// for, or where the subcommand or file is missing or the subcommand is
/// unknown; else `parse` (output defaulting to `.json`) or `build` (output
/// defaulting to `.bin`).
pub open spec fn config_spec(a: ArgsView, c: Config) -> bool {
    if a.help {
        c matches Config::Help(HelpTopic::Usage)
    } else if a.version {
        c matches Config::Help(HelpTopic::Version)
    } else if a.free.len() < 2 {
        c matches Config::Help(HelpTopic::MissingFile { no_subcommand }) && no_subcommand == (
        a.free.len() == 0)
    } else {
        let sub = a.free[0];
        let input = a.free[1];
        if sub == seq!['p', 'a', 'r', 's', 'e'] {
            c matches Config::Parse { input: i, output: o, kind: k, verbose: v } && i@ == input
                && o@ == output_named(input, a.output, seq!['j', 's', 'o', 'n']) && k == kind_named(
                a.kind,
            ) && v == a.verbose
        } else if sub == seq!['b', 'u', 'i', 'l', 'd'] {
            c matches Config::Build { input: i, output: o, verbose: v } && i@ == input && o@
                == output_named(input, a.output, seq!['b', 'i', 'n']) && v == a.verbose
        } else {
            c matches Config::Help(HelpTopic::UnknownSubcommand(s)) && s@ == sub
        }
    }
}

/// Whether the string is the word.
fn is_word(s: &String, w: &[char]) -> (r: bool)
    ensures
        r == (s@ == w@),
{
    let c = str_chars(s.as_str());
    chars_eq(c.as_slice(), w)
}

/// What the command line asks the stage tool to do (see `config_spec`).
pub fn config_of(a: CliArgs) -> (r: Config)
    ensures
        config_spec(cli_view(a), r),
{
    if a.help {
        return Config::Help(HelpTopic::Usage);
    }
    if a.version {
        return Config::Help(HelpTopic::Version);
    }
    if a.free.len() < 2 {
        return Config::Help(HelpTopic::MissingFile { no_subcommand: a.free.len() == 0 });
    }
    let subcmd = &a.free[0];
    let input = a.free[1].clone();
    let parse_word = ['p', 'a', 'r', 's', 'e'];
    let build_word = ['b', 'u', 'i', 'l', 'd'];
    assert(parse_word@ =~= seq!['p', 'a', 'r', 's', 'e']);
    assert(build_word@ =~= seq!['b', 'u', 'i', 'l', 'd']);
    if is_word(subcmd, &parse_word) {
        let output = match &a.output {
            Some(o) => o.clone(),
            None => {
                proof {
                    reveal_strlit("json");
                }
                assert("json"@ =~= seq!['j', 's', 'o', 'n']);
                proof {
                    crate::paths::lemma_plain_extension("json"@);
                }
                crate::paths::output_path(input.as_str(), None, "json")
            },
        };
        let no_item = ['n', 'o', '-', 'i', 't', 'e', 'm'];
        let item = ['i', 't', 'e', 'm'];
        assert(no_item@ =~= seq!['n', 'o', '-', 'i', 't', 'e', 'm']);
        assert(item@ =~= seq!['i', 't', 'e', 'm']);
        let kind = match &a.kind {
            Some(val) => if is_word(val, &no_item) {
                Some(StageFileKind::NoItem)
            } else if is_word(val, &item) {
                Some(StageFileKind::Item)
            } else {
                None
            },
            None => None,
        };
        Config::Parse { input, output, kind, verbose: a.verbose }
    } else if is_word(subcmd, &build_word) {
        let output = match &a.output {
            Some(o) => o.clone(),
            None => {
                proof {
                    reveal_strlit("bin");
                }
                assert("bin"@ =~= seq!['b', 'i', 'n']);
                proof {
                    crate::paths::lemma_plain_extension("bin"@);
                }
                crate::paths::output_path(input.as_str(), None, "bin")
            },
        };
        Config::Build { input, output, verbose: a.verbose }
    } else {
        Config::Help(HelpTopic::UnknownSubcommand(subcmd.clone()))
    }
}

/// The names the stage tool asks the parsed options about.
proof fn lemma_stage_names()
    ensures
        forall|i: int| 0 <= i < stage_groups().len() ==> group_ok(#[trigger] stage_groups()[i]),
        group_names(stage_groups()).contains(seq!['h']),
        group_names(stage_groups()).contains(seq!['V']),
        group_names(stage_groups()).contains(seq!['v', 'e', 'r', 'b', 'o', 's', 'e']),
        group_names(stage_groups()).contains(seq!['o']),
        group_names(stage_groups()).contains(seq!['t']),
{
    let g = stage_groups();
    assert(g[0].0 == seq!['o']);
    assert(g[1].0 == seq!['t']);
    assert(g[2].0 == seq!['h']);
    assert(g[3].0 == Seq::<char>::empty());
    assert(g[3].1 == seq!['v', 'e', 'r', 'b', 'o', 's', 'e']);
    assert(g[4].0 == seq!['V']);
}

/// Reads the stage tool's command line (the program name first): an error
/// where it is empty or getopts cannot parse the rest with the tool's
/// options, else what the parsed options ask for (see `config_spec`).
pub fn parse_args(args: &[String]) -> (r: Result<Config, ArgsError>)
    ensures
        args@.len() == 0 <==> r matches Err(ArgsError::NoArgs),
        args@.len() > 0 ==> match getopts_parse(stage_groups(), strings_view(args@).drop_first()) {
            None => r matches Err(ArgsError::Options(_)),
            Some(p) => r matches Ok(c) && config_spec(parsed_args(p), c),
        },
{
    if args.len() == 0 {
        return Err(ArgsError::NoArgs);
    }
    let (_, rest) = args.split_at(1);
    assert(strings_view(rest@) =~= strings_view(args@).drop_first());
    let opts = cli_options();
    proof {
        lemma_stage_names();
    }
    let matches = match parse_options(&opts, rest) {
        Ok(m) => m,
        Err(f) => {
            return Err(ArgsError::Options(f));
        },
    };
    proof {
        reveal_strlit("h");
        reveal_strlit("V");
        reveal_strlit("verbose");
        reveal_strlit("o");
        reveal_strlit("t");
    }
    assert("h"@ =~= seq!['h']);
    assert("V"@ =~= seq!['V']);
    assert("verbose"@ =~= seq!['v', 'e', 'r', 'b', 'o', 's', 'e']);
    assert("o"@ =~= seq!['o']);
    assert("t"@ =~= seq!['t']);
    let a = CliArgs {
        help: opt_present(&matches, "h"),
        version: opt_present(&matches, "V"),
        verbose: opt_present(&matches, "verbose"),
        output: opt_str(&matches, "o"),
        kind: opt_str(&matches, "t"),
        free: free_args(&matches),
    };
    Ok(config_of(a))
}

} // verus!
