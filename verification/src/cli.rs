//! Command-line options.

use vstd::prelude::*;

verus! {

/// The options given on the command line.
pub struct CliArgs {
    pub log_to_file: bool,
    pub is_background: bool,
    pub show_help: bool,
}

impl Default for CliArgs {
    fn default() -> (r: Self)
        ensures
            !r.log_to_file,
            !r.is_background,
            !r.show_help,
    {
        CliArgs { log_to_file: false, is_background: false, show_help: false }
    }
}

/// Why the command line was refused.
pub enum CliError {
    /// The first argument that is none of the known options.
    UnknownArgument(String),
}

/// `-b` / `--background`: run in the background (this also logs to the file).
pub open spec fn is_background_flag(a: Seq<char>) -> bool {
    a == "-b"@ || a == "--background"@
}

/// `-l` / `--log_file`: log to the file.
pub open spec fn is_log_file_flag(a: Seq<char>) -> bool {
    a == "-l"@ || a == "--log_file"@
}

/// `-h` / `--help`: show the help text.
pub open spec fn is_help_flag(a: Seq<char>) -> bool {
    a == "-h"@ || a == "--help"@
}

pub open spec fn is_known_flag(a: Seq<char>) -> bool {
    is_background_flag(a) || is_log_file_flag(a) || is_help_flag(a)
}

/// The options of a command line: every argument but the program's own name.
pub open spec fn options_of(args: Seq<String>) -> Seq<Seq<char>> {
    args.skip(1).map_values(|s: String| s@)
}

pub open spec fn all_known(opts: Seq<Seq<char>>) -> bool {
    forall|i: int| 0 <= i < opts.len() ==> is_known_flag(#[trigger] opts[i])
}

/// Some option satisfies `flag`.
pub open spec fn has_flag(opts: Seq<Seq<char>>, flag: spec_fn(Seq<char>) -> bool) -> bool {
    exists|i: int| 0 <= i < opts.len() && flag(#[trigger] opts[i])
}

pub open spec fn background_option() -> spec_fn(Seq<char>) -> bool {
    |a: Seq<char>| is_background_flag(a)
}

pub open spec fn log_file_option() -> spec_fn(Seq<char>) -> bool {
    |a: Seq<char>| is_log_file_flag(a)
}

pub open spec fn help_option() -> spec_fn(Seq<char>) -> bool {
    |a: Seq<char>| is_help_flag(a)
}

pub open spec fn has_background(opts: Seq<Seq<char>>) -> bool {
    has_flag(opts, background_option())
}

pub open spec fn has_log_file(opts: Seq<Seq<char>>) -> bool {
    has_flag(opts, log_file_option())
}

pub open spec fn has_help(opts: Seq<Seq<char>>) -> bool {
    has_flag(opts, help_option())
}

/// No option of an empty list satisfies a flag.
pub proof fn lemma_has_flag_empty(flag: spec_fn(Seq<char>) -> bool)
    ensures
        !has_flag(Seq::<Seq<char>>::empty(), flag),
{
}

/// One more option satisfies `flag` exactly when it or an earlier one does.
pub proof fn lemma_has_flag_push(prefix: Seq<Seq<char>>, a: Seq<char>, flag: spec_fn(Seq<char>) -> bool)
    ensures
        has_flag(prefix.push(a), flag) == (has_flag(prefix, flag) || flag(a)),
{
    let next = prefix.push(a);
    if has_flag(next, flag) {
        let k = choose|k: int| 0 <= k < next.len() && flag(#[trigger] next[k]);
        if k < prefix.len() {
            assert(prefix[k] == next[k]);
        }
    }
    if has_flag(prefix, flag) {
        let k = choose|k: int| 0 <= k < prefix.len() && flag(#[trigger] prefix[k]);
        assert(prefix[k] == next[k]);
    }
    if flag(a) {
        assert(next[prefix.len() as int] == a);
    }
}

/// Option lists that hold the same options satisfy a flag alike.
proof fn lemma_has_flag_same_options(a: Seq<Seq<char>>, b: Seq<Seq<char>>, flag: spec_fn(Seq<char>) -> bool)
    requires
        forall|x: Seq<char>| a.contains(x) <==> b.contains(x),
    ensures
        has_flag(a, flag) == has_flag(b, flag),
{
    if has_flag(a, flag) {
        let k = choose|k: int| 0 <= k < a.len() && flag(#[trigger] a[k]);
        assert(a.contains(a[k]));
        let m = choose|m: int| 0 <= m < b.len() && b[m] == a[k];
        assert(flag(b[m]));
    }
    if has_flag(b, flag) {
        let k = choose|k: int| 0 <= k < b.len() && flag(#[trigger] b[k]);
        assert(b.contains(b[k]));
        let m = choose|m: int| 0 <= m < a.len() && a[m] == b[k];
        assert(flag(a[m]));
    }
}

/// `a` is the first option that is not a known one.
pub open spec fn is_first_unknown(opts: Seq<Seq<char>>, a: Seq<char>) -> bool {
    exists|i: int|
        0 <= i < opts.len() && !is_known_flag(#[trigger] opts[i]) && opts[i] == a && all_known(
            opts.take(i),
        )
}

/// The three kinds of option are spelled apart.
pub proof fn lemma_flags_distinct()
    ensures
        forall|a: Seq<char>| is_background_flag(a) ==> !is_log_file_flag(a) && !is_help_flag(a),
        forall|a: Seq<char>| is_log_file_flag(a) ==> !is_help_flag(a),
{
    reveal_strlit("-b");
    reveal_strlit("--background");
    reveal_strlit("-l");
    reveal_strlit("--log_file");
    reveal_strlit("-h");
    reveal_strlit("--help");
    assert("-b"@[1] != "-l"@[1]);
    assert("-b"@[1] != "-h"@[1]);
    assert("-l"@[1] != "-h"@[1]);
    assert("--background"@.len() != "--log_file"@.len());
    assert("--background"@.len() != "--help"@.len());
    assert("--log_file"@.len() != "--help"@.len());
}

/// The grammar knows six spellings, two for each option, and nothing else.
pub proof fn lemma_option_spellings(a: Seq<char>)
    ensures
        is_background_flag("-b"@) && is_background_flag("--background"@),
        is_log_file_flag("-l"@) && is_log_file_flag("--log_file"@),
        is_help_flag("-h"@) && is_help_flag("--help"@),
        is_known_flag(a) ==> a == "-b"@ || a == "--background"@ || a == "-l"@ || a
            == "--log_file"@ || a == "-h"@ || a == "--help"@,
{
}

/// At most one argument is the first unknown one: it is the unknown option
/// that comes before every other unknown option.
pub proof fn lemma_first_unknown_is_unique(opts: Seq<Seq<char>>, a: Seq<char>, b: Seq<char>)
    requires
        is_first_unknown(opts, a),
        is_first_unknown(opts, b),
    ensures
        a == b,
        !is_known_flag(a),
        !all_known(opts),
{
    let i = choose|i: int|
        0 <= i < opts.len() && !is_known_flag(#[trigger] opts[i]) && opts[i] == a && all_known(
            opts.take(i),
        );
    let j = choose|j: int|
        0 <= j < opts.len() && !is_known_flag(#[trigger] opts[j]) && opts[j] == b && all_known(
            opts.take(j),
        );
    if i < j {
        assert(opts.take(j)[i] == opts[i]);
    } else if j < i {
        assert(opts.take(i)[j] == opts[j]);
    }
}

/// Parses a command line `args`, whose first element is the program's name.
///
/// Each option sets its flag; `-b`/`--background` also sets logging to the file.
/// The first argument that is not a known option is refused.
pub fn parse_args(args: &Vec<String>) -> (r: Result<CliArgs, CliError>)
    requires
        args.len() >= 1,
    ensures
        r is Ok <==> all_known(options_of(args@)),
        r matches Ok(c) ==> {
            &&& c.is_background == has_background(options_of(args@))
            &&& c.log_to_file == (has_background(options_of(args@)) || has_log_file(
                options_of(args@),
            ))
            &&& c.show_help == has_help(options_of(args@))
            &&& c.is_background ==> c.log_to_file
        },
        r matches Err(CliError::UnknownArgument(a)) ==> is_first_unknown(options_of(args@), a@),
{
    let ghost opts = options_of(args@);
    let short_background = String::from_str("-b");
    let long_background = String::from_str("--background");
    let short_log_file = String::from_str("-l");
    let long_log_file = String::from_str("--log_file");
    let short_help = String::from_str("-h");
    let long_help = String::from_str("--help");
    let mut cli_args = CliArgs::default();
    let mut i: usize = 1;
    while i < args.len()
        invariant
            1 <= i <= args.len(),
            opts == options_of(args@),
            short_background@ == "-b"@,
            long_background@ == "--background"@,
            short_log_file@ == "-l"@,
            long_log_file@ == "--log_file"@,
            short_help@ == "-h"@,
            long_help@ == "--help"@,
            all_known(opts.take(i - 1)),
            cli_args.is_background == has_background(opts.take(i - 1)),
            cli_args.log_to_file == (has_background(opts.take(i - 1)) || has_log_file(
                opts.take(i - 1),
            )),
            cli_args.show_help == has_help(opts.take(i - 1)),
        decreases args.len() - i,
    {
        let arg = &args[i];
        let ghost prefix = opts.take(i - 1);
        let ghost next = opts.take(i as int);
        assert(opts[i - 1] == arg@);
        assert(next == prefix.push(arg@));
        proof {
            lemma_flags_distinct();
        }
        if *arg == short_background || *arg == long_background {
            cli_args.is_background = true;
            cli_args.log_to_file = true;
            assert(is_background_flag(next[i - 1]));
        } else if *arg == short_log_file || *arg == long_log_file {
            cli_args.log_to_file = true;
            assert(is_log_file_flag(next[i - 1]));
        } else if *arg == short_help || *arg == long_help {
            cli_args.show_help = true;
            assert(is_help_flag(next[i - 1]));
        } else {
            return Err(CliError::UnknownArgument(arg.clone()));
        }
        proof {
            lemma_has_flag_push(prefix, arg@, background_option());
            lemma_has_flag_push(prefix, arg@, log_file_option());
            lemma_has_flag_push(prefix, arg@, help_option());
        }
        assert(all_known(next)) by {
            assert forall|k: int| 0 <= k < next.len() implies is_known_flag(#[trigger] next[k]) by {
                if k < i - 1 {
                    assert(prefix[k] == next[k]);
                }
            }
        }
        i = i + 1;
    }
    assert(opts.take(args.len() - 1) == opts);
    Ok(cli_args)
}

/// Options that hold the same arguments, in any order and with any
/// repetition, parse alike: both are accepted or both refused, and when
/// accepted they set the same flags.
pub proof fn lemma_parse_ignores_order_and_repetition(a: Seq<Seq<char>>, b: Seq<Seq<char>>)
    requires
        forall|x: Seq<char>| a.contains(x) <==> b.contains(x),
    ensures
        all_known(a) == all_known(b),
        has_background(a) == has_background(b),
        has_log_file(a) == has_log_file(b),
        has_help(a) == has_help(b),
{
    if all_known(a) {
        assert forall|k: int| 0 <= k < b.len() implies is_known_flag(#[trigger] b[k]) by {
            assert(b.contains(b[k]));
            assert(a.contains(b[k]));
        }
    }
    if all_known(b) {
        assert forall|k: int| 0 <= k < a.len() implies is_known_flag(#[trigger] a[k]) by {
            assert(a.contains(a[k]));
            assert(b.contains(a[k]));
        }
    }
    lemma_has_flag_same_options(a, b, background_option());
    lemma_has_flag_same_options(a, b, log_file_option());
    lemma_has_flag_same_options(a, b, help_option());
}

} // verus!
