//! The command-line surface: the option table, and what `getopts` is trusted
//! to do with it.

use getopts::{Fail, Matches, Options};
use vstd::prelude::*;

verus! {

/// `getopts::Options`, a table of option definitions.
#[verifier::external_type_specification]
#[verifier::external_body]
pub struct ExOptions(getopts::Options);

/// `getopts::Matches`, what parsing a command line gave.
#[verifier::external_type_specification]
#[verifier::external_body]
pub struct ExMatches(getopts::Matches);

/// `getopts::Fail`, why a command line was refused.
#[verifier::external_type_specification]
#[verifier::external_body]
pub struct ExFail(getopts::Fail);

/// The short and the long name of each definition in a table, in the order in
/// which they were added.
pub uninterp spec fn option_names(opts: Options) -> Seq<(Seq<char>, Seq<char>)>;

/// Whether each definition in a table takes an argument, in the same order.
pub uninterp spec fn option_takes_value(opts: Options) -> Seq<bool>;

/// The word that stands for the argument of each definition in a table, in
/// the same order; empty for a definition without argument.
pub uninterp spec fn option_hints(opts: Options) -> Seq<Seq<char>>;

/// What reading a command line against a table comes to.
pub uninterp spec fn parse_outcome(opts: Options, args: Seq<Seq<char>>) -> Result<Matches, Fail>;

/// Whether a parse result knows an option of the given name.
pub uninterp spec fn defines(m: Matches, name: Seq<char>) -> bool;

/// Whether the option of the given name was on the command line.
pub uninterp spec fn given(m: Matches, name: Seq<char>) -> bool;

/// The arguments of the command line that are no options, in order.
pub uninterp spec fn free_strings(m: Matches) -> Seq<Seq<char>>;

/// The words in which a refusal is reported.
pub uninterp spec fn fail_text(f: Fail) -> Seq<char>;

/// The texts of a list of strings.
pub open spec fn texts_of(names: Seq<String>) -> Seq<Seq<char>> {
    Seq::new(names.len(), |i: int| names[i]@)
}

/// Whether the table knows the option `name` and the command line gave it.
pub open spec fn asked(m: Matches, name: Seq<char>) -> bool {
    defines(m, name) && given(m, name)
}

/// The usage message that a table gives under a heading.
pub uninterp spec fn usage_text(opts: Options, brief: Seq<char>) -> Seq<char>;

/// Whether `short` and `long` can name one option: at most one ASCII
/// character for the short name, no single character for the long one, and
/// not both empty.
pub open spec fn names_allowed(short: Seq<char>, long: Seq<char>) -> bool {
    &&& short.len() == 0 || (short.len() == 1 && (short[0] as u32) < 0x80)
    &&& long.len() != 1
    &&& short.len() + long.len() > 0
}

/// Whether every definition of the table has a name.
pub open spec fn all_named(names: Seq<(Seq<char>, Seq<char>)>) -> bool {
    forall|i: int| 0 <= i < names.len() ==> (#[trigger] names[i]).0.len() + names[i].1.len() > 0
}

/// `Options::new` gives a table without definitions.
pub assume_specification[ Options::new ]() -> (r: Options)
    ensures
        option_names(r) == Seq::<(Seq<char>, Seq<char>)>::empty(),
        option_takes_value(r) == Seq::<bool>::empty(),
        option_hints(r) == Seq::<Seq<char>>::empty(),
;

/// `Options::optflag` adds one definition, of an option that takes no
/// argument and has an empty hint, at the end of the table. It panics on a
/// short name longer than one byte and on a long name of one byte, which
/// `requires` leaves out.
#[verifier::external_body]
pub(crate) fn add_flag(opts: &mut Options, short: &str, long: &str, desc: &str)
    requires
        names_allowed(short@, long@),
    ensures
        option_names(*final(opts)) == option_names(*old(opts)).push((short@, long@)),
        option_takes_value(*final(opts)) == option_takes_value(*old(opts)).push(false),
        option_hints(*final(opts)) == option_hints(*old(opts)).push(Seq::<char>::empty()),
{
    opts.optflag(short, long, desc);
}

/// `Options::optopt` adds one definition, of an option that takes an
/// argument, with the given hint, at the end of the table. It panics on the
/// same names as `Options::optflag`.
#[verifier::external_body]
pub(crate) fn add_option(opts: &mut Options, short: &str, long: &str, desc: &str, hint: &str)
    requires
        names_allowed(short@, long@),
    ensures
        option_names(*final(opts)) == option_names(*old(opts)).push((short@, long@)),
        option_takes_value(*final(opts)) == option_takes_value(*old(opts)).push(true),
        option_hints(*final(opts)) == option_hints(*old(opts)).push(hint@),
{
    opts.optopt(short, long, desc, hint);
}

/// `Options::parse` reads a command line against the table. It panics on a
/// definition without any name, which `requires` leaves out. What it returns
/// depends on the table and the arguments alone, and is only named.
#[verifier::external_body]
pub(crate) fn parse_args(opts: &Options, args: &Vec<String>) -> (r: Result<Matches, Fail>)
    requires
        all_named(option_names(*opts)),
    ensures
        r == parse_outcome(*opts, texts_of(args@)),
{
    opts.parse(args)
}

/// `Matches::opt_defined` says whether the parse result knows the name.
#[verifier::external_body]
pub(crate) fn opt_defined(m: &Matches, name: &str) -> (r: bool)
    ensures
        r == defines(*m, name@),
{
    m.opt_defined(name)
}

/// `Matches::opt_present` says whether the option was given. It panics on a
/// name that the parse result does not know, which `requires` leaves out.
#[verifier::external_body]
pub(crate) fn opt_present(m: &Matches, name: &str) -> (r: bool)
    requires
        defines(*m, name@),
    ensures
        r == given(*m, name@),
{
    m.opt_present(name)
}

/// The field `free` of `Matches`: the arguments that are no options, copied.
#[verifier::external_body]
pub(crate) fn free_args(m: &Matches) -> (r: Vec<String>)
    ensures
        texts_of(r@) == free_strings(*m),
{
    m.free.clone()
}

/// `Options::usage` writes the usage message of the table under a heading.
#[verifier::external_body]
pub(crate) fn usage(opts: &Options, brief: &str) -> (r: String)
    ensures
        r@ == usage_text(*opts, brief@),
{
    opts.usage(brief)
}

/// The `Display` text of a `Fail`.
#[verifier::external_body]
pub(crate) fn fail_message(f: &Fail) -> (r: String)
    ensures
        r@ == fail_text(*f),
{
    f.to_string()
}

/// The names of the tool's own option table.
pub open spec fn standard_names() -> Seq<(Seq<char>, Seq<char>)> {
    seq![
        (""@, "files0-from"@),
        ("c"@, "bytes"@),
        ("m"@, "chars"@),
        ("l"@, "lines"@),
        ("L"@, "max-line-length"@),
        ("w"@, "words"@),
        ("h"@, "help"@),
    ]
}

/// Which definitions of the tool's own option table take an argument:
/// `--files0-from` alone.
pub open spec fn standard_takes_value() -> Seq<bool> {
    seq![true, false, false, false, false, false, false]
}

/// The hints of the tool's own option table: `F` for the argument of
/// `--files0-from`.
pub open spec fn standard_hints() -> Seq<Seq<char>> {
    seq![
        "F"@,
        Seq::<char>::empty(),
        Seq::<char>::empty(),
        Seq::<char>::empty(),
        Seq::<char>::empty(),
        Seq::<char>::empty(),
        Seq::<char>::empty(),
    ]
}

/// The tool's own option table: `--files0-from`, which takes an argument, and
/// the six flags, which take none.
pub fn parse_opt() -> (opts: Options)
    ensures
        option_names(opts) == standard_names(),
        option_takes_value(opts) == standard_takes_value(),
        option_hints(opts) == standard_hints(),
        all_named(option_names(opts)),
{
    let mut opts = Options::new();
    proof {
        reveal_strlit("");
        reveal_strlit("files0-from");
        reveal_strlit("c");
        reveal_strlit("bytes");
        reveal_strlit("m");
        reveal_strlit("chars");
        reveal_strlit("l");
        reveal_strlit("lines");
        reveal_strlit("L");
        reveal_strlit("max-line-length");
        reveal_strlit("w");
        reveal_strlit("words");
        reveal_strlit("h");
        reveal_strlit("help");
    }
    add_option(
        &mut opts,
        "",
        "files0-from",
        "read input from the files specified by\n\tNUL-terminated names in file F;\n\tIf F is - then read names from standard input",
        "F",
    );
    add_flag(&mut opts, "c", "bytes", " print the byte counts");
    add_flag(&mut opts, "m", "chars", "print the character counts");
    add_flag(&mut opts, "l", "lines", "print the newline counts");
    add_flag(&mut opts, "L", "max-line-length", "print the maximum display width");
    add_flag(&mut opts, "w", "words", " print the word counts");
    add_flag(&mut opts, "h", "help", "print this help menu");
    proof {
        assert(option_names(opts) =~= standard_names());
        assert(option_takes_value(opts) =~= standard_takes_value());
        assert(option_hints(opts) =~= standard_hints());
    }
    opts
}

/// Whether the option `name` was given, where the table knows it at all.
pub fn flag_given(m: &Matches, name: &str) -> (r: bool)
    ensures
        r == asked(*m, name@),
{
    if opt_defined(m, name) {
        opt_present(m, name)
    } else {
        false
    }
}

} // verus!
