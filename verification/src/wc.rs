//! The counter record of one source, the single pass that fills it, and the
//! rule by which two records combine.

use crate::text::{
    decode_scalar, lemma_counts_of_concat, lemma_decode_concat, is_white_space, is_whitespace_scalar, lemma_decode_step, lemma_decode_stuck,
    line_count, max_line_width, newline_count, open_line_width, scalar_width, word_count,
};
use crate::options::{
    all_named, asked, fail_message, fail_text, flag_given, free_args, free_strings, option_names,
    parse_args, parse_outcome, texts_of, usage, usage_text,
};
use getopts::Matches;
use crate::report::{decimal, decimal_len, push_char, push_field, result_line, Fields};
use getopts::Options;
use vstd::prelude::*;
use vstd::string::StringExecFns;
use vstd::utf8::*;

verus! {

/// The five counts of a record, as mathematical numbers.
pub ghost struct Counts {
    pub bytes: nat,
    pub chars: nat,
    pub lines: nat,
    pub words: nat,
    pub max_line_width: nat,
}

/// The record with every count at zero.
pub open spec fn zero_counts() -> Counts {
    Counts { bytes: 0, chars: 0, lines: 0, words: 0, max_line_width: 0 }
}

/// The counts of a well-formed UTF-8 stream.
pub open spec fn stream_counts(stream: Seq<u8>) -> Counts {
    let text = decode_utf8(stream);
    Counts {
        bytes: stream.len(),
        chars: text.len(),
        lines: line_count(text),
        words: word_count(text),
        max_line_width: max_line_width(text),
    }
}

/// Two records combined: the sums of the four counts, the larger of the two
/// widths.
pub open spec fn merge(a: Counts, b: Counts) -> Counts {
    Counts {
        bytes: a.bytes + b.bytes,
        chars: a.chars + b.chars,
        lines: a.lines + b.lines,
        words: a.words + b.words,
        max_line_width: if a.max_line_width >= b.max_line_width {
            a.max_line_width
        } else {
            b.max_line_width
        },
    }
}

/// Whether `c` can be the counts of a stream of `len` bytes: no more
/// characters, lines or words than bytes, and no line wider than eight columns
/// for each byte.
pub open spec fn within(c: Counts, len: nat) -> bool {
    &&& c.bytes == len
    &&& c.chars <= len
    &&& c.lines <= len
    &&& c.words <= len
    &&& c.max_line_width <= 8 * len
}

/// Whether `c` can be the combined counts of streams of `len` bytes in all.
pub open spec fn within_sum(c: Counts, len: nat) -> bool {
    &&& c.bytes <= len
    &&& c.chars <= len
    &&& c.lines <= len
    &&& c.words <= len
}

/// Combining is associative.
pub proof fn lemma_merge_associative(a: Counts, b: Counts, c: Counts)
    ensures
        merge(merge(a, b), c) == merge(a, merge(b, c)),
{
}

/// Combining is commutative.
pub proof fn lemma_merge_commutative(a: Counts, b: Counts)
    ensures
        merge(a, b) == merge(b, a),
{
}

/// A stream that is empty or ends its last line, followed by a second stream,
/// has the combined counts of the two: reading a stream line by line, or file
/// by file, gives what reading it as a whole gives.
pub proof fn lemma_stream_counts_of_concat(first: Seq<u8>, second: Seq<u8>)
    requires
        valid_utf8(first),
        valid_utf8(second),
        decode_utf8(first).len() == 0 || decode_utf8(first).last() == '\n',
    ensures
        valid_utf8(first + second),
        stream_counts(first + second) == merge(stream_counts(first), stream_counts(second)),
{
    lemma_decode_concat(first, second);
    lemma_counts_of_concat(decode_utf8(first), decode_utf8(second));
}

/// The counts of the encoding of a text are the counts of the text: as many
/// characters as the text has, and its lines, words and widest line.
pub proof fn lemma_stream_counts_of_text(text: Seq<char>)
    ensures
        valid_utf8(encode_utf8(text)),
        stream_counts(encode_utf8(text)) == (Counts {
            bytes: encode_utf8(text).len(),
            chars: text.len(),
            lines: line_count(text),
            words: word_count(text),
            max_line_width: max_line_width(text),
        }),
{
    encode_utf8_valid_utf8(text);
    encode_utf8_decode_utf8(text);
}

/// The record of zeros is neutral.
pub proof fn lemma_merge_zero(a: Counts)
    ensures
        merge(zero_counts(), a) == a,
        merge(a, zero_counts()) == a,
{
}

/// Why a source gave no record.
#[derive(Debug)]
pub enum WcError {
    /// The stream is not well-formed UTF-8.
    InvalidEncoding,
    /// The path names a directory.
    NotAFile,
    /// Opening or reading failed, with the reason in words.
    Io(String),
}

/// The counter record of one source.
#[derive(Debug, Clone)]
pub struct Wc {
    pub path: String,
    pub bytes: u64,
    pub chars: u64,
    pub lines: u64,
    pub words: u64,
    pub max_line_length: u64,
}

impl Default for Wc {
    /// A record of zeros under the empty name.
    fn default() -> (r: Self)
        ensures
            r.path@ == Seq::<char>::empty(),
            r.counts() == zero_counts(),
    {
        Wc::new()
    }
}

impl Wc {
    /// The counts of this record.
    pub open spec fn counts(&self) -> Counts {
        Counts {
            bytes: self.bytes as nat,
            chars: self.chars as nat,
            lines: self.lines as nat,
            words: self.words as nat,
            max_line_width: self.max_line_length as nat,
        }
    }

    /// Whether the counts of a stream of `len` more bytes fit the machine
    /// integers of this record.
    pub open spec fn has_room(&self, len: nat) -> bool {
        &&& self.bytes + len <= u64::MAX
        &&& self.chars + len <= u64::MAX
        &&& self.lines + len <= u64::MAX
        &&& self.words + len <= u64::MAX
        &&& 8 * len <= u64::MAX
    }

    /// Whether the counts of this record and of `rhs` combined fit the machine
    /// integers of a record.
    pub open spec fn can_take(&self, rhs: &Wc) -> bool {
        &&& self.bytes + rhs.bytes <= u64::MAX
        &&& self.chars + rhs.chars <= u64::MAX
        &&& self.lines + rhs.lines <= u64::MAX
        &&& self.words + rhs.words <= u64::MAX
    }

    /// A record of zeros under the given name.
    pub fn with_path(path: &str) -> (r: Self)
        ensures
            r.path@ == path@,
            r.counts() == zero_counts(),
    {
        Wc { path: path.to_owned(), bytes: 0, chars: 0, lines: 0, words: 0, max_line_length: 0 }
    }

    /// A record of zeros under the empty name, which stands for standard input.
    pub fn new() -> (r: Self)
        ensures
            r.path@ == Seq::<char>::empty(),
            r.counts() == zero_counts(),
    {
        let r = Self::with_path("");
        proof {
            reveal_strlit("");
            assert(r.path@ =~= Seq::<char>::empty());
        }
        r
    }

    /// This record combined with `rhs`, under this record's name.
    pub fn add(self, rhs: Wc) -> (r: Wc)
        requires
            self.can_take(&rhs),
        ensures
            r.counts() == merge(self.counts(), rhs.counts()),
            r.path == self.path,
    {
        Wc {
            path: self.path,
            bytes: self.bytes + rhs.bytes,
            chars: self.chars + rhs.chars,
            lines: self.lines + rhs.lines,
            words: self.words + rhs.words,
            max_line_length: if self.max_line_length >= rhs.max_line_length {
                self.max_line_length
            } else {
                rhs.max_line_length
            },
        }
    }

    /// Combines `rhs` into this record, whose name stays.
    pub fn add_assign(&mut self, rhs: &Wc)
        requires
            old(self).can_take(rhs),
        ensures
            final(self).counts() == merge(old(self).counts(), rhs.counts()),
            final(self).path == old(self).path,
    {
        self.bytes = self.bytes + rhs.bytes;
        self.chars = self.chars + rhs.chars;
        self.lines = self.lines + rhs.lines;
        self.words = self.words + rhs.words;
        if rhs.max_line_length > self.max_line_length {
            self.max_line_length = rhs.max_line_length;
        }
    }

    /// The report line of this record: the selected counts, each behind one
    /// space and right-aligned to `width`, then one space and the name.
    pub fn format_result(&self, fields: &Fields, width: usize) -> (r: String)
        ensures
            r@ == result_line(self.counts(), *fields, width as nat, self.path@),
    {
        let shown: Fields = fields.shown();
        let mut out: String = String::new();
        if shown.lines {
            push_field(&mut out, self.lines, width);
        }
        if shown.words {
            push_field(&mut out, self.words, width);
        }
        if shown.chars {
            push_field(&mut out, self.chars, width);
        }
        if shown.bytes {
            push_field(&mut out, self.bytes, width);
        }
        if shown.max_line_length {
            push_field(&mut out, self.max_line_length, width);
        }
        push_char(&mut out, ' ');
        out.append(self.path.as_str());
        out
    }

    /// Adds the counts of `stream` to this record in one forward pass.
    ///
    /// Succeeds exactly on well-formed UTF-8; on failure the record is left as
    /// it was.
    pub fn analyze(&mut self, stream: &[u8]) -> (r: Result<(), WcError>)
        requires
            old(self).has_room(stream@.len()),
        ensures
            r is Ok <==> valid_utf8(stream@),
            r is Ok ==> within(stream_counts(stream@), stream@.len()),
            r is Ok ==> final(self).counts() == merge(old(self).counts(), stream_counts(stream@)),
            r is Ok ==> final(self).path == old(self).path,
            r matches Err(e) ==> e is InvalidEncoding && *final(self) == *old(self),
    {
        let n: usize = stream.len();
        let mut i: usize = 0;
        let mut chars: u64 = 0;
        let mut newlines: u64 = 0;
        let mut words: u64 = 0;
        let mut open_width: u64 = 0;
        let mut widest: u64 = 0;
        let mut in_word: bool = false;
        let mut open_line: bool = false;
        let ghost mut text: Seq<char> = Seq::empty();
        proof {
            reveal_with_fuel(valid_utf8, 1);
            assert(stream@.subrange(0, 0) =~= Seq::<u8>::empty());
        }
        while i < n
            invariant
                n == stream@.len(),
                8 * n <= u64::MAX,
                self.has_room(n as nat),
                *self == *old(self),
                i <= n,
                valid_utf8(stream@.subrange(0, i as int)),
                text == decode_utf8(stream@.subrange(0, i as int)),
                chars == text.len(),
                chars <= i,
                newlines == newline_count(text),
                newlines + (if open_line { 1int } else { 0int }) <= i,
                words == word_count(text),
                words <= i,
                open_width == open_line_width(text),
                open_width <= 8 * i,
                widest == max_line_width(text),
                widest <= 8 * i,
                in_word == (text.len() > 0 && !is_white_space(text.last())),
                open_line == (text.len() > 0 && text.last() != '\n'),
            decreases n - i,
        {
            match decode_scalar(stream, i) {
                None => {
                    proof {
                        lemma_decode_stuck(stream@, i as int);
                    }
                    return Err(WcError::InvalidEncoding);
                },
                Some((v, k)) => {
                    proof {
                        lemma_decode_step(stream@, i as int);
                        let next = text.push(v as char);
                        assert(next.drop_last() =~= text);
                        assert(next.last() == v as char);
                        text = next;
                    }
                    let blank: bool = is_whitespace_scalar(v);
                    chars = chars + 1;
                    if !blank && !in_word {
                        words = words + 1;
                    }
                    in_word = !blank;
                    if v == 0x0A {
                        newlines = newlines + 1;
                        open_width = 0;
                        open_line = false;
                    } else {
                        open_width = open_width + scalar_width(v);
                        open_line = true;
                        if open_width > widest {
                            widest = open_width;
                        }
                    }
                    i = i + k;
                },
            }
        }
        proof {
            assert(stream@.subrange(0, i as int) =~= stream@);
        }
        let lines: u64 = if open_line { newlines + 1 } else { newlines };
        self.bytes = self.bytes + n as u64;
        self.chars = self.chars + chars;
        self.lines = self.lines + lines;
        self.words = self.words + words;
        if widest > self.max_line_length {
            self.max_line_length = widest;
        }
        Ok(())
    }
}

/// One piece of what a run writes.
#[derive(Debug)]
pub enum Emit {
    /// The usage message, written to standard output as it is.
    Usage(String),
    /// A report line for standard output.
    Out(String),
    /// A diagnostic line for the error channel.
    Diag(String),
}

/// An [`Emit`] as text.
pub ghost enum Line {
    Usage(Seq<char>),
    Out(Seq<char>),
    Diag(Seq<char>),
}

impl View for Emit {
    type V = Line;

    open spec fn view(&self) -> Line {
        match *self {
            Emit::Usage(s) => Line::Usage(s@),
            Emit::Out(s) => Line::Out(s@),
            Emit::Diag(s) => Line::Diag(s@),
        }
    }
}

/// The texts of a list of pieces.
pub open spec fn lines_of(out: Seq<Emit>) -> Seq<Line> {
    Seq::new(out.len(), |i: int| out[i]@)
}

/// The counts that a parsed command line selects: `-l` lines, `-w` words,
/// `-m` characters, `-c` bytes, `-L` the widest line.
pub open spec fn selection(m: Matches) -> Fields {
    Fields {
        lines: asked(m, "l"@),
        words: asked(m, "w"@),
        chars: asked(m, "m"@),
        bytes: asked(m, "c"@),
        max_line_length: asked(m, "L"@),
    }
}

/// The name under which the running total is reported.
pub open spec fn total_label() -> Seq<char> {
    "total"@
}

/// The reason that a diagnostic gives for an error.
pub open spec fn reason_text(e: WcError) -> Seq<char> {
    match e {
        WcError::InvalidEncoding => "stream did not contain valid UTF-8"@,
        WcError::NotAFile => "Is a directory"@,
        WcError::Io(s) => s@,
    }
}

/// The diagnostic line of a failed source: its name, a colon and a space, the
/// reason.
pub open spec fn diagnostic(name: Seq<char>, e: WcError) -> Seq<char> {
    name + ": "@ + reason_text(e)
}

/// The sources of a run: the named ones, or standard input alone, under the
/// empty name, where none is named.
pub open spec fn source_names(files: Seq<Seq<char>>) -> Seq<Seq<char>> {
    if files.len() == 0 {
        seq![Seq::<char>::empty()]
    } else {
        files
    }
}

/// What one source comes to: the counts of its stream, or why it has none.
pub open spec fn outcome(input: Result<Vec<u8>, WcError>) -> Result<Counts, WcError> {
    match input {
        Ok(stream) => if valid_utf8(stream@) {
            Ok(stream_counts(stream@))
        } else {
            Err(WcError::InvalidEncoding)
        },
        Err(e) => Err(e),
    }
}

/// The one line that a source gives: its report line, or its diagnostic.
pub open spec fn source_line(
    name: Seq<char>,
    input: Result<Vec<u8>, WcError>,
    fields: Fields,
    width: nat,
) -> Line {
    match outcome(input) {
        Ok(c) => Line::Out(result_line(c, fields, width, name)),
        Err(e) => Line::Diag(diagnostic(name, e)),
    }
}

/// The running total behind the given sources: the counts of those that
/// succeeded, combined in order.
pub open spec fn total_counts(inputs: Seq<Result<Vec<u8>, WcError>>) -> Counts
    decreases inputs.len(),
{
    if inputs.len() == 0 {
        zero_counts()
    } else {
        let before = total_counts(inputs.drop_last());
        match outcome(inputs.last()) {
            Ok(c) => merge(before, c),
            Err(_) => before,
        }
    }
}

/// Number of bytes in all the streams that were read.
pub open spec fn total_bytes(inputs: Seq<Result<Vec<u8>, WcError>>) -> nat
    decreases inputs.len(),
{
    if inputs.len() == 0 {
        0
    } else {
        total_bytes(inputs.drop_last()) + match inputs.last() {
            Ok(stream) => stream@.len(),
            Err(_) => 0nat,
        }
    }
}

/// Everything that a run over `files` writes, in order: one line for each
/// source, then the total where more than one source was given.
pub open spec fn report(
    files: Seq<Seq<char>>,
    inputs: Seq<Result<Vec<u8>, WcError>>,
    fields: Fields,
    width: nat,
) -> Seq<Line> {
    let names = source_names(files);
    Seq::new(names.len(), |i: int| source_line(names[i], inputs[i], fields, width)) + if names.len()
        > 1 {
        seq![Line::Out(result_line(total_counts(inputs), fields, width, total_label()))]
    } else {
        Seq::empty()
    }
}

/// Sum of the given file sizes.
pub open spec fn sum_of(sizes: Seq<u64>) -> nat
    decreases sizes.len(),
{
    if sizes.len() == 0 {
        0
    } else {
        sum_of(sizes.drop_last()) + sizes.last() as nat
    }
}

/// The heading of the usage message.
pub open spec fn brief_text(program: Seq<char>) -> Seq<char> {
    "Usage: "@ + program + " FILE [options]"@
}

/// A run without named sources writes what a run on standard input alone
/// writes.
pub proof fn lemma_no_source_is_standard_input(
    inputs: Seq<Result<Vec<u8>, WcError>>,
    fields: Fields,
    width: nat,
)
    ensures
        report(Seq::empty(), inputs, fields, width) == report(
            seq![Seq::<char>::empty()],
            inputs,
            fields,
            width,
        ),
{
}

/// A run on one source writes the line of that source and no total; a run on
/// two or more writes one line for each and the total as its last.
pub proof fn lemma_total_line(
    files: Seq<Seq<char>>,
    inputs: Seq<Result<Vec<u8>, WcError>>,
    fields: Fields,
    width: nat,
)
    ensures
        files.len() <= 1 ==> report(files, inputs, fields, width) == seq![
            source_line(source_names(files)[0], inputs[0], fields, width),
        ],
        files.len() >= 2 ==> {
            &&& report(files, inputs, fields, width).len() == files.len() + 1
            &&& report(files, inputs, fields, width).last() == Line::Out(
                result_line(total_counts(inputs), fields, width, total_label()),
            )
            &&& forall|i: int|
                0 <= i < files.len() ==> #[trigger] report(files, inputs, fields, width)[i]
                    == source_line(files[i], inputs[i], fields, width)
        },
{
    if files.len() <= 1 {
        assert(report(files, inputs, fields, width) =~= seq![
            source_line(source_names(files)[0], inputs[0], fields, width),
        ]);
    }
}

/// A source that failed leaves the running total as it was.
pub proof fn lemma_failure_keeps_total(
    inputs: Seq<Result<Vec<u8>, WcError>>,
    input: Result<Vec<u8>, WcError>,
)
    requires
        outcome(input) is Err,
    ensures
        total_counts(inputs.push(input)) == total_counts(inputs),
{
    assert(inputs.push(input).drop_last() =~= inputs);
}

/// The streams among the first `k` sources hold no more bytes than all of
/// them do.
pub proof fn lemma_total_bytes_prefix(inputs: Seq<Result<Vec<u8>, WcError>>, k: int)
    requires
        0 <= k <= inputs.len(),
    ensures
        total_bytes(inputs.take(k)) <= total_bytes(inputs),
    decreases inputs.len(),
{
    if k == inputs.len() {
        assert(inputs.take(k) =~= inputs);
    } else {
        lemma_total_bytes_prefix(inputs.drop_last(), k);
        assert(inputs.drop_last().take(k) =~= inputs.take(k));
    }
}

/// A command line that was refused, with the reason in words.
#[derive(Debug)]
pub struct BadOptions {
    pub message: String,
}

/// A run of the tool: what the command line asked for.
pub struct Rwc {
    pub program: String,
    pub opts: Options,
    pub fields: Fields,
    pub help: bool,
    pub files: Vec<String>,
    pub width: usize,
}

impl Rwc {
    /// Common column width: the number of decimal digits of the sum of the
    /// given file sizes.
    pub fn calc_width(sizes: &Vec<u64>) -> (r: usize)
        ensures
            r == decimal(sum_of(sizes@)).len(),
    {
        let mut sum: u128 = 0;
        let mut k: usize = 0;
        while k < sizes.len()
            invariant
                k <= sizes@.len(),
                sum == sum_of(sizes@.take(k as int)),
                sum <= k * u64::MAX,
            decreases sizes@.len() - k,
        {
            proof {
                assert(sizes@.take(k + 1).drop_last() =~= sizes@.take(k as int));
                assert(k * u64::MAX + u64::MAX == (k + 1) * u64::MAX) by (nonlinear_arith);
                assert((k + 1) * u64::MAX <= usize::MAX * u64::MAX) by (nonlinear_arith)
                    requires
                        k + 1 <= usize::MAX,
                ;
                assert(usize::MAX * u64::MAX <= u64::MAX * u64::MAX) by (nonlinear_arith);
            }
            sum = sum + sizes[k] as u128;
            k = k + 1;
        }
        proof {
            assert(sizes@.take(k as int) =~= sizes@);
        }
        decimal_len(sum)
    }

    /// The run that a parsed command line asks for, with the column width of
    /// a run without named files.
    pub fn from_parsed(
        program: String,
        opts: Options,
        fields: Fields,
        help: bool,
        files: Vec<String>,
    ) -> (r: Rwc)
        ensures
            r.program == program,
            r.opts == opts,
            r.fields == fields,
            r.help == help,
            r.files == files,
            r.width == decimal(0).len(),
            r.width == 1,
    {
        let sizes: Vec<u64> = Vec::new();
        let width = Self::calc_width(&sizes);
        Rwc { program, opts, fields, help, files, width }
    }

    /// Reads the command line `args` (without the program's name) against the
    /// table `opts`. What the options mean: `-l` lines, `-w` words, `-m`
    /// characters, `-c` bytes, `-L` widest line, `-h` the usage message.
    ///
    /// Whether a command line is accepted, and what it holds, is for
    /// `getopts` to say; an accepted one gives the run of [`Rwc::from_parsed`]
    /// on what it holds, a refused one the words of the refusal.
    pub fn with_opts(opts: Options, program: String, args: &Vec<String>) -> (r: Result<
        Rwc,
        BadOptions,
    >)
        requires
            all_named(option_names(opts)),
        ensures
            Self::reads(opts, program, args@, r),
    {
        match parse_args(&opts, args) {
            Err(f) => Err(BadOptions { message: fail_message(&f) }),
            Ok(m) => {
                let fields = Fields {
                    lines: flag_given(&m, "l"),
                    words: flag_given(&m, "w"),
                    chars: flag_given(&m, "m"),
                    bytes: flag_given(&m, "c"),
                    max_line_length: flag_given(&m, "L"),
                };
                let help = flag_given(&m, "h");
                let files = free_args(&m);
                Ok(Self::from_parsed(program, opts, fields, help, files))
            },
        }
    }

    /// Reads the command line against a table without any option.
    pub fn new(program: String, args: &Vec<String>) -> (r: Result<Rwc, BadOptions>)
        ensures
            exists|opts: Options|
                {
                    &&& option_names(opts) == Seq::<(Seq<char>, Seq<char>)>::empty()
                    &&& Self::reads(opts, program, args@, r)
                },
    {
        let opts = Options::new();
        let r = Self::with_opts(opts, program, args);
        proof {
            assert(Self::reads(opts, program, args@, r));
        }
        r
    }

    /// Whether `r` is what reading the command line `args` against the table
    /// `opts` comes to.
    pub open spec fn reads(
        opts: Options,
        program: String,
        args: Seq<String>,
        r: Result<Rwc, BadOptions>,
    ) -> bool {
        &&& r is Ok <==> parse_outcome(opts, texts_of(args)) is Ok
        &&& r matches Err(e) ==> e.message@ == fail_text(parse_outcome(opts, texts_of(args))->Err_0)
        &&& r matches Ok(run) ==> {
            let m = parse_outcome(opts, texts_of(args))->Ok_0;
            &&& run.program == program
            &&& run.opts == opts
            &&& run.fields == selection(m)
            &&& run.help == asked(m, "h"@)
            &&& run.file_names() == free_strings(m)
            &&& run.width == 1
        }
    }

    /// The names of the files of this run.
    pub open spec fn file_names(&self) -> Seq<Seq<char>> {
        texts_of(self.files@)
    }

    /// Sets the column width from the sizes of the named files.
    pub fn set_width(&mut self, sizes: &Vec<u64>)
        ensures
            final(self).width == decimal(sum_of(sizes@)).len(),
            final(self).program == old(self).program,
            final(self).opts == old(self).opts,
            final(self).fields == old(self).fields,
            final(self).help == old(self).help,
            final(self).files == old(self).files,
    {
        self.width = Self::calc_width(sizes);
    }

    /// The usage message of this run.
    pub fn usage_message(&self) -> (r: String)
        ensures
            r@ == usage_text(self.opts, brief_text(self.program@)),
    {
        let mut brief: String = String::new();
        brief.append("Usage: ");
        brief.append(self.program.as_str());
        brief.append(" FILE [options]");
        proof {
            assert(brief@ =~= brief_text(self.program@));
        }
        usage(&self.opts, brief.as_str())
    }

    /// The diagnostic line of a source that failed.
    pub fn diagnostic_line(name: &str, e: &WcError) -> (r: String)
        ensures
            r@ == diagnostic(name@, *e),
    {
        let mut line: String = String::new();
        line.append(name);
        line.append(": ");
        match e {
            WcError::InvalidEncoding => line.append("stream did not contain valid UTF-8"),
            WcError::NotAFile => line.append("Is a directory"),
            WcError::Io(s) => line.append(s.as_str()),
        }
        proof {
            assert(line@ =~= diagnostic(name@, *e));
        }
        line
    }

    /// The sources of this run, by name: the named files or, where none is
    /// named, standard input under the empty name.
    pub fn sources(&self) -> (r: Vec<String>)
        ensures
            texts_of(r@) == source_names(self.file_names()),
    {
        let mut r: Vec<String> = Vec::new();
        if self.files.len() == 0 {
            r.push(String::new());
            proof {
                assert(texts_of(r@) =~= source_names(self.file_names()));
            }
            return r;
        }
        let mut k: usize = 0;
        while k < self.files.len()
            invariant
                k <= self.files@.len(),
                r@.len() == k,
                forall|i: int| 0 <= i < k ==> (#[trigger] r@[i])@ == self.files@[i]@,
            decreases self.files@.len() - k,
        {
            r.push(self.files[k].clone());
            k = k + 1;
        }
        proof {
            assert(texts_of(r@) =~= source_names(self.file_names()));
        }
        r
    }

    /// Whether the streams that were read are small enough for the counters
    /// of a record.
    pub fn can_count(inputs: &Vec<Result<Vec<u8>, WcError>>) -> (r: bool)
        ensures
            r == (8 * total_bytes(inputs@) <= u64::MAX),
    {
        let limit: u64 = u64::MAX / 8;
        let mut sum: u64 = 0;
        let mut k: usize = 0;
        while k < inputs.len()
            invariant
                limit == u64::MAX / 8,
                k <= inputs@.len(),
                sum == total_bytes(inputs@.take(k as int)),
                sum <= limit,
            decreases inputs@.len() - k,
        {
            proof {
                lemma_total_bytes_prefix(inputs@, k + 1);
                assert(inputs@.take(k + 1).drop_last() =~= inputs@.take(k as int));
                assert(inputs@.take(k + 1).last() == inputs@[k as int]);
            }
            match &inputs[k] {
                Ok(stream) => {
                    let len: usize = stream.len();
                    if len as u64 > limit - sum {
                        return false;
                    }
                    sum = sum + len as u64;
                },
                Err(_) => {},
            }
            k = k + 1;
        }
        proof {
            assert(inputs@.take(k as int) =~= inputs@);
        }
        true
    }

    /// [`Rwc::exec`] where there is one input for each source and the
    /// counters can hold the streams; nothing otherwise.
    pub fn checked_exec(&self, inputs: &Vec<Result<Vec<u8>, WcError>>) -> (r: Option<Vec<Emit>>)
        ensures
            r is Some <==> self.help || (inputs@.len() == source_names(self.file_names()).len()
                && 8 * total_bytes(inputs@) <= u64::MAX),
            r matches Some(out) ==> lines_of(out@) == self.spec_output(inputs@),
    {
        if self.help {
            return Some(self.exec(inputs));
        }
        let expected: usize = if self.files.len() == 0 {
            1
        } else {
            self.files.len()
        };
        if inputs.len() == expected && Self::can_count(inputs) {
            Some(self.exec(inputs))
        } else {
            None
        }
    }

    /// Everything that this run writes: the usage message where it was asked
    /// for, the report otherwise.
    pub open spec fn spec_output(&self, inputs: Seq<Result<Vec<u8>, WcError>>) -> Seq<Line> {
        if self.help {
            seq![Line::Usage(usage_text(self.opts, brief_text(self.program@)))]
        } else {
            report(self.file_names(), inputs, self.fields, self.width as nat)
        }
    }

    /// Everything that this run writes, given what resolving and reading each
    /// source came to: `inputs[i]` belongs to the `i`-th source, which is the
    /// `i`-th named file or, where none is named, standard input.
    ///
    /// Where the usage message was asked for, it is all that is written.
    pub fn exec(&self, inputs: &Vec<Result<Vec<u8>, WcError>>) -> (out: Vec<Emit>)
        requires
            !self.help ==> inputs@.len() == source_names(self.file_names()).len(),
            !self.help ==> 8 * total_bytes(inputs@) <= u64::MAX,
        ensures
            lines_of(out@) == self.spec_output(inputs@),
    {
        let mut out: Vec<Emit> = Vec::new();
        if self.help {
            out.push(Emit::Usage(self.usage_message()));
            proof {
                assert(lines_of(out@) =~= seq![
                    Line::Usage(usage_text(self.opts, brief_text(self.program@))),
                ]);
            }
            return out;
        }
        let n: usize = inputs.len();
        let ghost names = source_names(self.file_names());
        let mut total = Wc::with_path("total");
        let mut k: usize = 0;
        while k < n
            invariant
                !self.help,
                n == inputs@.len(),
                n == names.len(),
                names == source_names(self.file_names()),
                8 * total_bytes(inputs@) <= u64::MAX,
                k <= n,
                out@.len() == k,
                forall|i: int|
                    0 <= i < k ==> (#[trigger] out@[i])@ == source_line(
                        names[i],
                        inputs@[i],
                        self.fields,
                        self.width as nat,
                    ),
                total.path@ == total_label(),
                total.counts() == total_counts(inputs@.take(k as int)),
                within_sum(total.counts(), total_bytes(inputs@.take(k as int))),
            decreases n - k,
        {
            proof {
                lemma_total_bytes_prefix(inputs@, k as int);
                lemma_total_bytes_prefix(inputs@, k + 1);
                assert(inputs@.take(k + 1).drop_last() =~= inputs@.take(k as int));
                assert(inputs@.take(k + 1).last() == inputs@[k as int]);
            }
            let empty: String = String::new();
            let name: &str = if self.files.len() == 0 {
                empty.as_str()
            } else {
                self.files[k].as_str()
            };
            assert(name@ == names[k as int]);
            let piece: Emit = match &inputs[k] {
                Ok(stream) => {
                    let mut wc = Wc::with_path(name);
                    match wc.analyze(stream.as_slice()) {
                        Ok(()) => {
                            total.add_assign(&wc);
                            Emit::Out(wc.format_result(&self.fields, self.width))
                        },
                        Err(e) => Emit::Diag(Self::diagnostic_line(name, &e)),
                    }
                },
                Err(e) => Emit::Diag(Self::diagnostic_line(name, e)),
            };
            out.push(piece);
            k = k + 1;
        }
        proof {
            assert(inputs@.take(k as int) =~= inputs@);
        }
        if n > 1 {
            out.push(Emit::Out(total.format_result(&self.fields, self.width)));
        }
        proof {
            assert(lines_of(out@) =~= report(
                self.file_names(),
                inputs@,
                self.fields,
                self.width as nat,
            ));
        }
        out
    }
}

} // verus!
