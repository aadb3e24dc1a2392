//! How a record is written out: decimal numbers, right-aligned columns, and
//! the choice of the counts that a line shows.

use crate::wc::Counts;
use vstd::prelude::*;

verus! {

/// The character of a decimal digit.
pub open spec fn digit(d: nat) -> char
    recommends
        d < 10,
{
    ((48 + d) as u8) as char
}

/// A number in decimal, without sign or leading zeros.
pub open spec fn decimal(n: nat) -> Seq<char>
    decreases n,
{
    if n < 10 {
        seq![digit(n)]
    } else {
        decimal(n / 10).push(digit(n % 10))
    }
}

/// `n` spaces.
pub open spec fn spaces(n: nat) -> Seq<char> {
    Seq::new(n, |i: int| ' ')
}

/// `s` behind as many spaces as bring it to `width` characters; `s` itself
/// where it is that long already.
pub open spec fn right_aligned(s: Seq<char>, width: nat) -> Seq<char> {
    if s.len() >= width {
        s
    } else {
        spaces((width - s.len()) as nat) + s
    }
}

/// One column of a report line: a space, then the number right-aligned.
pub open spec fn field(n: nat, width: nat) -> Seq<char> {
    seq![' '] + right_aligned(decimal(n), width)
}

/// `field(n, width)` where `on` holds, nothing otherwise.
pub open spec fn field_if(on: bool, n: nat, width: nat) -> Seq<char> {
    if on {
        field(n, width)
    } else {
        Seq::empty()
    }
}

/// The counts that a report line shows.
#[derive(Clone, Copy, Debug, PartialEq, Eq, Structural)]
pub struct Fields {
    pub lines: bool,
    pub words: bool,
    pub chars: bool,
    pub bytes: bool,
    pub max_line_length: bool,
}

impl Fields {
    /// Whether no count was asked for.
    pub open spec fn is_empty(self) -> bool {
        !self.lines && !self.words && !self.chars && !self.bytes && !self.max_line_length
    }

    /// The selection that is written out: lines, characters and bytes where
    /// none was asked for, else what was asked for.
    pub open spec fn spec_shown(self) -> Fields {
        if self.is_empty() {
            Fields { lines: true, words: false, chars: true, bytes: true, max_line_length: false }
        } else {
            self
        }
    }

    /// The selection that is written out.
    #[verifier::when_used_as_spec(spec_shown)]
    pub fn shown(self) -> (r: Fields)
        ensures
            r == self.spec_shown(),
            !r.is_empty(),
    {
        if !self.lines && !self.words && !self.chars && !self.bytes && !self.max_line_length {
            Fields { lines: true, words: false, chars: true, bytes: true, max_line_length: false }
        } else {
            self
        }
    }
}

/// The columns of a report line in their fixed order: lines, words,
/// characters, bytes, widest line.
pub open spec fn columns(c: Counts, shown: Fields, width: nat) -> Seq<char> {
    field_if(shown.lines, c.lines, width) + field_if(shown.words, c.words, width) + field_if(
        shown.chars,
        c.chars,
        width,
    ) + field_if(shown.bytes, c.bytes, width) + field_if(
        shown.max_line_length,
        c.max_line_width,
        width,
    )
}

/// A whole report line: the columns of the written selection, a space, the
/// name.
pub open spec fn result_line(c: Counts, fields: Fields, width: nat, name: Seq<char>) -> Seq<char> {
    columns(c, fields.spec_shown(), width) + seq![' '] + name
}

/// `String::push`: the string grows by the one character at its end.
#[verifier::external_body]
pub(crate) fn push_char(s: &mut String, c: char)
    ensures
        final(s)@ == old(s)@.push(c),
{
    s.push(c);
}

/// The character of the digit `d`.
pub fn digit_char(d: u64) -> (c: char)
    requires
        d < 10,
    ensures
        c == digit(d as nat),
{
    let b: u8 = 48 + (d as u8);
    b as char
}

/// Number of decimal digits of `n`.
pub fn decimal_len(n: u128) -> (r: usize)
    ensures
        r == decimal(n as nat).len(),
        1 <= r <= 39,
    decreases n,
{
    if n < 10 {
        1
    } else {
        let r = decimal_len(n / 10);
        proof {
            lemma_decimal_len_bound(n as nat);
        }
        r + 1
    }
}

/// No number of 128 bits has more than 39 decimal digits.
pub proof fn lemma_decimal_len_bound(n: nat)
    requires
        n <= u128::MAX,
    ensures
        decimal(n).len() <= 39,
{
    reveal_with_fuel(decimal, 40);
}

/// Appends `n` in decimal.
pub fn push_decimal(s: &mut String, n: u64)
    ensures
        final(s)@ == old(s)@ + decimal(n as nat),
    decreases n,
{
    if n >= 10 {
        push_decimal(s, n / 10);
    }
    push_char(s, digit_char(n % 10));
    proof {
        assert(final(s)@ =~= old(s)@ + decimal(n as nat));
    }
}

/// Appends one column: a space, the padding, the number.
pub fn push_field(s: &mut String, n: u64, width: usize)
    ensures
        final(s)@ == old(s)@ + field(n as nat, width as nat),
{
    push_char(s, ' ');
    let len: usize = decimal_len(n as u128);
    let mut k: usize = len;
    while k < width
        invariant
            len <= k,
            len == decimal(n as nat).len(),
            k <= width || k == len,
            s@ == old(s)@ + seq![' '] + spaces((k - len) as nat),
        decreases width - k,
    {
        push_char(s, ' ');
        k = k + 1;
        proof {
            assert(spaces((k - 1 - len) as nat).push(' ') =~= spaces((k - len) as nat));
            assert(s@ =~= old(s)@ + seq![' '] + spaces((k - len) as nat));
        }
    }
    push_decimal(s, n);
    proof {
        assert(final(s)@ =~= old(s)@ + field(n as nat, width as nat));
    }
}

} // verus!
