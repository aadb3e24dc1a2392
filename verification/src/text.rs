//! The text model: what a byte stream means as a sequence of characters, and
//! the five quantities counted over it.

use vstd::prelude::*;
use vstd::utf8::*;

verus! {

/// Whether a character has the Unicode `White_Space` property. Below U+0080
/// these are space, tab, newline, carriage return, form feed and vertical tab.
pub open spec fn is_white_space(c: char) -> bool {
    let v = c as u32;
    ||| 0x09 <= v <= 0x0D
    ||| v == 0x20
    ||| v == 0x85
    ||| v == 0xA0
    ||| v == 0x1680
    ||| 0x2000 <= v <= 0x200A
    ||| v == 0x2028
    ||| v == 0x2029
    ||| v == 0x202F
    ||| v == 0x205F
    ||| v == 0x3000
}

/// Display width of one character: 2 when its encoding takes more than one
/// byte, 8 for a horizontal tab, 0 for the line terminator, 1 otherwise.
pub open spec fn char_width(c: char) -> nat {
    if c as u32 >= 0x80 {
        2
    } else if c == '\t' {
        8
    } else if c == '\n' {
        0
    } else {
        1
    }
}

/// Number of line terminators in `text`.
pub open spec fn newline_count(text: Seq<char>) -> nat
    decreases text.len(),
{
    if text.len() == 0 {
        0
    } else {
        newline_count(text.drop_last()) + if text.last() == '\n' { 1nat } else { 0nat }
    }
}

/// Number of lines in `text`: every terminated line, and a last line without
/// terminator if there is one.
pub open spec fn line_count(text: Seq<char>) -> nat {
    newline_count(text) + if text.len() > 0 && text.last() != '\n' { 1nat } else { 0nat }
}

/// Whether a maximal run of non-whitespace characters begins at index `i`.
pub open spec fn starts_word(text: Seq<char>, i: int) -> bool {
    &&& 0 <= i < text.len()
    &&& !is_white_space(text[i])
    &&& (i == 0 || is_white_space(text[i - 1]))
}

/// Number of maximal runs of non-whitespace characters in `text`.
pub open spec fn word_count(text: Seq<char>) -> nat
    decreases text.len(),
{
    if text.len() == 0 {
        0
    } else {
        word_count(text.drop_last()) + if starts_word(text, text.len() - 1) { 1nat } else { 0nat }
    }
}

/// Width of what follows the last line terminator of `text`.
pub open spec fn open_line_width(text: Seq<char>) -> nat
    decreases text.len(),
{
    if text.len() == 0 {
        0
    } else if text.last() == '\n' {
        0
    } else {
        open_line_width(text.drop_last()) + char_width(text.last())
    }
}

/// The largest width that any line of `text` reaches.
pub open spec fn max_line_width(text: Seq<char>) -> nat
    decreases text.len(),
{
    if text.len() == 0 {
        0
    } else {
        let before = max_line_width(text.drop_last());
        let here = open_line_width(text);
        if here > before { here } else { before }
    }
}

/// Executable form of [`is_white_space`] on a scalar value.
pub fn is_whitespace_scalar(v: u32) -> (r: bool)
    requires
        is_scalar(v),
    ensures
        r == is_white_space(v as char),
{
    (0x09 <= v && v <= 0x0D) || v == 0x20 || v == 0x85 || v == 0xA0 || v == 0x1680 || (0x2000 <= v
        && v <= 0x200A) || v == 0x2028 || v == 0x2029 || v == 0x202F || v == 0x205F || v == 0x3000
}

/// Executable form of [`char_width`] on a scalar value.
pub fn scalar_width(v: u32) -> (r: u64)
    requires
        is_scalar(v),
    ensures
        r == char_width(v as char),
        r <= 8,
{
    if v >= 0x80 {
        2
    } else if v == 0x09 {
        8
    } else if v == 0x0A {
        0
    } else {
        1
    }
}

/// What remains of `bytes` from index `i` on.
pub open spec fn rest_from(bytes: Seq<u8>, i: int) -> Seq<u8> {
    bytes.subrange(i, bytes.len() as int)
}

/// Decodes the scalar value whose encoding begins at index `i`, with the
/// number of bytes it takes; `None` where no well-formed encoding begins there.
pub fn decode_scalar(bytes: &[u8], i: usize) -> (r: Option<(u32, usize)>)
    requires
        i < bytes@.len(),
    ensures
        r is Some <==> valid_first_scalar(rest_from(bytes@, i as int)),
        r matches Some((v, n)) ==> {
            &&& v == decode_first_scalar(rest_from(bytes@, i as int))
            &&& n == length_of_first_scalar(rest_from(bytes@, i as int))
            &&& 1 <= n <= 4
            &&& i + n <= bytes@.len()
            &&& is_scalar(v)
        },
{
    let len: usize = bytes.len();
    let ghost rest = rest_from(bytes@, i as int);
    let b0: u8 = bytes[i];
    assert(rest[0] == b0);
    if b0 <= 0x7f {
        let v: u32 = (b0 & 0x7f) as u32;
        assert(v <= 0x7f) by (bit_vector)
            requires
                v == (b0 & 0x7f) as u32,
        ;
        return Some((v, 1));
    }
    if 0xc0 <= b0 && b0 <= 0xdf {
        if len - i < 2 {
            return None;
        }
        let b1: u8 = bytes[i + 1];
        assert(rest[1] == b1);
        if !(0x80 <= b1 && b1 <= 0xbf) {
            return None;
        }
        let v: u32 = (((b0 & 0x1f) as u32) << 6) | ((b1 & 0x3f) as u32);
        assert(v <= 0x7ff) by (bit_vector)
            requires
                v == (((b0 & 0x1f) as u32) << 6) | ((b1 & 0x3f) as u32),
        ;
        if v < 0x80 {
            return None;
        }
        return Some((v, 2));
    }
    if 0xe0 <= b0 && b0 <= 0xef {
        if len - i < 3 {
            return None;
        }
        let b1: u8 = bytes[i + 1];
        let b2: u8 = bytes[i + 2];
        assert(rest[1] == b1 && rest[2] == b2);
        if !(0x80 <= b1 && b1 <= 0xbf && 0x80 <= b2 && b2 <= 0xbf) {
            return None;
        }
        let v: u32 = (((b0 & 0x0f) as u32) << 12) | (((b1 & 0x3f) as u32) << 6) | ((b2
            & 0x3f) as u32);
        assert(v <= 0xffff) by (bit_vector)
            requires
                v == (((b0 & 0x0f) as u32) << 12) | (((b1 & 0x3f) as u32) << 6) | ((b2
                    & 0x3f) as u32),
        ;
        if v < 0x800 || (0xD800 <= v && v <= 0xDFFF) {
            return None;
        }
        return Some((v, 3));
    }
    if 0xf0 <= b0 && b0 <= 0xf7 {
        if len - i < 4 {
            return None;
        }
        let b1: u8 = bytes[i + 1];
        let b2: u8 = bytes[i + 2];
        let b3: u8 = bytes[i + 3];
        assert(rest[1] == b1 && rest[2] == b2 && rest[3] == b3);
        if !(0x80 <= b1 && b1 <= 0xbf && 0x80 <= b2 && b2 <= 0xbf && 0x80 <= b3 && b3 <= 0xbf) {
            return None;
        }
        let v: u32 = (((b0 & 0x07) as u32) << 18) | (((b1 & 0x3f) as u32) << 12) | (((b2
            & 0x3f) as u32) << 6) | ((b3 & 0x3f) as u32);
        if v < 0x10000 || v > 0x10ffff {
            return None;
        }
        return Some((v, 4));
    }
    None
}

/// Decoding goes through a concatenation of two well-formed encodings piece
/// by piece.
pub proof fn lemma_decode_concat(b1: Seq<u8>, b2: Seq<u8>)
    requires
        valid_utf8(b1),
        valid_utf8(b2),
    ensures
        valid_utf8(b1 + b2),
        decode_utf8(b1 + b2) == decode_utf8(b1) + decode_utf8(b2),
    decreases b1.len(),
{
    valid_utf8_concat(b1, b2);
    if b1.len() == 0 {
        assert(b1 + b2 =~= b2);
        assert(decode_utf8(b1) + decode_utf8(b2) =~= decode_utf8(b2));
    } else {
        let rest = pop_first_scalar(b1);
        assert(pop_first_scalar(b1 + b2) =~= rest + b2);
        lemma_decode_concat(rest, b2);
        assert(decode_first_scalar(b1 + b2) == decode_first_scalar(b1));
        assert(decode_utf8(b1 + b2) =~= decode_utf8(b1) + decode_utf8(b2));
    }
}

/// Where the first `i` bytes are well formed and a well-formed scalar begins
/// at `i`, the prefix that ends behind that scalar decodes to one character
/// more.
pub proof fn lemma_decode_step(bytes: Seq<u8>, i: int)
    requires
        0 <= i < bytes.len(),
        valid_utf8(bytes.subrange(0, i)),
        valid_first_scalar(rest_from(bytes, i)),
    ensures
        ({
            let k = length_of_first_scalar(rest_from(bytes, i));
            &&& 1 <= k
            &&& i + k <= bytes.len()
            &&& valid_utf8(bytes.subrange(0, i + k))
            &&& decode_utf8(bytes.subrange(0, i + k)) == decode_utf8(bytes.subrange(0, i)).push(
                decode_first_scalar(rest_from(bytes, i)) as char,
            )
        }),
{
    let rest = rest_from(bytes, i);
    let k = length_of_first_scalar(rest);
    let one = bytes.subrange(i, i + k);
    assert(valid_first_scalar(one));
    assert(pop_first_scalar(one) =~= Seq::<u8>::empty());
    reveal_with_fuel(valid_utf8, 2);
    reveal_with_fuel(decode_utf8, 2);
    assert(valid_utf8(one));
    assert(decode_first_scalar(one) == decode_first_scalar(rest));
    assert(decode_utf8(one) =~= seq![decode_first_scalar(rest) as char]);
    lemma_decode_concat(bytes.subrange(0, i), one);
    assert(bytes.subrange(0, i) + one =~= bytes.subrange(0, i + k));
    assert(decode_utf8(bytes.subrange(0, i)) + seq![decode_first_scalar(rest) as char]
        =~= decode_utf8(bytes.subrange(0, i)).push(decode_first_scalar(rest) as char));
}

/// Where the first `i` bytes are well formed and no well-formed scalar begins
/// at `i`, the whole is not well formed.
pub proof fn lemma_decode_stuck(bytes: Seq<u8>, i: int)
    requires
        0 <= i < bytes.len(),
        valid_utf8(bytes.subrange(0, i)),
        !valid_first_scalar(rest_from(bytes, i)),
    ensures
        !valid_utf8(bytes),
{
    partial_valid_partial_invalid_utf8(bytes, i);
}

/// The indices of the line terminators of `text`.
pub open spec fn newline_positions(text: Seq<char>) -> Set<int> {
    Set::new(|i: int| 0 <= i < text.len() && text[i] == '\n')
}

/// The indices at which a maximal run of non-whitespace characters begins.
pub open spec fn word_starts(text: Seq<char>) -> Set<int> {
    Set::new(|i: int| starts_word(text, i))
}

/// `newline_count` is the number of positions that hold a line terminator.
pub proof fn lemma_newline_count_is_number_of_terminators(text: Seq<char>)
    ensures
        newline_positions(text).finite(),
        newline_positions(text).len() == newline_count(text),
    decreases text.len(),
{
    if text.len() == 0 {
        assert(newline_positions(text) =~= Set::<int>::empty());
    } else {
        let init = text.drop_last();
        let last = text.len() - 1;
        lemma_newline_count_is_number_of_terminators(init);
        if text.last() == '\n' {
            assert(newline_positions(text) =~= newline_positions(init).insert(last));
        } else {
            assert(newline_positions(text) =~= newline_positions(init));
        }
    }
}

/// `word_count` is the number of positions at which a maximal run of
/// non-whitespace characters begins.
pub proof fn lemma_word_count_is_number_of_runs(text: Seq<char>)
    ensures
        word_starts(text).finite(),
        word_starts(text).len() == word_count(text),
    decreases text.len(),
{
    if text.len() == 0 {
        assert(word_starts(text) =~= Set::<int>::empty());
    } else {
        let init = text.drop_last();
        let last = text.len() - 1;
        lemma_word_count_is_number_of_runs(init);
        assert forall|i: int| starts_word(init, i) == (starts_word(text, i) && i != last) by {
            if 0 <= i < last {
                assert(init[i] == text[i]);
                if i > 0 {
                    assert(init[i - 1] == text[i - 1]);
                }
            }
        }
        if starts_word(text, last) {
            assert(word_starts(text) =~= word_starts(init).insert(last));
        } else {
            assert(word_starts(text) =~= word_starts(init));
        }
    }
}

/// No line of `text` is wider than `max_line_width(text)` at any point, and
/// in a text that is not empty some line reaches that width.
pub proof fn lemma_max_line_width_is_reached(text: Seq<char>)
    ensures
        forall|k: int|
            0 <= k <= text.len() ==> open_line_width(#[trigger] text.take(k)) <= max_line_width(
                text,
            ),
        exists|k: int|
            0 <= k <= text.len() && open_line_width(#[trigger] text.take(k)) == max_line_width(
                text,
            ),
    decreases text.len(),
{
    if text.len() == 0 {
        assert(text.take(0) =~= text);
        assert forall|k: int| 0 <= k <= text.len() implies open_line_width(
            #[trigger] text.take(k),
        ) <= max_line_width(text) by {
            assert(text.take(k) =~= text);
        }
    } else {
        let init = text.drop_last();
        let n = text.len() as int;
        lemma_max_line_width_is_reached(init);
        assert(text.take(n) =~= text);
        assert forall|k: int| 0 <= k <= text.len() implies open_line_width(
            #[trigger] text.take(k),
        ) <= max_line_width(text) by {
            if k < n {
                assert(text.take(k) =~= init.take(k));
            }
        }
        if open_line_width(text) > max_line_width(init) {
            assert(open_line_width(text.take(n)) == max_line_width(text));
        } else {
            let k = choose|k: int|
                0 <= k <= init.len() && open_line_width(#[trigger] init.take(k)) == max_line_width(
                    init,
                );
            assert(text.take(k) =~= init.take(k));
            assert(open_line_width(text.take(k)) == max_line_width(text));
        }
    }
}

/// Behind a text that is empty or ends its last line, a second text is
/// counted as if it stood alone: lines and words add up, and the widest line
/// is the wider of the two.
pub proof fn lemma_counts_of_concat(a: Seq<char>, b: Seq<char>)
    requires
        a.len() == 0 || a.last() == '\n',
    ensures
        newline_count(a + b) == newline_count(a) + newline_count(b),
        line_count(a + b) == line_count(a) + line_count(b),
        word_count(a + b) == word_count(a) + word_count(b),
        open_line_width(a + b) == open_line_width(b),
        max_line_width(a + b) == if max_line_width(a) >= max_line_width(b) {
            max_line_width(a)
        } else {
            max_line_width(b)
        },
    decreases b.len(),
{
    if b.len() == 0 {
        assert(a + b =~= a);
    } else {
        let whole = a + b;
        lemma_counts_of_concat(a, b.drop_last());
        assert(whole.drop_last() =~= a + b.drop_last());
        assert(whole.last() == b.last());
        let i = whole.len() - 1;
        let j = b.len() - 1;
        assert(whole[i] == b[j]);
        if j > 0 {
            assert(whole[i - 1] == b[j - 1]);
        } else if a.len() > 0 {
            assert(whole[i - 1] == a.last());
        }
        assert(starts_word(whole, i) == starts_word(b, j));
    }
}

} // verus!
