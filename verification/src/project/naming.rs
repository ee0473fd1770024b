//! Names for files: slugs and padded numbers.

use vstd::prelude::*;
use vstd::string::StringExecFns;

use crate::text::chars_of;
use crate::text::digit;
use crate::text::digit_value;
use crate::text::digits_value;
use crate::text::number_of;
use crate::text::numeral;
use crate::text::push_numeral;

verus! {

/// What `str::to_lowercase` makes of a text.
pub uninterp spec fn lowered(text: Seq<char>) -> Seq<char>;

/// Whether `char::is_alphanumeric` holds of a character.
pub uninterp spec fn alphanumeric(c: char) -> bool;

/// The letters and digits of ASCII.
pub open spec fn is_ascii_alphanumeric(c: char) -> bool {
    ('0' <= c && c <= '9') || ('A' <= c && c <= 'Z') || ('a' <= c && c <= 'z')
}

/// `str::to_lowercase` writes a text in lower case, by the rules of Unicode. The
/// outcome depends on the text alone.
#[verifier::external_body]
fn to_lower(text: &str) -> (low: String)
    ensures
        low@ == lowered(text@),
{
    text.to_lowercase()
}

/// `char::is_alphanumeric` tells the characters that Unicode counts as
/// alphabetic or numeric from the others. Below 128 those are the letters and
/// digits of ASCII.
#[verifier::external_body]
fn char_is_alphanumeric(c: char) -> (is: bool)
    ensures
        is == alphanumeric(c),
        c < '\u{80}' ==> is == is_ascii_alphanumeric(c),
{
    c.is_alphanumeric()
}

/// A text with a dash for each character that is not kept.
pub open spec fn dashes(text: Seq<char>, kept: Seq<bool>) -> Seq<char> {
    Seq::new(
        text.len(),
        |i: int|
            if kept[i] {
                text[i]
            } else {
                '-'
            },
    )
}

/// A text with a dash for each character that is not kept.
pub fn dashed(text: &str, kept: &Vec<bool>) -> (out: String)
    requires
        kept@.len() == text@.len(),
    ensures
        out@ == dashes(text@, kept@),
{
    let chars: Vec<char> = chars_of(text);
    let mut out: String = String::new();
    let mut i: usize = 0;
    assert(out@ =~= dashes(text@, kept@).take(0));
    while i < chars.len()
        invariant
            chars@ == text@,
            kept@.len() == text@.len(),
            i <= chars@.len(),
            out@ == dashes(text@, kept@).take(i as int),
        decreases chars.len() - i,
    {
        if kept[i] {
            out.push(chars[i]);
        } else {
            out.push('-');
        }
        i = i + 1;
        assert(out@ =~= dashes(text@, kept@).take(i as int));
    }
    assert(dashes(text@, kept@).take(i as int) =~= dashes(text@, kept@));
    out
}

/// A text in lower case, with a dash for each character that is neither a letter
/// nor a digit.
pub open spec fn slug(text: Seq<char>) -> Seq<char> {
    lowered(text).map_values(
        |c: char|
            if alphanumeric(c) {
                c
            } else {
                '-'
            },
    )
}

/// Whether a text can be a part of a file's name anywhere: beyond ASCII aside,
/// it holds letters, digits and dashes only.
pub open spec fn is_slug(text: Seq<char>) -> bool {
    forall|i: int|
        0 <= i < text.len() && #[trigger] text[i] < '\u{80}' ==> is_ascii_alphanumeric(text[i])
            || text[i] == '-'
}

/// A name as part of a file's name. No separator, dot or control character
/// survives.
pub fn file_slug(name: &str) -> (out: String)
    ensures
        out@ == slug(name@),
        is_slug(out@),
{
    let low: String = to_lower(name);
    let chars: Vec<char> = chars_of(low.as_str());
    let mut kept: Vec<bool> = Vec::new();
    let mut i: usize = 0;
    while i < chars.len()
        invariant
            chars@ == lowered(name@),
            i <= chars@.len(),
            kept@.len() == i,
            forall|k: int|
                0 <= k < i ==> #[trigger] kept@[k] == alphanumeric(chars@[k]) && (chars@[k]
                    < '\u{80}' ==> kept@[k] == is_ascii_alphanumeric(chars@[k])),
        decreases chars.len() - i,
    {
        kept.push(char_is_alphanumeric(chars[i]));
        i = i + 1;
    }
    let out: String = dashed(low.as_str(), &kept);
    assert(out@ =~= slug(name@));
    out
}

/// So many zeros.
pub open spec fn zeros(n: nat) -> Seq<char> {
    Seq::new(n, |i: int| '0')
}

/// The decimal numeral of a number, with leading zeros up to a width.
pub open spec fn padded(n: nat, width: nat) -> Seq<char> {
    if numeral(n).len() < width {
        zeros((width - numeral(n).len()) as nat) + numeral(n)
    } else {
        numeral(n)
    }
}

/// Writes a number with leading zeros up to a width.
pub fn push_padded(out: &mut String, n: u64, width: usize)
    ensures
        final(out)@ == old(out)@ + padded(n as nat, width as nat),
{
    let ghost before = out@;
    let mut digits: String = String::new();
    push_numeral(&mut digits, n);
    assert(digits@ =~= numeral(n as nat));
    let length: usize = chars_of(digits.as_str()).len();
    let mut i: usize = length;
    assert(out@ =~= before + zeros(0));
    while i < width
        invariant
            length <= i,
            i <= width || i == length,
            out@ == before + zeros((i - length) as nat),
        decreases width - i,
    {
        out.push('0');
        i = i + 1;
        assert(out@ =~= before + zeros((i - length) as nat));
    }
    out.append(digits.as_str());
    assert(out@ =~= before + padded(n as nat, width as nat));
}

proof fn lemma_numeral(n: nat)
    ensures
        digits_value(numeral(n)) == Some(n),
        numeral(n).len() > 0,
        forall|i: int| 0 <= i < numeral(n).len() ==> '0' <= #[trigger] numeral(n)[i] <= '9',
    decreases n,
{
    let low = digit(n % 10);
    assert(digit_value(low) == Some(n % 10));
    if n < 10 {
        assert(numeral(n).drop_last() =~= Seq::<char>::empty());
        assert(digits_value(Seq::<char>::empty()) == Some(0nat));
        assert(digits_value(numeral(n)) == Some(0 * 10 + n));
    } else {
        lemma_numeral(n / 10);
        assert(numeral(n).drop_last() =~= numeral(n / 10));
    }
}

proof fn lemma_leading_zeros(n: nat, text: Seq<char>)
    ensures
        digits_value(zeros(n) + text) == digits_value(text),
    decreases text.len(), n,
{
    if text.len() > 0 {
        lemma_leading_zeros(n, text.drop_last());
        assert((zeros(n) + text).drop_last() =~= zeros(n) + text.drop_last());
        assert((zeros(n) + text).last() == text.last());
    } else if n > 0 {
        lemma_leading_zeros((n - 1) as nat, text);
        assert((zeros(n) + text).drop_last() =~= zeros((n - 1) as nat) + text);
        assert((zeros(n) + text).last() == '0');
    } else {
        assert(zeros(n) + text =~= text);
    }
}

/// A padded number is digits throughout, and reads back as the number.
pub proof fn a_padded_number_reads_back(n: nat, width: nat)
    ensures
        number_of(padded(n, width)) == Some(n),
        padded(n, width).len() > 0,
        forall|i: int|
            0 <= i < padded(n, width).len() ==> '0' <= #[trigger] padded(n, width)[i] <= '9',
{
    lemma_numeral(n);
    let lead = (width - numeral(n).len()) as nat;
    if numeral(n).len() < width {
        lemma_leading_zeros(lead, numeral(n));
    }
    let text = padded(n, width);
    assert forall|i: int| 0 <= i < text.len() implies '0' <= #[trigger] text[i] <= '9' by {
        if numeral(n).len() < width && i >= lead {
            assert(text[i] == numeral(n)[i - lead]);
        }
    }
    assert(text[0] >= '0');
}

} // verus!
