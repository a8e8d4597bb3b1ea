//! Small operations on text: lower case, decimal numbers, the last
//! occurrence of a character.

use vstd::prelude::*;

verus! {

/// What `str::to_lowercase` gives for `text`.
pub uninterp spec fn lowercase(text: Seq<char>) -> Seq<char>;

/// Calls `str::to_lowercase` of the standard library, which maps each
/// character by the Unicode property `Lowercase`. The contract claims only
/// that the result is a function of the text.
#[verifier::external_body]
pub(crate) fn to_lowercase(text: &str) -> (lower: String)
    ensures
        lower@ == lowercase(text@),
{
    text.to_lowercase()
}

/// The character that stands for a digit.
pub open spec fn digit(d: int) -> char {
    if d == 0 {
        '0'
    } else if d == 1 {
        '1'
    } else if d == 2 {
        '2'
    } else if d == 3 {
        '3'
    } else if d == 4 {
        '4'
    } else if d == 5 {
        '5'
    } else if d == 6 {
        '6'
    } else if d == 7 {
        '7'
    } else if d == 8 {
        '8'
    } else {
        '9'
    }
}

/// A number written in decimal, without leading zeros.
pub open spec fn decimal(n: nat) -> Seq<char>
    decreases n,
{
    if n < 10 {
        seq![digit(n as int)]
    } else {
        decimal(n / 10).push(digit((n % 10) as int))
    }
}

/// The text of one digit.
fn digit_text(d: u16) -> (text: &'static str)
    requires
        d < 10,
    ensures
        text@ == seq![digit(d as int)],
{
    let text = if d == 0 {
        "0"
    } else if d == 1 {
        "1"
    } else if d == 2 {
        "2"
    } else if d == 3 {
        "3"
    } else if d == 4 {
        "4"
    } else if d == 5 {
        "5"
    } else if d == 6 {
        "6"
    } else if d == 7 {
        "7"
    } else if d == 8 {
        "8"
    } else {
        "9"
    };
    proof {
        reveal_strlit("0");
        reveal_strlit("1");
        reveal_strlit("2");
        reveal_strlit("3");
        reveal_strlit("4");
        reveal_strlit("5");
        reveal_strlit("6");
        reveal_strlit("7");
        reveal_strlit("8");
        reveal_strlit("9");
        assert(text@ =~= seq![digit(d as int)]);
    }
    text
}

/// A 16-bit number written in decimal.
pub fn decimal_string(n: u16) -> (text: String)
    ensures
        text@ == decimal(n as nat),
    decreases n,
{
    if n < 10 {
        String::from_str(digit_text(n))
    } else {
        let mut text = decimal_string(n / 10);
        text.append(digit_text(n % 10));
        text
    }
}

/// The position of the last `c` in `text`, or -1 where there is none.
pub open spec fn rfind(text: Seq<char>, c: char) -> int
    decreases text.len(),
{
    if text.len() == 0 {
        -1
    } else if text.last() == c {
        text.len() - 1
    } else {
        rfind(text.drop_last(), c)
    }
}

/// Characters behind the last `c` play no part in where it stands.
pub proof fn lemma_rfind_tail(text: Seq<char>, c: char, from: int)
    requires
        0 <= from <= text.len(),
        forall|i: int| from <= i < text.len() ==> text[i] != c,
    ensures
        rfind(text, c) == rfind(text.take(from), c),
    decreases text.len() - from,
{
    if from == text.len() {
        assert(text.take(from) =~= text);
    } else {
        lemma_rfind_tail(text.drop_last(), c, from);
        assert(text.drop_last().take(from) =~= text.take(from));
    }
}

/// `text` up to its last `c`, the `c` left out; all of `text` where it holds
/// no `c`.
pub open spec fn before_last(text: Seq<char>, c: char) -> Seq<char> {
    let at = rfind(text, c);
    if at >= 0 {
        text.take(at)
    } else {
        text
    }
}

/// `text` up to its last `c`, the `c` left out; all of `text` where it holds
/// no `c`.
pub fn cut_at_last(text: &str, c: char) -> (head: String)
    ensures
        head@ == before_last(text@, c),
{
    let len: usize = text.unicode_len();
    let mut i: usize = len;
    while i > 0
        invariant
            i <= len == text@.len(),
            forall|j: int| i <= j < len ==> text@[j] != c,
        decreases i,
    {
        if text.get_char(i - 1) == c {
            proof {
                lemma_rfind_tail(text@, c, i as int);
                assert(text@.take(i as int).last() == c);
                assert(text@.take(i as int).len() == i);
            }
            return String::from_str(text.substring_char(0, i - 1));
        }
        i -= 1;
    }
    proof {
        lemma_rfind_tail(text@, c, 0);
        assert(text@.take(0).len() == 0);
    }
    String::from_str(text)
}

} // verus!
