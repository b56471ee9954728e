//! Text as sequences of characters: comparing, searching and building it.

use vstd::prelude::*;

verus! {

/// The characters of `text`, one after another.
pub fn characters(text: &str) -> (out: Vec<char>)
    ensures
        out@ == text@,
{
    let mut out: Vec<char> = Vec::new();
    for c in iter: text.chars()
        invariant
            out@ == text@.take(iter.index() as int),
            iter.seq() == text@,
    {
        out.push(c);
    }
    out
}

/// Whether two texts hold the same characters.
pub fn same_text(a: &str, b: &str) -> (same: bool)
    ensures
        same == (a@ == b@),
{
    let x = characters(a);
    let y = characters(b);
    if x.len() != y.len() {
        return false;
    }
    let mut i: usize = 0;
    while i < x.len()
        invariant
            i <= x.len() == y.len(),
            forall|j: int| 0 <= j < i ==> x@[j] == y@[j],
            x@ == a@,
            y@ == b@,
        decreases x.len() - i,
    {
        if x[i] != y[i] {
            assert(a@[i as int] != b@[i as int]);
            return false;
        }
        i += 1;
    }
    assert(a@ =~= b@);
    true
}

/// The character that stands for one decimal digit.
pub open spec fn digit(d: nat) -> char {
    (48 + d) as char
}

/// The decimal notation of a number, without leading zeros.
pub open spec fn decimal(n: nat) -> Seq<char>
    decreases n,
{
    if n < 10 {
        seq![digit(n)]
    } else {
        decimal(n / 10).push(digit(n % 10))
    }
}

fn digit_text(d: u64) -> (text: &'static str)
    requires
        d < 10,
    ensures
        text@ == seq![digit(d as nat)],
{
    proof {
        reveal_strlit("0");
        reveal_strlit("1");
        reveal_strlit("2");
        reveal_strlit("3");
        reveal_strlit("4");
        reveal_strlit("5");
        reveal_strlit("6");
        reveal_strlit("7");
        reveal_strlit("8");
        reveal_strlit("9");
    }
    let text = match d {
        0 => "0",
        1 => "1",
        2 => "2",
        3 => "3",
        4 => "4",
        5 => "5",
        6 => "6",
        7 => "7",
        8 => "8",
        _ => "9",
    };
    assert(text@ =~= seq![digit(d as nat)]);
    text
}

/// Append the decimal notation of `n`.
pub fn push_decimal(out: &mut String, n: u64)
    ensures
        final(out)@ == old(out)@ + decimal(n as nat),
    decreases n,
{
    if n >= 10 {
        push_decimal(out, n / 10);
    }
    out.append(digit_text(n % 10));
    assert(out@ =~= old(out)@ + decimal(n as nat));
}

/// An ASCII capital turned to its small letter; other characters stay.
pub open spec fn small_letter(c: char) -> char {
    if 'A' <= c && c <= 'Z' {
        (c as int + 32) as char
    } else {
        c
    }
}

/// A text with its ASCII capitals turned to small letters.
pub open spec fn ascii_lower(s: Seq<char>) -> Seq<char> {
    s.map_values(|c: char| small_letter(c))
}

fn to_small_letter(c: char) -> (small: char)
    ensures
        small == small_letter(c),
{
    if 'A' <= c && c <= 'Z' {
        (c as u8 + 32) as char
    } else {
        c
    }
}

/// Whether a text is `other`, but for ASCII capitals in the former.
pub fn same_but_for_capitals(text: &str, other: &str) -> (same: bool)
    ensures
        same == (ascii_lower(text@) == other@),
{
    let x = characters(text);
    let y = characters(other);
    if x.len() != y.len() {
        assert(ascii_lower(text@).len() != other@.len());
        return false;
    }
    let mut i: usize = 0;
    while i < x.len()
        invariant
            i <= x.len() == y.len(),
            forall|j: int| 0 <= j < i ==> small_letter(x@[j]) == y@[j],
            x@ == text@,
            y@ == other@,
        decreases x.len() - i,
    {
        if to_small_letter(x[i]) != y[i] {
            assert(ascii_lower(text@)[i as int] != other@[i as int]);
            return false;
        }
        i += 1;
    }
    assert(ascii_lower(text@) =~= other@);
    true
}

/// Whether `part` occurs in `whole` from place `i` on.
pub open spec fn occurs_at(whole: Seq<char>, part: Seq<char>, i: int) -> bool {
    0 <= i && i + part.len() <= whole.len() && whole.subrange(i, i + part.len()) == part
}

/// Whether `part` occurs in `whole`.
pub open spec fn occurs_in(whole: Seq<char>, part: Seq<char>) -> bool {
    exists|i: int| occurs_at(whole, part, i)
}

/// Whether `part` occurs in `whole`.
pub fn contains(whole: &str, part: &str) -> (found: bool)
    ensures
        found == occurs_in(whole@, part@),
{
    let w = characters(whole);
    let p = characters(part);
    if p.len() > w.len() {
        return false;
    }
    let mut i: usize = 0;
    while i <= w.len() - p.len()
        invariant
            p.len() <= w.len(),
            i <= w.len() - p.len() + 1,
            w@ == whole@,
            p@ == part@,
            forall|k: int| 0 <= k < i ==> !occurs_at(whole@, part@, k),
        decreases w.len() - p.len() + 1 - i,
    {
        let mut j: usize = 0;
        while j < p.len() && w[i + j] == p[j]
            invariant
                j <= p.len(),
                i + p.len() <= w.len(),
                forall|k: int| 0 <= k < j ==> w@[i + k] == p@[k],
            decreases p.len() - j,
        {
            j += 1;
        }
        if j == p.len() {
            assert(whole@.subrange(i as int, i + part@.len()) =~= part@);
            assert(occurs_at(whole@, part@, i as int));
            return true;
        }
        proof {
            if occurs_at(whole@, part@, i as int) {
                assert(whole@.subrange(i as int, i + part@.len())[j as int] == whole@[i + j]);
            }
        }
        i += 1;
    }
    assert forall|k: int| !occurs_at(whole@, part@, k) by {}
    false
}

/// Whether a text ends in another.
pub open spec fn is_ending(whole: Seq<char>, ending: Seq<char>) -> bool {
    ending.len() <= whole.len() && whole.skip(whole.len() - ending.len()) == ending
}

/// Whether a text ends in another.
pub fn ends_with(whole: &str, ending: &str) -> (ends: bool)
    ensures
        ends == is_ending(whole@, ending@),
{
    let length = whole.unicode_len();
    let count = ending.unicode_len();
    if count > length {
        return false;
    }
    assert(whole@.subrange(length - count, length as int) =~= whole@.skip(length - count));
    same_text(whole.substring_char(length - count, length), ending)
}

/// Numbers written alike are equal.
pub proof fn decimal_tells_numbers_apart(a: nat, b: nat)
    requires
        decimal(a) == decimal(b),
    ensures
        a == b,
    decreases a,
{
    assert(decimal(a).last() == digit(a % 10));
    assert(decimal(b).last() == digit(b % 10));
    assert(digit(a % 10) as int == 48 + a % 10);
    assert(digit(b % 10) as int == 48 + b % 10);
    if a >= 10 && b >= 10 {
        assert(decimal(a).drop_last() =~= decimal(a / 10));
        assert(decimal(b).drop_last() =~= decimal(b / 10));
        decimal_tells_numbers_apart(a / 10, b / 10);
    } else if a >= 10 {
        decimal_is_not_empty(a / 10);
        assert(decimal(a).len() > 1);
    } else if b >= 10 {
        decimal_is_not_empty(b / 10);
        assert(decimal(b).len() > 1);
    }
}

/// A number is written with digits only, and with one at least.
pub proof fn decimal_is_not_empty(n: nat)
    ensures
        decimal(n).len() > 0,
        forall|i: int|
            0 <= i < decimal(n).len() ==> '0' <= #[trigger] decimal(n)[i] && decimal(n)[i] <= '9',
    decreases n,
{
    if n >= 10 {
        decimal_is_not_empty(n / 10);
    }
}

/// The number that a text of digits spells.
pub open spec fn spelled(digits: Seq<char>) -> int
    decreases digits.len(),
{
    if digits.len() == 0 {
        0
    } else {
        10 * spelled(digits.drop_last()) + (digits.last() as int - '0' as int)
    }
}

/// A number that was written down is read back, and no zero stands in front
/// of it.
pub proof fn decimal_reads_back(n: nat)
    ensures
        spelled(decimal(n)) == n,
        n > 0 ==> decimal(n)[0] != '0',
    decreases n,
{
    if n < 10 {
        assert(decimal(n).drop_last() =~= Seq::empty());
        assert(spelled(Seq::<char>::empty()) == 0);
        assert(digit(n) as int == 48 + n);
    } else {
        decimal_reads_back(n / 10);
        decimal_is_not_empty(n / 10);
        assert(decimal(n).drop_last() =~= decimal(n / 10));
        assert(digit(n % 10) as int == 48 + n % 10);
        assert(decimal(n)[0] == decimal(n / 10)[0]);
    }
}

/// Capitals from A to Z turn to the letters at the same place from a to z,
/// and nothing else changes.
pub proof fn capitals_turn_small(s: Seq<char>)
    ensures
        ascii_lower(s).len() == s.len(),
        forall|i: int|
            0 <= i < s.len() ==> if 'A' <= #[trigger] s[i] && s[i] <= 'Z' {
                ascii_lower(s)[i] as int - 'a' as int == s[i] as int - 'A' as int
            } else {
                ascii_lower(s)[i] == s[i]
            },
        ascii_lower(ascii_lower(s)) == ascii_lower(s),
{
    let low = ascii_lower(s);
    assert forall|i: int| 0 <= i < s.len() implies if 'A' <= #[trigger] s[i] && s[i] <= 'Z' {
        low[i] as int - 'a' as int == s[i] as int - 'A' as int
    } else {
        low[i] == s[i]
    } by {
        assert(low[i] == small_letter(s[i]));
    }
    assert(ascii_lower(low) =~= low);
}

/// A text holds another exactly where it is made of that one with something,
/// or nothing, before and behind.
pub proof fn texts_hold_what_they_are_made_of(
    front: Seq<char>,
    part: Seq<char>,
    back: Seq<char>,
    whole: Seq<char>,
)
    ensures
        occurs_in(front + part + back, part),
        occurs_in(whole, part) ==> exists|i: int|
            0 <= i && i + part.len() <= whole.len() && whole == #[trigger] whole.take(i) + part
                + whole.skip(i + part.len()),
{
    let made = front + part + back;
    let at = front.len() as int;
    assert(made.subrange(at, at + part.len()) =~= part);
    assert(occurs_at(made, part, at));
    if occurs_in(whole, part) {
        let i = choose|i: int| occurs_at(whole, part, i);
        assert(whole =~= whole.take(i) + part + whole.skip(i + part.len()));
    }
}

/// A text ends in another exactly where it is made of something, or nothing,
/// and that one behind it.
pub proof fn texts_end_in_what_comes_last(front: Seq<char>, ending: Seq<char>, whole: Seq<char>)
    ensures
        is_ending(front + ending, ending),
        is_ending(whole, ending) ==> whole == whole.take(whole.len() - ending.len()) + ending,
{
    let made = front + ending;
    assert(made.skip(made.len() - ending.len()) =~= ending);
    if is_ending(whole, ending) {
        assert(whole =~= whole.take(whole.len() - ending.len()) + ending);
    }
}

} // verus!
