//! Characters and numbers as text.

use vstd::prelude::*;
use vstd::string::*;

verus! {

/// The decimal digit `d`, for `d` below ten.
pub open spec fn digit(d: nat) -> char {
    (48 + d) as char
}

/// A number in decimal, without leading zeros.
pub open spec fn decimal(n: nat) -> Seq<char>
    decreases n,
{
    if n < 10 {
        seq![digit(n)]
    } else {
        decimal(n / 10).push(digit(n % 10))
    }
}

/// A signed number in decimal.
pub open spec fn signed_decimal(n: int) -> Seq<char> {
    if n < 0 {
        seq!['-'] + decimal((-n) as nat)
    } else {
        decimal(n as nat)
    }
}

/// The position of the first `wanted` in a text, or the length of the text.
pub open spec fn first_at(text: Seq<char>, wanted: char) -> int
    decreases text.len(),
{
    if text.len() == 0 || text[0] == wanted {
        0
    } else {
        1 + first_at(text.skip(1), wanted)
    }
}

/// The position of the last `wanted` in a text, or -1.
pub open spec fn last_at(text: Seq<char>, wanted: char) -> int
    decreases text.len(),
{
    if text.len() == 0 {
        -1
    } else if text.last() == wanted {
        text.len() - 1
    } else {
        last_at(text.drop_last(), wanted)
    }
}

/// The characters of a text, one by one.
pub fn chars_of(text: &str) -> (chars: Vec<char>)
    ensures
        chars@ == text@,
{
    let mut chars: Vec<char> = Vec::new();
    for c in it: text.chars()
        invariant
            it.seq() == text@,
            chars@ == text@.take(it.index()),
    {
        proof {
            assert(text@.take(it.index() + 1) =~= text@.take(it.index()).push(c));
        }
        chars.push(c);
    }
    assert(text@.take(text@.len() as int) =~= text@);
    chars
}

/// Whether two texts are the same.
pub fn same(a: &str, b: &str) -> (r: bool)
    ensures
        r == (a@ == b@),
{
    let x = chars_of(a);
    let y = chars_of(b);
    if x.len() != y.len() {
        return false;
    }
    let mut i: usize = 0;
    while i < x.len()
        invariant
            x@ == a@,
            y@ == b@,
            x@.len() == y@.len(),
            i <= x@.len(),
            forall|j: int| 0 <= j < i ==> x@[j] == y@[j],
        decreases x@.len() - i,
    {
        if x[i] != y[i] {
            return false;
        }
        i += 1;
    }
    assert(a@ =~= b@);
    true
}

/// One decimal digit as text.
fn digit_text(d: u64) -> (text: &'static str)
    requires
        d < 10,
    ensures
        text@ == seq![digit(d as nat)],
{
    proof {
        reveal_strlit("0");
        reveal_strlit("1");
        reveal_strlit("2");
        reveal_strlit("3");
        reveal_strlit("4");
        reveal_strlit("5");
        reveal_strlit("6");
        reveal_strlit("7");
        reveal_strlit("8");
        reveal_strlit("9");
    }
    if d == 0 {
        "0"
    } else if d == 1 {
        "1"
    } else if d == 2 {
        "2"
    } else if d == 3 {
        "3"
    } else if d == 4 {
        "4"
    } else if d == 5 {
        "5"
    } else if d == 6 {
        "6"
    } else if d == 7 {
        "7"
    } else if d == 8 {
        "8"
    } else {
        "9"
    }
}

/// Writes a number in decimal at the end of a text.
pub fn push_decimal(out: &mut String, n: u64)
    ensures
        final(out)@ == old(out)@ + decimal(n as nat),
    decreases n,
{
    let ghost before = out@;
    if n >= 10 {
        push_decimal(out, n / 10);
    }
    out.append(digit_text(n % 10));
    proof {
        let last = seq![digit(n as nat % 10)];
        if n >= 10 {
            assert(decimal(n as nat) =~= decimal(n as nat / 10) + last);
            assert(out@ =~= before + (decimal(n as nat / 10) + last));
        } else {
            assert(decimal(n as nat) =~= last);
        }
    }
}

/// Writes a signed number in decimal at the end of a text.
pub fn push_signed(out: &mut String, n: i64)
    ensures
        final(out)@ == old(out)@ + signed_decimal(n as int),
{
    let ghost before = out@;
    if n < 0 {
        proof {
            reveal_strlit("-");
            assert("-"@ =~= seq!['-']);
        }
        out.append("-");
        let magnitude: u64 = (-(n + 1)) as u64 + 1;
        push_decimal(out, magnitude);
        assert(out@ =~= before + (seq!['-'] + decimal((-n) as nat)));
    } else {
        push_decimal(out, n as u64);
    }
}

/// Three texts, one after the other.
pub fn join3(a: &str, b: &str, c: &str) -> (text: String)
    ensures
        text@ == a@ + b@ + c@,
{
    let mut text = String::new();
    text.append(a);
    text.append(b);
    text.append(c);
    assert(text@ =~= a@ + b@ + c@);
    text
}

/// The position of the first `wanted`.
pub fn find_first(chars: &Vec<char>, wanted: char) -> (found: Option<usize>)
    ensures
        found matches Some(i) ==> i < chars@.len() && first_at(chars@, wanted) == i,
        found is None ==> first_at(chars@, wanted) == chars@.len(),
{
    let mut i: usize = 0;
    assert(chars@.skip(0) =~= chars@);
    while i < chars.len()
        invariant
            i <= chars@.len(),
            first_at(chars@, wanted) == i + first_at(chars@.skip(i as int), wanted),
        decreases chars@.len() - i,
    {
        if chars[i] == wanted {
            return Some(i);
        }
        assert(chars@.skip(i as int).skip(1) =~= chars@.skip(i + 1));
        i += 1;
    }
    None
}

/// The position of the last `wanted`.
pub fn find_last(chars: &Vec<char>, wanted: char) -> (found: Option<usize>)
    ensures
        found matches Some(i) ==> i < chars@.len() && last_at(chars@, wanted) == i,
        found is None ==> last_at(chars@, wanted) == -1,
{
    let mut i: usize = chars.len();
    assert(chars@.take(chars@.len() as int) =~= chars@);
    while i > 0
        invariant
            i <= chars@.len(),
            last_at(chars@, wanted) == last_at(chars@.take(i as int), wanted),
        decreases i,
    {
        assert(chars@.take(i as int).drop_last() =~= chars@.take(i - 1));
        i -= 1;
        if chars[i] == wanted {
            return Some(i);
        }
    }
    None
}

/// What the position of the first `wanted` says: it stands there, and nowhere before.
pub proof fn lemma_first_at(text: Seq<char>, wanted: char)
    ensures
        0 <= first_at(text, wanted) <= text.len(),
        first_at(text, wanted) < text.len() ==> text[first_at(text, wanted)] == wanted,
        forall|j: int| 0 <= j < first_at(text, wanted) ==> text[j] != wanted,
    decreases text.len(),
{
    if text.len() > 0 && text[0] != wanted {
        let rest = text.skip(1);
        lemma_first_at(rest, wanted);
        assert forall|j: int| 0 <= j < first_at(text, wanted) implies text[j] != wanted by {
            if j > 0 {
                assert(rest[j - 1] == text[j]);
            }
        }
    }
}

/// What the position of the last `wanted` says: it stands there, and nowhere after.
pub proof fn lemma_last_at(text: Seq<char>, wanted: char)
    ensures
        -1 <= last_at(text, wanted) < text.len(),
        last_at(text, wanted) >= 0 ==> text[last_at(text, wanted)] == wanted,
        forall|j: int| last_at(text, wanted) < j < text.len() ==> text[j] != wanted,
    decreases text.len(),
{
    if text.len() > 0 && text.last() != wanted {
        let front = text.drop_last();
        lemma_last_at(front, wanted);
        assert forall|j: int| last_at(text, wanted) < j < text.len() implies text[j] != wanted by {
            if j < front.len() {
                assert(front[j] == text[j]);
            }
        }
    }
}

/// The position of the last `wanted` is where it stands with none after it.
pub proof fn lemma_last_at_is(text: Seq<char>, wanted: char, at: int)
    requires
        -1 <= at < text.len(),
        at >= 0 ==> text[at] == wanted,
        forall|j: int| at < j < text.len() ==> text[j] != wanted,
    ensures
        last_at(text, wanted) == at,
{
    lemma_last_at(text, wanted);
}

/// A number in decimal is made of digits, at least one of them.
pub proof fn lemma_decimal_digits(n: nat)
    ensures
        decimal(n).len() > 0,
        forall|i: int| 0 <= i < decimal(n).len() ==> '0' <= #[trigger] decimal(n)[i] <= '9',
    decreases n,
{
    if n >= 10 {
        lemma_decimal_digits(n / 10);
    }
}

/// The number that a text of decimal digits stands for.
pub open spec fn number_of(text: Seq<char>) -> int
    decreases text.len(),
{
    if text.len() == 0 {
        0
    } else {
        10 * number_of(text.drop_last()) + (text.last() as int - '0' as int)
    }
}

/// The number that a text of decimal digits stands for, after a minus sign if it has
/// one.
pub open spec fn signed_number_of(text: Seq<char>) -> int {
    if text.len() > 0 && text[0] == '-' {
        -number_of(text.skip(1))
    } else {
        number_of(text)
    }
}

/// Whether a text is made of decimal digits, at least one of them, without a zero
/// before others.
pub open spec fn is_number(text: Seq<char>) -> bool {
    &&& text.len() > 0
    &&& forall|i: int| 0 <= i < text.len() ==> '0' <= #[trigger] text[i] <= '9'
    &&& text[0] == '0' ==> text.len() == 1
}

/// A number in decimal reads back as that number, and has no zeros before it.
pub proof fn law_decimal_reads_back(n: nat)
    ensures
        is_number(decimal(n)),
        number_of(decimal(n)) == n,
    decreases n,
{
    lemma_decimal_digits(n);
    if n >= 10 {
        law_decimal_reads_back(n / 10);
        assert(decimal(n).drop_last() =~= decimal(n / 10));
        assert(decimal(n)[0] == decimal(n / 10)[0]);
        assert(number_of(decimal(n / 10)) != 0);
        if decimal(n / 10)[0] == '0' {
            let text = decimal(n / 10);
            assert(text.drop_last() =~= Seq::<char>::empty());
            assert(number_of(text.drop_last()) == 0);
            assert(text.last() == text[0]);
        }
    } else {
        assert(decimal(n).drop_last() =~= Seq::<char>::empty());
        assert(number_of(decimal(n).drop_last()) == 0);
    }
}

/// A signed number in decimal reads back as that number: a minus sign stands before
/// it if and only if it is negative, and then the digits of its magnitude.
pub proof fn law_signed_decimal_reads_back(n: int)
    ensures
        signed_number_of(signed_decimal(n)) == n,
        signed_decimal(n).len() > 0,
        signed_decimal(n)[0] == '-' <==> n < 0,
        n >= 0 ==> is_number(signed_decimal(n)),
        n < 0 ==> is_number(signed_decimal(n).skip(1)),
{
    if n < 0 {
        law_decimal_reads_back((-n) as nat);
        assert(signed_decimal(n).skip(1) =~= decimal((-n) as nat));
    } else {
        law_decimal_reads_back(n as nat);
    }
}

/// Different numbers are written differently.
pub proof fn law_signed_decimal_tells_numbers_apart(n: int, m: int)
    ensures
        signed_decimal(n) == signed_decimal(m) ==> n == m,
{
    law_signed_decimal_reads_back(n);
    law_signed_decimal_reads_back(m);
}

/// Whether a text holds another one, as a whole.
pub open spec fn tells(text: Seq<char>, part: Seq<char>) -> bool {
    exists|i: int| 0 <= i <= text.len() - part.len() && #[trigger] text.subrange(i, i + part.len())
        == part
}

/// A text between two others is told by the three together.
pub proof fn lemma_tells(before: Seq<char>, part: Seq<char>, after: Seq<char>)
    ensures
        tells(before + part + after, part),
{
    let text = before + part + after;
    let i = before.len() as int;
    assert(text.subrange(i, i + part.len()) =~= part);
}

} // verus!
