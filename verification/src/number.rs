//! Decimal notation of unsigned integers: writing it and reading it back.
use crate::text::{chars_of, set_text};
use vstd::prelude::*;

verus! {

/// Why a text is not an unsigned integer.
#[derive(Clone, Copy, Debug, PartialEq, Eq, Structural)]
pub enum IntError {
    /// The text is empty.
    Empty,
    /// A character is not a digit.
    InvalidDigit,
    /// The number is too large.
    PosOverflow,
}

impl IntError {
    /// What the error says.
    pub open spec fn text(self) -> Seq<char> {
        match self {
            IntError::Empty => "cannot parse integer from empty string"@,
            IntError::InvalidDigit => "invalid digit found in string"@,
            IntError::PosOverflow => "number too large to fit in target type"@,
        }
    }

    /// The error as text.
    pub fn message(&self) -> (text: String)
        ensures
            text@ == self.text(),
    {
        match self {
            IntError::Empty => "cannot parse integer from empty string".to_owned(),
            IntError::InvalidDigit => "invalid digit found in string".to_owned(),
            IntError::PosOverflow => "number too large to fit in target type".to_owned(),
        }
    }
}

/// The digit that stands for `d`.
pub open spec fn digit_char(d: nat) -> char {
    (48 + d) as char
}

/// Whether `c` is one of the ten digits.
pub open spec fn is_digit(c: char) -> bool {
    '0' <= c <= '9'
}

/// The decimal notation of `n`, without leading zeros.
pub open spec fn decimal(n: nat) -> Seq<char>
    decreases n,
{
    if n < 10 {
        seq![digit_char(n)]
    } else {
        decimal(n / 10).push(digit_char(n % 10))
    }
}

/// The number that a row of digits denotes; an empty row denotes zero.
pub open spec fn decimal_value(digits: Seq<char>) -> nat
    decreases digits.len(),
{
    if digits.len() == 0 {
        0
    } else {
        (decimal_value(digits.drop_last()) * 10 + (digits.last() as int - 48)) as nat
    }
}

/// How many digits stand at the start of `s`.
pub open spec fn leading_digits(s: Seq<char>) -> nat
    decreases s.len(),
{
    if s.len() == 0 || !is_digit(s[0]) {
        0
    } else {
        1 + leading_digits(s.drop_first())
    }
}

/// `s` without a leading plus sign, where more than the sign is there.
pub open spec fn unsigned_part(s: Seq<char>) -> Seq<char> {
    if s.len() > 1 && s[0] == '+' {
        s.drop_first()
    } else {
        s
    }
}

/// What reading `s` as a `usize` gives. An optional plus sign and a row of
/// digits denote a number. Otherwise the first fault from the left counts:
/// the number exceeds the type, or a character is not a digit.
pub open spec fn parsed_usize(s: Seq<char>) -> Result<usize, IntError> {
    let body = unsigned_part(s);
    let n = leading_digits(body);
    if s.len() == 0 {
        Err(IntError::Empty)
    } else if decimal_value(body.take(n as int)) > usize::MAX {
        Err(IntError::PosOverflow)
    } else if n < body.len() {
        Err(IntError::InvalidDigit)
    } else {
        Ok(decimal_value(body) as usize)
    }
}

proof fn lemma_leading_digits(s: Seq<char>, i: int)
    requires
        0 <= i <= s.len(),
        forall|j: int| 0 <= j < i ==> is_digit(#[trigger] s[j]),
        i == s.len() || !is_digit(s[i]),
    ensures
        leading_digits(s) == i,
    decreases i,
{
    if i > 0 {
        assert(is_digit(s[0]));
        let rest = s.drop_first();
        assert forall|j: int| 0 <= j < i - 1 implies is_digit(#[trigger] rest[j]) by {
            assert(is_digit(s[j + 1]));
        }
        lemma_leading_digits(rest, i - 1);
    }
}

proof fn lemma_leading_digits_bound(s: Seq<char>)
    ensures
        leading_digits(s) <= s.len(),
        forall|j: int| 0 <= j < leading_digits(s) ==> is_digit(#[trigger] s[j]),
    decreases s.len(),
{
    if s.len() > 0 && is_digit(s[0]) {
        lemma_leading_digits_bound(s.drop_first());
        assert forall|j: int| 0 <= j < leading_digits(s) implies is_digit(#[trigger] s[j]) by {
            if j > 0 {
                assert(s.drop_first()[j - 1] == s[j]);
            }
        }
    }
}

/// A longer row of digits denotes at least as much.
proof fn lemma_value_grows(s: Seq<char>, i: int, n: int)
    requires
        0 <= i <= n <= s.len(),
        forall|j: int| 0 <= j < n ==> is_digit(#[trigger] s[j]),
    ensures
        decimal_value(s.take(i)) <= decimal_value(s.take(n)),
    decreases n - i,
{
    if i < n {
        lemma_value_grows(s, i, n - 1);
        assert(s.take(n).drop_last() =~= s.take(n - 1));
        assert(s.take(n).last() == s[n - 1]);
        assert(is_digit(s[n - 1]));
    }
}

/// Reads `text` as a `usize`.
pub fn parse_usize(text: &str) -> (n: Result<usize, IntError>)
    ensures
        n == parsed_usize(text@),
{
    let list = chars_of(text);
    if list.len() == 0 {
        return Err(IntError::Empty);
    }
    let start: usize = if list.len() > 1 && list[0] == '+' {
        1
    } else {
        0
    };
    let ghost body = unsigned_part(text@);
    assert(body =~= list@.skip(start as int));
    let mut value: usize = 0;
    let mut i: usize = start;
    while i < list.len()
        invariant
            start <= i <= list.len(),
            list@ == text@,
            text@.len() > 0,
            body == unsigned_part(text@),
            body == list@.skip(start as int),
            value == decimal_value(body.take(i - start)),
            forall|j: int| 0 <= j < i - start ==> is_digit(#[trigger] body[j]),
        decreases list.len() - i,
    {
        let c = list[i];
        let ghost at = i - start;
        assert(body[at] == c);
        if !(c >= '0' && c <= '9') {
            proof {
                lemma_leading_digits(body, at);
            }
            return Err(IntError::InvalidDigit);
        }
        let digit: usize = (c as u32 - 48) as usize;
        proof {
            assert(body.take(at + 1).drop_last() =~= body.take(at));
            assert(body.take(at + 1).last() == c);
            assert(decimal_value(body.take(at + 1)) == value * 10 + digit);
        }
        if value > usize::MAX / 10 || value * 10 > usize::MAX - digit {
            proof {
                lemma_leading_digits_bound(body);
                lemma_leading_digits_reach(body, at + 1);
                lemma_value_grows(body, at + 1, leading_digits(body) as int);
            }
            return Err(IntError::PosOverflow);
        }
        value = value * 10 + digit;
        i += 1;
    }
    proof {
        lemma_leading_digits(body, body.len() as int);
        assert(body.take(body.len() as int) =~= body);
    }
    Ok(value)
}

proof fn lemma_leading_digits_reach(s: Seq<char>, i: int)
    requires
        0 <= i <= s.len(),
        forall|j: int| 0 <= j < i ==> is_digit(#[trigger] s[j]),
    ensures
        leading_digits(s) >= i,
    decreases i,
{
    if i > 0 {
        assert(is_digit(s[0]));
        let rest = s.drop_first();
        assert forall|j: int| 0 <= j < i - 1 implies is_digit(#[trigger] rest[j]) by {
            assert(is_digit(s[j + 1]));
        }
        lemma_leading_digits_reach(rest, i - 1);
    }
}

fn digit_text(d: u64) -> (text: &'static str)
    requires
        d < 10,
    ensures
        text@ == seq![digit_char(d as nat)],
{
    proof {
        reveal_strlit("0");
        reveal_strlit("1");
        reveal_strlit("2");
        reveal_strlit("3");
        reveal_strlit("4");
        reveal_strlit("5");
        reveal_strlit("6");
        reveal_strlit("7");
        reveal_strlit("8");
        reveal_strlit("9");
    }
    let text = match d {
        0 => "0",
        1 => "1",
        2 => "2",
        3 => "3",
        4 => "4",
        5 => "5",
        6 => "6",
        7 => "7",
        8 => "8",
        _ => "9",
    };
    assert(text@ =~= seq![digit_char(d as nat)]);
    text
}

/// Writes `n` in decimal notation.
pub fn decimal_text(n: u64) -> (text: String)
    ensures
        text@ == decimal(n as nat),
    decreases n,
{
    if n < 10 {
        digit_text(n).to_owned()
    } else {
        let mut text = decimal_text(n / 10);
        text.append(digit_text(n % 10));
        assert(text@ =~= decimal((n / 10) as nat).push(digit_char((n % 10) as nat)));
        text
    }
}

/// The decimal notation of `n` is a row of digits that denotes `n`.
pub proof fn lemma_decimal(n: nat)
    ensures
        decimal(n).len() > 0,
        forall|j: int| 0 <= j < decimal(n).len() ==> is_digit(#[trigger] decimal(n)[j]),
        decimal_value(decimal(n)) == n,
    decreases n,
{
    if n < 10 {
        let s = decimal(n);
        assert(s.drop_last() =~= Seq::<char>::empty());
        assert(decimal_value(s.drop_last()) == 0);
    } else {
        lemma_decimal(n / 10);
        let s = decimal(n);
        assert(s.drop_last() =~= decimal(n / 10));
        assert forall|j: int| 0 <= j < s.len() implies is_digit(#[trigger] s[j]) by {
            if j < s.len() - 1 {
                assert(s[j] == decimal(n / 10)[j]);
            }
        }
    }
}

/// Reading the decimal notation of a `usize` gives that number back.
pub proof fn decimal_reads_back(n: usize)
    ensures
        parsed_usize(decimal(n as nat)) == Ok::<usize, IntError>(n),
{
    let s = decimal(n as nat);
    lemma_decimal(n as nat);
    assert(is_digit(s[0]));
    assert(unsigned_part(s) == s);
    lemma_leading_digits(s, s.len() as int);
    assert(s.take(s.len() as int) =~= s);
}

/// The value of a numeric setting: the text where it is there and denotes a
/// `usize`, and `default` otherwise.
pub open spec fn setting_value(text: Option<Seq<char>>, default: usize) -> usize {
    match text {
        Some(t) => match parsed_usize(t) {
            Ok(n) => n,
            Err(_) => default,
        },
        None => default,
    }
}

/// Reads a numeric setting, falling back to `default`.
pub fn setting(text: Option<&str>, default: usize) -> (n: usize)
    ensures
        n == setting_value(set_text(text), default),
{
    match text {
        Some(t) => match parse_usize(t) {
            Ok(n) => n,
            Err(_) => default,
        },
        None => default,
    }
}

/// The decimal notation of an integer, with a minus sign where it is negative.
pub open spec fn signed(n: int) -> Seq<char> {
    if n < 0 {
        "-"@ + decimal((-n) as nat)
    } else {
        decimal(n as nat)
    }
}

/// The decimal notation of `n`.
pub fn signed_text(n: i32) -> (text: String)
    ensures
        text@ == signed(n as int),
{
    if n < 0 {
        let mut text = "-".to_owned();
        text.append(decimal_text((-(n as i64)) as u64).as_str());
        text
    } else {
        decimal_text(n as u64)
    }
}

/// Decimal notation: each number below ten is its digit, and the notation of
/// `10 * n + d` is that of `n` with the digit of `d` behind it.
pub proof fn digits_stand_in_their_places(n: nat, d: nat)
    requires
        d < 10,
    ensures
        decimal(0) == seq!['0'],
        decimal(1) == seq!['1'],
        decimal(2) == seq!['2'],
        decimal(3) == seq!['3'],
        decimal(4) == seq!['4'],
        decimal(5) == seq!['5'],
        decimal(6) == seq!['6'],
        decimal(7) == seq!['7'],
        decimal(8) == seq!['8'],
        decimal(9) == seq!['9'],
        n > 0 ==> decimal(10 * n + d) == decimal(n) + decimal(d),
        signed(n as int) == decimal(n),
        n > 0 ==> signed(-(n as int)) == seq!['-'] + decimal(n),
{
    reveal_strlit("-");
    assert("-"@ =~= seq!['-']);
    if n > 0 {
        let m = 10 * n + d;
        assert(m / 10 == n && m % 10 == d);
        assert(decimal(n) + decimal(d) =~= decimal(n).push(digit_char(d)));
    }
}

/// Reading a row of digits: a digit behind a number makes it ten times as much
/// and the digit more, as long as that is a `usize`. A plus sign before a row
/// of digits changes nothing.
pub proof fn digits_are_read_in_their_places(s: Seq<char>, c: char)
    requires
        s.len() > 0,
        forall|j: int| 0 <= j < s.len() ==> '0' <= #[trigger] s[j] <= '9',
        '0' <= c <= '9',
    ensures
        parsed_usize(seq![c]) == Ok::<usize, IntError>((c as int - '0' as int) as usize),
        parsed_usize(s) is Ok || parsed_usize(s) == Err::<usize, _>(IntError::PosOverflow),
        match parsed_usize(s) {
            Ok(n) => parsed_usize(s.push(c)) == if 10 * n + (c as int - '0' as int) <= usize::MAX {
                Ok::<usize, IntError>((10 * n + (c as int - '0' as int)) as usize)
            } else {
                Err(IntError::PosOverflow)
            },
            Err(e) => parsed_usize(s.push(c)) == Err::<usize, _>(e),
        },
        parsed_usize(seq!['+'] + s) == parsed_usize(s),
{
    let one = seq![c];
    let t = s.push(c);
    let plus = seq!['+'] + s;
    assert(is_digit(s[0]));
    assert(unsigned_part(s) == s && unsigned_part(one) == one);
    assert(t[0] == s[0]);
    assert(unsigned_part(t) == t);
    assert(unsigned_part(plus) =~= s);
    lemma_leading_digits(s, s.len() as int);
    lemma_leading_digits(one, 1);
    assert forall|j: int| 0 <= j < t.len() implies is_digit(#[trigger] t[j]) by {
        if j < s.len() {
            assert(t[j] == s[j]);
        }
    }
    lemma_leading_digits(t, t.len() as int);
    assert(s.take(s.len() as int) =~= s);
    assert(one.take(1) =~= one);
    assert(t.take(t.len() as int) =~= t);
    assert(t.drop_last() =~= s);
    assert(one.drop_last() =~= Seq::<char>::empty());
    assert(decimal_value(one.drop_last()) == 0);
}

/// Only an optional plus sign and a row of digits is read as a number. The
/// empty text and a number that is too large have errors of their own.
pub proof fn only_digits_are_read(s: Seq<char>)
    ensures
        parsed_usize(s) is Ok ==> {
            let from: int = if s.len() > 0 && s[0] == '+' {
                1
            } else {
                0
            };
            from < s.len() && forall|j: int| from <= j < s.len() ==> '0' <= #[trigger] s[j] <= '9'
        },
        parsed_usize(s) == Err::<usize, _>(IntError::Empty) <==> s.len() == 0,
        parsed_usize(s) == Err::<usize, _>(IntError::PosOverflow) ==> exists|i: int, n: int|
            0 <= i < n <= s.len() && (forall|j: int| i <= j < n ==> '0' <= #[trigger] s[j] <= '9')
                && #[trigger] decimal_value(s.subrange(i, n)) > usize::MAX,
{
    let body = unsigned_part(s);
    lemma_leading_digits_bound(body);
    let n = leading_digits(body) as int;
    let from: int = if s.len() > 1 && s[0] == '+' {
        1
    } else {
        0
    };
    assert(body =~= s.skip(from));
    if parsed_usize(s) is Ok {
        assert forall|j: int| from <= j < s.len() implies '0' <= #[trigger] s[j] <= '9' by {
            assert(is_digit(body[j - from]));
        }
        if s.len() == 1 {
            assert('0' <= s[0] <= '9');
        }
    }
    if parsed_usize(s) == Err::<usize, _>(IntError::PosOverflow) {
        assert(body.take(n) =~= s.subrange(from, from + n));
        if n == 0 {
            assert(body.take(0).len() == 0);
        }
        assert forall|j: int| from <= j < from + n implies '0' <= #[trigger] s[j] <= '9' by {
            assert(is_digit(body[j - from]));
        }
        assert(decimal_value(s.subrange(from, from + n)) > usize::MAX);
    }
}

/// A setting is the number that its text denotes, and the default where the
/// text is not there or denotes none.
pub proof fn a_setting_is_its_number_or_the_default(text: Seq<char>, default: usize)
    ensures
        setting_value(None, default) == default,
        parsed_usize(text) is Ok ==> setting_value(Some(text), default) == parsed_usize(
            text,
        )->Ok_0,
        parsed_usize(text) is Err ==> setting_value(Some(text), default) == default,
{
}

} // verus!
