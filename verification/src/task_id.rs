//! Job identifiers as they appear in operation names: the decimal text of an
//! unsigned machine integer, written and read back.
use vstd::prelude::*;

verus! {

/// Why the text of a job identifier could not be read.
#[derive(Debug, Clone, Copy, PartialEq, Eq, Structural)]
pub enum IntParseError {
    /// The text is empty.
    Empty,
    /// The text holds a character that is not a decimal digit (a single
    /// leading `+` aside), or is a lone `+`.
    InvalidDigit,
    /// The number does not fit in a `usize`.
    PosOverflow,
}

/// The character of a decimal digit.
pub open spec fn digit_char(d: int) -> char
    recommends
        0 <= d < 10,
{
    if d == 0 {
        '0'
    } else if d == 1 {
        '1'
    } else if d == 2 {
        '2'
    } else if d == 3 {
        '3'
    } else if d == 4 {
        '4'
    } else if d == 5 {
        '5'
    } else if d == 6 {
        '6'
    } else if d == 7 {
        '7'
    } else if d == 8 {
        '8'
    } else {
        '9'
    }
}

/// Whether `c` is one of `0` to `9`.
pub open spec fn is_digit(c: char) -> bool {
    '0' <= c && c <= '9'
}

/// The value of a decimal digit character.
pub open spec fn digit_value(c: char) -> int {
    c as int - 48
}

/// The decimal text of `n`, without sign or leading zeros.
pub open spec fn decimal(n: nat) -> Seq<char>
    decreases n,
{
    if n < 10 {
        seq![digit_char(n as int)]
    } else {
        decimal(n / 10).push(digit_char((n % 10) as int))
    }
}

/// Reads the digits `s` from left to right onto the value `acc` read so far:
/// the first character that is not a digit is an error, and so is a value
/// that leaves the range of `usize`, at the digit where that happens.
pub open spec fn read_digits(acc: int, s: Seq<char>) -> Result<int, IntParseError>
    decreases s.len(),
{
    if s.len() == 0 {
        Ok(acc)
    } else if !is_digit(s[0]) {
        Err(IntParseError::InvalidDigit)
    } else if acc * 10 + digit_value(s[0]) > usize::MAX {
        Err(IntParseError::PosOverflow)
    } else {
        read_digits(acc * 10 + digit_value(s[0]), s.drop_first())
    }
}

/// The reading of `s` as an unsigned decimal integer: an optional `+`
/// followed by one or more decimal digits.
pub open spec fn parse_usize(s: Seq<char>) -> Result<int, IntParseError> {
    if s.len() == 0 {
        Err(IntParseError::Empty)
    } else if s[0] == '+' {
        if s.len() == 1 {
            Err(IntParseError::InvalidDigit)
        } else {
            read_digits(0, s.drop_first())
        }
    } else {
        read_digits(0, s)
    }
}

/// The message that describes each kind of error.
pub open spec fn error_message(e: IntParseError) -> Seq<char> {
    match e {
        IntParseError::Empty => "cannot parse integer from empty string"@,
        IntParseError::InvalidDigit => "invalid digit found in string"@,
        IntParseError::PosOverflow => "number too large to fit in target type"@,
    }
}

impl IntParseError {
    /// The message that describes the error.
    pub fn description(&self) -> (r: String)
        ensures
            r@ == error_message(*self),
    {
        match self {
            IntParseError::Empty => {
                let m = "cannot parse integer from empty string";
                proof {
                    reveal_strlit("cannot parse integer from empty string");
                }
                String::from_str(m)
            },
            IntParseError::InvalidDigit => {
                let m = "invalid digit found in string";
                proof {
                    reveal_strlit("invalid digit found in string");
                }
                String::from_str(m)
            },
            IntParseError::PosOverflow => {
                let m = "number too large to fit in target type";
                proof {
                    reveal_strlit("number too large to fit in target type");
                }
                String::from_str(m)
            },
        }
    }
}

/// The one-character text of the digit `d`.
fn digit_str(d: usize) -> (r: &'static str)
    requires
        d < 10,
    ensures
        r@ == seq![digit_char(d as int)],
{
    proof {
        reveal_strlit("0");
        reveal_strlit("1");
        reveal_strlit("2");
        reveal_strlit("3");
        reveal_strlit("4");
        reveal_strlit("5");
        reveal_strlit("6");
        reveal_strlit("7");
        reveal_strlit("8");
        reveal_strlit("9");
    }
    if d == 0 {
        "0"
    } else if d == 1 {
        "1"
    } else if d == 2 {
        "2"
    } else if d == 3 {
        "3"
    } else if d == 4 {
        "4"
    } else if d == 5 {
        "5"
    } else if d == 6 {
        "6"
    } else if d == 7 {
        "7"
    } else if d == 8 {
        "8"
    } else {
        "9"
    }
}

/// Appends the decimal text of `n` to `out`.
fn append_decimal(n: usize, out: &mut String)
    ensures
        final(out)@ == old(out)@ + decimal(n as nat),
    decreases n,
{
    if n >= 10 {
        append_decimal(n / 10, out);
    }
    out.append(digit_str(n % 10));
    proof {
        if n >= 10 {
            assert(decimal(n as nat) == decimal((n / 10) as nat).push(digit_char((n % 10) as int)));
        }
    }
}

/// The decimal text of a job identifier, as it names the job's operation.
pub fn format_task_id(id: usize) -> (r: String)
    ensures
        r@ == decimal(id as nat),
{
    let mut out = String::new();
    append_decimal(id, &mut out);
    out
}

/// Reads a job identifier from the name of an operation: an optional `+`
/// and then decimal digits, whose value fits in a `usize`.
pub fn parse_task_id(s: &str) -> (r: Result<usize, IntParseError>)
    ensures
        match parse_usize(s@) {
            Ok(v) => r matches Ok(x) && x == v,
            Err(e) => r == Err::<usize, IntParseError>(e),
        },
{
    let len = s.unicode_len();
    if len == 0 {
        return Err(IntParseError::Empty);
    }
    let mut start: usize = 0;
    if s.get_char(0) == '+' {
        if len == 1 {
            return Err(IntParseError::InvalidDigit);
        }
        start = 1;
    }
    let ghost digits = s@.subrange(start as int, len as int);
    assert(parse_usize(s@) == read_digits(0, digits)) by {
        if start == 1 {
            assert(digits =~= s@.drop_first());
        } else {
            assert(digits =~= s@);
        }
    }
    let mut acc: usize = 0;
    let mut i: usize = start;
    while i < len
        invariant
            len == s@.len(),
            start <= i <= len,
            digits == s@.subrange(start as int, len as int),
            parse_usize(s@) == read_digits(0, digits),
            read_digits(0, digits) == read_digits(acc as int, s@.subrange(i as int, len as int)),
        decreases len - i,
    {
        let c = s.get_char(i);
        let ghost rest = s@.subrange(i as int, len as int);
        assert(rest[0] == c);
        assert(rest.drop_first() =~= s@.subrange(i + 1, len as int));
        if c < '0' || c > '9' {
            assert(read_digits(acc as int, rest) == Err::<int, IntParseError>(IntParseError::InvalidDigit));
            return Err(IntParseError::InvalidDigit);
        }
        let d: usize = (c as u32 - 48) as usize;
        assert(d as int == digit_value(c));
        if acc > (usize::MAX - d) / 10 {
            assert(acc * 10 + d > usize::MAX) by (nonlinear_arith)
                requires
                    acc > (usize::MAX - d) / 10,
                    d < 10,
            ;
            assert(read_digits(acc as int, rest) == Err::<int, IntParseError>(IntParseError::PosOverflow));
            return Err(IntParseError::PosOverflow);
        }
        assert(acc * 10 + d <= usize::MAX) by (nonlinear_arith)
            requires
                acc <= (usize::MAX - d) / 10,
                d < 10,
        ;
        acc = acc * 10 + d;
        i = i + 1;
    }
    assert(s@.subrange(i as int, len as int).len() == 0);
    Ok(acc)
}

/// Each digit character is a digit of its own value.
proof fn lemma_digit_char(d: int)
    requires
        0 <= d < 10,
    ensures
        is_digit(digit_char(d)),
        digit_value(digit_char(d)) == d,
{
}

/// Reading one more digit after `s` continues from where reading `s` stopped.
proof fn lemma_read_digits_push(acc: int, s: Seq<char>, c: char)
    requires
        read_digits(acc, s) is Ok,
    ensures
        read_digits(acc, s.push(c)) == read_digits(read_digits(acc, s)->Ok_0, seq![c]),
    decreases s.len(),
{
    if s.len() > 0 {
        assert(s.push(c).drop_first() =~= s.drop_first().push(c));
        lemma_read_digits_push(acc * 10 + digit_value(s[0]), s.drop_first(), c);
    } else {
        assert(s.push(c) =~= seq![c]);
    }
}

/// The decimal text of a number reads back as that number, as long as the
/// number fits in a `usize`.
proof fn lemma_read_decimal(n: nat)
    requires
        n <= usize::MAX,
    ensures
        read_digits(0, decimal(n)) == Ok::<int, IntParseError>(n as int),
    decreases n,
{
    if n < 10 {
        lemma_digit_char(n as int);
        assert(seq![digit_char(n as int)].drop_first() =~= Seq::<char>::empty());
        assert(read_digits(n as int, Seq::<char>::empty()) == Ok::<int, IntParseError>(n as int));
    } else {
        lemma_digit_char((n % 10) as int);
        lemma_read_decimal(n / 10);
        lemma_read_digits_push(0, decimal(n / 10), digit_char((n % 10) as int));
        let c = digit_char((n % 10) as int);
        assert(seq![c].drop_first() =~= Seq::<char>::empty());
        assert((n / 10) * 10 + n % 10 == n);
        assert(read_digits(n as int, Seq::<char>::empty()) == Ok::<int, IntParseError>(n as int));
        assert(read_digits((n / 10) as int, seq![c]) == Ok::<int, IntParseError>(n as int));
    }
}

/// The first character of a decimal text is a digit.
proof fn lemma_decimal_starts_with_digit(n: nat)
    ensures
        decimal(n).len() > 0,
        is_digit(decimal(n)[0]),
    decreases n,
{
    if n >= 10 {
        lemma_decimal_starts_with_digit(n / 10);
    }
}

/// Reading the name that `format_task_id` writes gives back the identifier.
pub proof fn lemma_task_id_round_trip(id: usize)
    ensures
        parse_usize(decimal(id as nat)) == Ok::<int, IntParseError>(id as int),
{
    lemma_decimal_starts_with_digit(id as nat);
    lemma_read_decimal(id as nat);
}

} // verus!
