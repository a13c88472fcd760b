//! Numbers as text, text as numbers, and the few questions asked of text.
use vstd::arithmetic::power::pow;
use vstd::prelude::*;
use vstd::string::*;

verus! {

/// The decimal digit for `d`, where `d < 10`.
pub open spec fn digit(d: nat) -> char {
    (48 + d) as char
}

/// `n` in base ten, without leading zeros.
pub open spec fn decimal(n: nat) -> Seq<char>
    decreases n,
{
    if n < 10 {
        seq![digit(n)]
    } else {
        decimal(n / 10).push(digit(n % 10))
    }
}

/// `n` in base ten, filled up with zeros on the left to at least `width` digits.
pub open spec fn padded(n: nat, width: nat) -> Seq<char> {
    let digits = decimal(n);
    if digits.len() < width {
        Seq::new((width - digits.len()) as nat, |i: int| '0') + digits
    } else {
        digits
    }
}

/// One of the ten ASCII digits.
pub open spec fn is_digit(c: char) -> bool {
    '0' <= c && c <= '9'
}

/// The number that a sequence of digits stands for; 0 for the empty one.
pub open spec fn value(digits: Seq<char>) -> nat
    decreases digits.len(),
{
    if digits.len() == 0 {
        0
    } else {
        (10 * value(digits.drop_last()) + (digits.last() as nat - 48)) as nat
    }
}

/// How many digits `s` starts with.
pub open spec fn digit_run(s: Seq<char>) -> nat
    decreases s.len(),
{
    if s.len() == 0 || !is_digit(s[0]) {
        0
    } else {
        1 + digit_run(s.drop_first())
    }
}

/// Why a text is no id.
#[derive(Clone, Copy, Debug, PartialEq, Eq, Structural)]
pub enum ParseIdError {
    Empty,
    InvalidDigit,
    TooLarge,
}

impl ParseIdError {
    pub open spec fn text(self) -> Seq<char> {
        match self {
            ParseIdError::Empty => "cannot parse integer from empty string"@,
            ParseIdError::InvalidDigit => "invalid digit found in string"@,
            ParseIdError::TooLarge => "number too large to fit in target type"@,
        }
    }

    pub fn message(self) -> (r: &'static str)
        ensures
            r@ == self.text(),
    {
        match self {
            ParseIdError::Empty => "cannot parse integer from empty string",
            ParseIdError::InvalidDigit => "invalid digit found in string",
            ParseIdError::TooLarge => "number too large to fit in target type",
        }
    }
}

/// The digits of an id: all of the text but one leading plus sign.
pub open spec fn id_digits(s: Seq<char>) -> Seq<char> {
    if s.len() > 0 && s[0] == '+' {
        s.drop_first()
    } else {
        s
    }
}

/// What the text of an id stands for. The text is read from the left: a number
/// that has grown too large is reported before a bad character behind it.
pub open spec fn parsed_id(s: Seq<char>) -> Result<u64, ParseIdError> {
    let digits = id_digits(s);
    let run = digits.take(digit_run(digits) as int);
    if s.len() == 0 {
        Err(ParseIdError::Empty)
    } else if value(run) > u64::MAX {
        Err(ParseIdError::TooLarge)
    } else if run.len() == 0 || run.len() < digits.len() {
        Err(ParseIdError::InvalidDigit)
    } else {
        Ok(value(run) as u64)
    }
}

/// The characters with the Unicode property White_Space.
pub open spec fn is_white_space(c: char) -> bool {
    let n = c as u32;
    ||| 0x9 <= n <= 0xd
    ||| n == 0x20
    ||| n == 0x85
    ||| n == 0xa0
    ||| n == 0x1680
    ||| 0x2000 <= n <= 0x200a
    ||| n == 0x2028
    ||| n == 0x2029
    ||| n == 0x202f
    ||| n == 0x205f
    ||| n == 0x3000
}

/// Nothing but white space.
pub open spec fn is_blank_text(s: Seq<char>) -> bool {
    forall|i: int| 0 <= i < s.len() ==> is_white_space(#[trigger] s[i])
}

/// A character that text on one line cannot hold: a control character, line breaks and
/// tabs among them, or one of Unicode's two separators of lines and paragraphs.
pub open spec fn breaks_row(c: char) -> bool {
    let n = c as u32;
    ||| n < 0x20
    ||| 0x7f <= n <= 0x9f
    ||| n == 0x2028
    ||| n == 0x2029
}

/// Text on one line.
pub open spec fn is_row(s: Seq<char>) -> bool {
    forall|i: int| 0 <= i < s.len() ==> !breaks_row(#[trigger] s[i])
}

fn digit_text(d: u64) -> (r: &'static str)
    requires
        d < 10,
    ensures
        r@ == seq![digit(d as nat)],
{
    proof {
        reveal_strlit("0");
        reveal_strlit("1");
        reveal_strlit("2");
        reveal_strlit("3");
        reveal_strlit("4");
        reveal_strlit("5");
        reveal_strlit("6");
        reveal_strlit("7");
        reveal_strlit("8");
        reveal_strlit("9");
    }
    match d {
        0 => "0",
        1 => "1",
        2 => "2",
        3 => "3",
        4 => "4",
        5 => "5",
        6 => "6",
        7 => "7",
        8 => "8",
        _ => "9",
    }
}

/// Appends `n` in base ten.
pub fn append_decimal(out: &mut String, n: u64)
    ensures
        final(out)@ == old(out)@ + decimal(n as nat),
    decreases n,
{
    if n >= 10 {
        append_decimal(out, n / 10);
    }
    out.append(digit_text(n % 10));
}

/// Appends `n` in base ten, filled up with zeros to at least `width` digits.
pub fn append_padded(out: &mut String, n: u64, width: usize)
    ensures
        final(out)@ == old(out)@ + padded(n as nat, width as nat),
{
    let mut digits = String::new();
    append_decimal(&mut digits, n);
    let count: usize = digits.as_str().unicode_len();
    let mut i: usize = count;
    let ghost before = out@;
    proof {
        reveal_strlit("0");
    }
    while i < width
        invariant
            count <= i,
            count <= width ==> i <= width,
            count >= width ==> i == count,
            out@ == before + Seq::new((i - count) as nat, |j: int| '0'),
            "0"@ == seq!['0'],
        decreases width - i,
    {
        out.append("0");
        i += 1;
    }
    let ghost filled = out@;
    out.append(digits.as_str());
    proof {
        assert(digits@ == decimal(n as nat));
        let filler = Seq::new((i - count) as nat, |j: int| '0');
        assert(filled == before + filler);
        assert(out@ == before + (filler + digits@));
        if count < width {
            assert(padded(n as nat, width as nat) == filler + digits@);
        } else {
            assert(filler + digits@ == digits@);
        }
        assert(out@ == before + padded(n as nat, width as nat));
    }
}

/// A run of digits is as long as the digits reach.
proof fn lemma_digit_run(s: Seq<char>, k: nat)
    requires
        k <= s.len(),
        forall|i: int| 0 <= i < k ==> is_digit(#[trigger] s[i]),
    ensures
        k <= digit_run(s) <= s.len(),
        k == s.len() || !is_digit(s[k as int]) ==> digit_run(s) == k,
        forall|i: int| 0 <= i < digit_run(s) ==> is_digit(#[trigger] s[i]),
    decreases s.len(),
{
    if s.len() > 0 && is_digit(s[0]) {
        let rest = s.drop_first();
        let k1: nat = if k == 0 { 0 } else { (k - 1) as nat };
        assert forall|i: int| 0 <= i < k1 implies is_digit(#[trigger] rest[i]) by {
            assert(rest[i] == s[i + 1]);
        }
        lemma_digit_run(rest, k1);
        assert forall|i: int| 0 <= i < digit_run(s) implies is_digit(#[trigger] s[i]) by {
            if i > 0 {
                assert(s[i] == rest[i - 1]);
            }
        }
    }
}

/// More digits behind a number never make it smaller.
proof fn lemma_value_grows(s: Seq<char>, i: int, j: int)
    requires
        0 <= i <= j <= s.len(),
        forall|k: int| 0 <= k < j ==> is_digit(#[trigger] s[k]),
    ensures
        value(s.take(i)) <= value(s.take(j)),
    decreases j,
{
    if i < j {
        lemma_value_grows(s, i, j - 1);
        assert(s.take(j).drop_last() == s.take(j - 1));
        assert(is_digit(s[j - 1]));
    }
}

/// Reads an id: base ten, with one plus sign allowed in front.
pub fn parse_id(text: &str) -> (r: Result<u64, ParseIdError>)
    ensures
        r == parsed_id(text@),
{
    if text.is_empty() {
        return Err(ParseIdError::Empty);
    }
    let ghost digits = id_digits(text@);
    let ghost skip: int = text@.len() - digits.len();
    let mut first: bool = true;
    let mut any: bool = false;
    let mut acc: u64 = 0;
    for c in it: text.chars()
        invariant
            it.seq() == text@,
            digits == id_digits(text@),
            skip == text@.len() - digits.len(),
            text@.len() > 0,
            first == (it.index() == 0),
            any == (it.index() > skip),
            it.index() >= skip || it.index() == 0,
            it.index() >= skip ==> acc == value(digits.take(it.index() - skip)),
            first ==> acc == 0,
            forall|i: int| 0 <= i < it.index() - skip ==> is_digit(#[trigger] digits[i]),
    {
        let ghost k: int = it.index() - skip;
        assert(c == text@[it.index() as int]);
        if first && c == '+' {
            assert(digits.take(0) == Seq::<char>::empty());
        } else {
            assert(k >= 0);
            assert(c == digits[k]);
            assert(digits.take(0) == Seq::<char>::empty());
            if !('0' <= c && c <= '9') {
                proof {
                    lemma_digit_run(digits, k as nat);
                }
                return Err(ParseIdError::InvalidDigit);
            }
            proof {
                assert(digits.take(k + 1).drop_last() == digits.take(k));
                lemma_digit_run(digits, (k + 1) as nat);
                lemma_value_grows(digits, k + 1, digit_run(digits) as int);
            }
            let d: u64 = (c as u64) - 48;
            if acc > u64::MAX / 10 || acc * 10 > u64::MAX - d {
                return Err(ParseIdError::TooLarge);
            }
            acc = acc * 10 + d;
            any = true;
        }
        first = false;
    }
    proof {
        lemma_digit_run(digits, digits.len());
        assert(digits.take(digits.len() as int) == digits);
    }
    if any {
        Ok(acc)
    } else {
        Err(ParseIdError::InvalidDigit)
    }
}

/// True when `text` begins with `prefix`.
pub fn starts_with(text: &str, prefix: &str) -> (r: bool)
    ensures
        r == prefix@.is_prefix_of(text@),
{
    let n: usize = prefix.unicode_len();
    if text.unicode_len() < n {
        return false;
    }
    let mut i: usize = 0;
    while i < n
        invariant
            i <= n,
            n == prefix@.len(),
            n <= text@.len(),
            prefix@.take(i as int) == text@.take(i as int),
        decreases n - i,
    {
        if text.get_char(i) != prefix.get_char(i) {
            assert(prefix@ != text@.take(n as int));
            return false;
        }
        i += 1;
    }
    assert(prefix@.take(n as int) == prefix@);
    true
}

/// True when `text` holds nothing but white space.
pub fn is_blank(text: &str) -> (r: bool)
    ensures
        r == is_blank_text(text@),
{
    for c in it: text.chars()
        invariant
            it.seq() == text@,
            forall|i: int| 0 <= i < it.index() ==> is_white_space(#[trigger] text@[i]),
    {
        let n: u32 = c as u32;
        let white: bool = (0x9 <= n && n <= 0xd) || n == 0x20 || n == 0x85 || n == 0xa0
            || n == 0x1680 || (0x2000 <= n && n <= 0x200a) || n == 0x2028 || n == 0x2029
            || n == 0x202f || n == 0x205f || n == 0x3000;
        if !white {
            assert(!is_white_space(text@[it.index() as int]));
            return false;
        }
    }
    true
}

/// What `decimal` writes is made of digits and stands for the number it was
/// given.
pub proof fn law_decimal_value(n: nat)
    ensures
        value(decimal(n)) == n,
        decimal(n).len() > 0,
        forall|i: int| 0 <= i < decimal(n).len() ==> is_digit(#[trigger] decimal(n)[i]),
    decreases n,
{
    reveal_with_fuel(value, 2);
    if n >= 10 {
        law_decimal_value(n / 10);
        assert(decimal(n).drop_last() == decimal(n / 10));
    } else {
        assert(decimal(n).drop_last() == Seq::<char>::empty());
    }
}

proof fn lemma_value_of_filled(zeros: nat, digits: Seq<char>)
    ensures
        value(Seq::new(zeros, |i: int| '0') + digits) == value(digits),
    decreases zeros + digits.len(),
{
    let filler = Seq::new(zeros, |i: int| '0');
    let all = filler + digits;
    if digits.len() > 0 {
        assert(all.drop_last() == filler + digits.drop_last());
        lemma_value_of_filled(zeros, digits.drop_last());
    } else if zeros > 0 {
        let fewer = Seq::new((zeros - 1) as nat, |i: int| '0');
        assert(all.drop_last() == fewer + digits);
        lemma_value_of_filled((zeros - 1) as nat, digits);
    } else {
        assert(all == digits);
    }
}

/// Zeros in front change neither the number nor that all is digits; a number
/// that fits its width takes up exactly that width, and a longer one gets no zeros.
pub proof fn law_padded_value(n: nat, width: nat)
    ensures
        value(padded(n, width)) == n,
        padded(n, width).len() >= width,
        padded(n, width).len() > width && padded(n, width).len() > 1 ==> padded(n, width)[0] != '0',
        forall|i: int| 0 <= i < padded(n, width).len() ==> is_digit(#[trigger] padded(n, width)[i]),
        width == 2 && n < 100 ==> padded(n, width).len() == 2,
        width == 4 && n < 10_000 ==> padded(n, width).len() == 4,
{
    law_decimal_value(n);
    law_decimal_writes(n);
    reveal_with_fuel(decimal, 4);
    let digits = decimal(n);
    if digits.len() < width {
        lemma_value_of_filled((width - digits.len()) as nat, digits);
    }
}

/// Reading back an id that was written in base ten gives the id.
pub proof fn law_id_reads_back(n: u64)
    ensures
        parsed_id(decimal(n as nat)) == Ok::<u64, ParseIdError>(n),
{
    let s = decimal(n as nat);
    law_decimal_value(n as nat);
    assert(is_digit(s[0]));
    lemma_digit_run(s, s.len());
    assert(s.take(s.len() as int) == s);
}

/// A number in base ten is a row.
pub(crate) proof fn lemma_decimal_is_row(n: nat)
    ensures
        is_row(decimal(n)),
{
    law_decimal_value(n);
    assert forall|i: int| 0 <= i < decimal(n).len() implies !breaks_row(
        #[trigger] decimal(n)[i],
    ) by {
        assert(is_digit(decimal(n)[i]));
    }
}

/// Digits end where something else begins, whatever follows.
pub(crate) proof fn lemma_digits_end(a: Seq<char>, x: Seq<char>, b: Seq<char>, y: Seq<char>)
    requires
        forall|i: int| 0 <= i < a.len() ==> is_digit(#[trigger] a[i]),
        forall|i: int| 0 <= i < b.len() ==> is_digit(#[trigger] b[i]),
        x.len() > 0 && !is_digit(x[0]),
        y.len() > 0 && !is_digit(y[0]),
        a + x == b + y,
    ensures
        a == b,
        x == y,
{
    let left = a + x;
    let right = b + y;
    assert(left[a.len() as int] == x[0]);
    assert(right[b.len() as int] == y[0]);
    if a.len() < b.len() {
        assert(right[a.len() as int] == b[a.len() as int]);
    } else if b.len() < a.len() {
        assert(left[b.len() as int] == a[b.len() as int]);
    }
    assert(a == left.take(a.len() as int));
    assert(b == right.take(b.len() as int));
    assert(x == left.skip(a.len() as int));
    assert(y == right.skip(b.len() as int));
}

/// What follows one and the same text is the same in equal texts.
pub(crate) proof fn lemma_same_start(start: Seq<char>, x: Seq<char>, y: Seq<char>)
    requires
        start + x == start + y,
    ensures
        x == y,
{
    assert(x == (start + x).skip(start.len() as int));
    assert(y == (start + y).skip(start.len() as int));
}

/// One digit stands for its place behind `0`.
pub proof fn law_value_of_digit(c: char)
    requires
        '0' <= c && c <= '9',
    ensures
        value(seq![c]) == c as int - '0' as int,
{
    reveal_with_fuel(value, 2);
    assert(seq![c].drop_last() == Seq::<char>::empty());
}

/// Digits that are written behind others move those to the left: each digit behind them
/// makes them count ten times as much.
pub proof fn law_value_of_joined(a: Seq<char>, b: Seq<char>)
    requires
        forall|i: int| 0 <= i < a.len() ==> '0' <= #[trigger] a[i] && a[i] <= '9',
        forall|i: int| 0 <= i < b.len() ==> '0' <= #[trigger] b[i] && b[i] <= '9',
    ensures
        value(a + b) == value(a) * pow(10, b.len()) + value(b),
    decreases b.len(),
{
    reveal(pow);
    if b.len() == 0 {
        assert(a + b == a);
    } else {
        let less = b.drop_last();
        assert forall|i: int| 0 <= i < less.len() implies '0' <= #[trigger] less[i] && less[i]
            <= '9' by {
            assert(less[i] == b[i]);
        }
        law_value_of_joined(a, less);
        assert((a + b).drop_last() == a + less);
        assert((a + b).last() == b.last());
        let d: int = b.last() as int - 48;
        let p: int = pow(10, less.len());
        let (va, vl): (int, int) = (value(a) as int, value(less) as int);
        assert(b[b.len() - 1] == b.last());
        assert(10 * (va * p + vl) + d == va * (10 * p) + (10 * vl + d)) by (nonlinear_arith);
    }
}

/// `digits` is how `n` is written in base ten: digits and nothing else, no zero in front
/// of others, and together they stand for `n`.
pub open spec fn writes(digits: Seq<char>, n: nat) -> bool {
    &&& digits.len() > 0
    &&& forall|i: int| 0 <= i < digits.len() ==> '0' <= #[trigger] digits[i] && digits[i] <= '9'
    &&& digits.len() > 1 ==> digits[0] != '0'
    &&& value(digits) == n
}

/// `decimal` writes its number.
pub proof fn law_decimal_writes(n: nat)
    ensures
        writes(decimal(n), n),
    decreases n,
{
    law_decimal_value(n);
    let s = decimal(n);
    assert forall|i: int| 0 <= i < s.len() implies '0' <= #[trigger] s[i] && s[i] <= '9' by {
        assert(is_digit(s[i]));
    }
    if n >= 10 {
        law_decimal_writes(n / 10);
        assert(s[0] == decimal(n / 10)[0]);
        if decimal(n / 10).len() == 1 {
            reveal_with_fuel(value, 2);
            assert(decimal(n / 10).drop_last() == Seq::<char>::empty());
        }
    }
}

/// A number is written in one way only.
pub proof fn law_written_in_one_way(a: Seq<char>, b: Seq<char>, n: nat)
    requires
        writes(a, n),
        writes(b, n),
    ensures
        a == b,
{
    lemma_written(a, n);
    lemma_written(b, n);
}

/// What writes a number is what `decimal` gives for it.
pub(crate) proof fn lemma_written(a: Seq<char>, n: nat)
    requires
        writes(a, n),
    ensures
        a == decimal(n),
    decreases a.len(),
{
    let less = a.drop_last();
    let d: int = a.last() as int - 48;
    assert(a[a.len() - 1] == a.last());
    assert(0 <= d <= 9);
    if a.len() == 1 {
        assert(value(less) == 0);
        assert(n == d);
        assert(a == seq![digit(n)]);
    } else {
        assert forall|i: int| 0 <= i < less.len() implies '0' <= #[trigger] less[i] && less[i]
            <= '9' by {
            assert(less[i] == a[i]);
        }
        assert(less[0] == a[0]);
        assert(n == 10 * value(less) + d);
        assert(n / 10 == value(less) && n % 10 == d);
        lemma_written(less, n / 10);
        if n < 10 {
            assert(value(less) == 0);
            reveal_with_fuel(decimal, 2);
            assert(less == seq![digit(0)]);
            assert(a[0] == '0');
        }
        assert(a == less.push(digit(n % 10)));
    }
}

/// Digits that stand for an id are read as that id, with zeros in front and with a plus sign
/// in front too; digits that stand for more than an id can hold are too large.
pub proof fn law_digits_are_an_id(text: &str, digits: Seq<char>, r: Result<u64, ParseIdError>)
    requires
        call_ensures(parse_id, (text,), r),
        text@ == digits || text@ == seq!['+'] + digits,
        digits.len() > 0,
        forall|i: int| 0 <= i < digits.len() ==> '0' <= #[trigger] digits[i] && digits[i] <= '9',
    ensures
        value(digits) <= 0xffff_ffff_ffff_ffff ==> (r matches Ok(id) && id == value(digits)),
        value(digits) > 0xffff_ffff_ffff_ffff ==> r == Err::<u64, ParseIdError>(
            ParseIdError::TooLarge,
        ),
{
    assert forall|i: int| 0 <= i < digits.len() implies is_digit(#[trigger] digits[i]) by {}
    assert(is_digit(digits[0]));
    assert((seq!['+'] + digits).drop_first() == digits);
    lemma_digit_run(digits, digits.len());
    assert(digits.take(digits.len() as int) == digits);
}

/// A text is no id as soon as a character that is no digit stands in it, but for one plus
/// sign in front. The digits before that character are read first, and the text is too large
/// if they are.
pub proof fn law_other_characters_are_no_id(
    text: &str,
    digits: Seq<char>,
    c: char,
    rest: Seq<char>,
    r: Result<u64, ParseIdError>,
)
    requires
        call_ensures(parse_id, (text,), r),
        text@ == seq!['+'] + digits + seq![c] + rest || (text@ == digits + seq![c] + rest && (
        digits.len() > 0 || c != '+')),
        forall|i: int| 0 <= i < digits.len() ==> '0' <= #[trigger] digits[i] && digits[i] <= '9',
        !('0' <= c && c <= '9'),
    ensures
        r == (if value(digits) > 0xffff_ffff_ffff_ffff {
            Err::<u64, ParseIdError>(ParseIdError::TooLarge)
        } else {
            Err::<u64, ParseIdError>(ParseIdError::InvalidDigit)
        }),
{
    let behind = digits + seq![c] + rest;
    let k: int = digits.len() as int;
    assert((seq!['+'] + digits + seq![c] + rest).drop_first() == behind);
    assert(behind[k] == c);
    assert forall|i: int| 0 <= i < k implies is_digit(#[trigger] behind[i]) by {
        assert(behind[i] == digits[i]);
    }
    if k > 0 {
        assert(behind[0] == digits[0]);
    }
    assert(id_digits(text@) == behind);
    lemma_digit_run(behind, k as nat);
    assert(behind.take(k) == digits);
}

/// A text without a character is empty, and a plus sign alone has a digit missing.
pub proof fn law_no_digits_are_no_id(text: &str, r: Result<u64, ParseIdError>)
    requires
        call_ensures(parse_id, (text,), r),
    ensures
        text@.len() == 0 <==> r == Err::<u64, ParseIdError>(ParseIdError::Empty),
        text@ == seq!['+'] ==> r == Err::<u64, ParseIdError>(ParseIdError::InvalidDigit),
{
    if text@ == seq!['+'] {
        assert(id_digits(text@) == Seq::<char>::empty());
        assert(id_digits(text@).take(0) == Seq::<char>::empty());
    }
}

/// The text of each error.
pub proof fn law_id_error_message(e: ParseIdError, r: &'static str)
    requires
        call_ensures(ParseIdError::message, (e,), r),
    ensures
        e is Empty ==> r@ == "cannot parse integer from empty string"@,
        e is InvalidDigit ==> r@ == "invalid digit found in string"@,
        e is TooLarge ==> r@ == "number too large to fit in target type"@,
{
}

/// A text begins with itself cut off anywhere, and with nothing else.
pub proof fn law_starts_with(text: &str, prefix: &str, r: bool)
    requires
        call_ensures(starts_with, (text, prefix), r),
    ensures
        r <==> (prefix@.len() <= text@.len() && forall|i: int|
            0 <= i < prefix@.len() ==> #[trigger] text@[i] == prefix@[i]),
{
    if prefix@.len() <= text@.len() {
        let start = text@.subrange(0, prefix@.len() as int);
        if r {
            assert forall|i: int| 0 <= i < prefix@.len() implies #[trigger] text@[i]
                == prefix@[i] by {
                assert(start[i] == text@[i]);
            }
        } else if forall|i: int| 0 <= i < prefix@.len() ==> #[trigger] text@[i] == prefix@[i] {
            assert(start =~= prefix@);
        }
    }
}

/// A text is blank exactly when each of its characters is white space.
pub proof fn law_blank(text: &str, r: bool)
    requires
        call_ensures(is_blank, (text,), r),
    ensures
        r <==> (forall|i: int|
            0 <= i < text@.len() ==> {
                let n = #[trigger] text@[i] as u32;
                ||| 9 <= n <= 13
                ||| n == 32 || n == 133 || n == 160 || n == 5760
                ||| 8192 <= n <= 8202
                ||| n == 8232 || n == 8233 || n == 8239 || n == 8287 || n == 12288
            }),
{
    if r {
        assert forall|i: int| 0 <= i < text@.len() implies is_white_space(#[trigger] text@[i]) by {}
    } else {
        let i = choose|i: int| 0 <= i < text@.len() && !is_white_space(#[trigger] text@[i]);
        assert(!is_white_space(text@[i]));
    }
}

/// `append_decimal` keeps what is there and writes the number behind it.
pub proof fn law_append_decimal(out: &mut String, n: u64, digits: Seq<char>)
    requires
        call_ensures(append_decimal, (out, n), ()),
        writes(digits, n as nat),
    ensures
        final(out)@ == old(out)@ + digits,
{
    lemma_written(digits, n as nat);
}

/// `append_padded` keeps what is there and puts behind it the number and as many zeros in
/// front of the number as fill up the width.
pub proof fn law_append_padded(out: &mut String, n: u64, width: usize, digits: Seq<char>)
    requires
        call_ensures(append_padded, (out, n, width), ()),
        writes(digits, n as nat),
    ensures
        digits.len() >= width ==> final(out)@ == old(out)@ + digits,
        digits.len() < width ==> final(out)@ == old(out)@ + Seq::new(
            (width - digits.len()) as nat,
            |i: int| '0',
        ) + digits,
{
    lemma_written(digits, n as nat);
    assert(final(out)@ == old(out)@ + padded(n as nat, width as nat));
}

} // verus!
