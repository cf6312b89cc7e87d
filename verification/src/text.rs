//! Building the texts that a worker hands out.
use vstd::prelude::*;

verus! {

/// The character of a decimal digit.
pub open spec fn digit_char(d: int) -> char {
    (48 + d) as char
}

/// A number in decimal.
pub open spec fn decimal_text(n: int) -> Seq<char>
    decreases n,
{
    if n < 10 {
        seq![digit_char(n)]
    } else {
        decimal_text(n / 10).push(digit_char(n % 10))
    }
}

/// A character in ASCII lower case.
pub open spec fn lower_char(c: char) -> char {
    if 'A' <= c <= 'Z' {
        ((c as u8) + 32) as char
    } else {
        c
    }
}

/// A text in ASCII lower case.
pub open spec fn lower_text(s: Seq<char>) -> Seq<char> {
    s.map_values(|c: char| lower_char(c))
}

/// The text of a letter in lower case, from that in upper case.
fn lower_letter(c: char) -> (letter: &'static str)
    requires
        'A' <= c <= 'Z',
    ensures
        letter@ == seq![lower_char(c)],
{
    proof {
        reveal_strlit("a");
        reveal_strlit("b");
        reveal_strlit("c");
        reveal_strlit("d");
        reveal_strlit("e");
        reveal_strlit("f");
        reveal_strlit("g");
        reveal_strlit("h");
        reveal_strlit("i");
        reveal_strlit("j");
        reveal_strlit("k");
        reveal_strlit("l");
        reveal_strlit("m");
        reveal_strlit("n");
        reveal_strlit("o");
        reveal_strlit("p");
        reveal_strlit("q");
        reveal_strlit("r");
        reveal_strlit("s");
        reveal_strlit("t");
        reveal_strlit("u");
        reveal_strlit("v");
        reveal_strlit("w");
        reveal_strlit("x");
        reveal_strlit("y");
        reveal_strlit("z");
    }
    let letter = match c {
        'A' => "a",
        'B' => "b",
        'C' => "c",
        'D' => "d",
        'E' => "e",
        'F' => "f",
        'G' => "g",
        'H' => "h",
        'I' => "i",
        'J' => "j",
        'K' => "k",
        'L' => "l",
        'M' => "m",
        'N' => "n",
        'O' => "o",
        'P' => "p",
        'Q' => "q",
        'R' => "r",
        'S' => "s",
        'T' => "t",
        'U' => "u",
        'V' => "v",
        'W' => "w",
        'X' => "x",
        'Y' => "y",
        _ => "z",
    };
    assert(letter@ =~= seq![lower_char(c)]);
    letter
}

/// A text in ASCII lower case: the letters `A` to `Z` become `a` to `z`, every
/// other character stays.
pub(crate) fn to_ascii_lowercase(s: &str) -> (lower: String)
    ensures
        lower@ == lower_text(s@),
{
    let n: usize = s.unicode_len();
    let mut lower = String::new();
    let mut i: usize = 0;
    assert(lower@ =~= lower_text(s@.take(0)));
    while i < n
        invariant
            i <= n == s@.len(),
            lower@ == lower_text(s@.take(i as int)),
        decreases n - i,
    {
        let c = s.get_char(i);
        assert(lower_text(s@.take(i + 1)) =~= lower_text(s@.take(i as int)) + seq![lower_char(c)]);
        if 'A' <= c && c <= 'Z' {
            lower.append(lower_letter(c));
        } else {
            let same = s.substring_char(i, i + 1);
            assert(same@ =~= seq![lower_char(c)]);
            lower.append(same);
        }
        i += 1;
    }
    assert(s@.take(n as int) =~= s@);
    lower
}

/// The text of a decimal digit.
fn digit_str(d: u64) -> (s: &'static str)
    requires
        d < 10,
    ensures
        s@ == seq![digit_char(d as int)],
{
    proof {
        reveal_strlit("0");
        reveal_strlit("1");
        reveal_strlit("2");
        reveal_strlit("3");
        reveal_strlit("4");
        reveal_strlit("5");
        reveal_strlit("6");
        reveal_strlit("7");
        reveal_strlit("8");
        reveal_strlit("9");
    }
    let s = match d {
        0 => "0",
        1 => "1",
        2 => "2",
        3 => "3",
        4 => "4",
        5 => "5",
        6 => "6",
        7 => "7",
        8 => "8",
        _ => "9",
    };
    assert(s@ =~= seq![digit_char(d as int)]);
    s
}

/// A number in decimal.
pub fn decimal(n: u64) -> (s: String)
    ensures
        s@ == decimal_text(n as int),
    decreases n,
{
    if n < 10 {
        String::from_str(digit_str(n))
    } else {
        let mut s = decimal(n / 10);
        s.append(digit_str(n % 10));
        assert(s@ =~= decimal_text(n as int));
        s
    }
}

/// The decimal digits of a number that is below 1000, three of them.
pub open spec fn three_digits_text(n: int) -> Seq<char> {
    seq![digit_char(n / 100), digit_char(n / 10 % 10), digit_char(n % 10)]
}

/// The decimal digits of a number below 1000, three of them.
pub fn three_digits(n: u64) -> (s: String)
    requires
        n < 1000,
    ensures
        s@ == three_digits_text(n as int),
{
    let mut s = String::from_str(digit_str(n / 100));
    s.append(digit_str(n / 10 % 10));
    s.append(digit_str(n % 10));
    assert(s@ =~= three_digits_text(n as int));
    s
}

/// Two texts, one after the other.
pub fn concat2(a: &str, b: &str) -> (s: String)
    ensures
        s@ == a@ + b@,
{
    let mut s = String::from_str(a);
    s.append(b);
    s
}

/// Three texts, one after the other.
pub fn concat3(a: &str, b: &str, c: &str) -> (s: String)
    ensures
        s@ == a@ + b@ + c@,
{
    let mut s = String::from_str(a);
    s.append(b);
    s.append(c);
    s
}

/// Whether two texts are the same.
pub fn same_text(a: &String, b: &String) -> (r: bool)
    ensures
        r == (a@ == b@),
{
    *a == *b
}

/// A number in decimal digits, behind a minus sign where it is negative.
pub open spec fn signed_decimal_text(n: int) -> Seq<char> {
    if n < 0 {
        "-"@ + decimal_text(-n)
    } else {
        decimal_text(n)
    }
}

/// A number in decimal digits, behind a minus sign where it is negative.
pub fn signed_decimal(n: i32) -> (s: String)
    ensures
        s@ == signed_decimal_text(n as int),
{
    if n < 0 {
        let positive: i64 = -(n as i64);
        concat2("-", decimal(positive as u64).as_str())
    } else {
        decimal(n as u64)
    }
}

/// How many bytes a text takes.
pub open spec fn byte_len(s: Seq<char>) -> usize {
    vstd::utf8::encode_utf8(s).len() as usize
}

/// The value of a hexadecimal digit.
pub open spec fn hex_digit(c: char) -> Option<int> {
    if '0' <= c <= '9' {
        Some(c as int - '0' as int)
    } else if 'a' <= c <= 'f' {
        Some(c as int - 'a' as int + 10)
    } else if 'A' <= c <= 'F' {
        Some(c as int - 'A' as int + 10)
    } else {
        None
    }
}

/// The number that hexadecimal digits write, if they are all digits.
pub open spec fn hex_number(s: Seq<char>) -> Option<int>
    decreases s.len(),
{
    if s.len() == 0 {
        Some(0)
    } else {
        match (hex_number(s.drop_last()), hex_digit(s.last())) {
            (Some(front), Some(digit)) => Some(front * 16 + digit),
            _ => None,
        }
    }
}

/// The number that a text writes in hexadecimal digits, of which there must be
/// one at least, behind a plus sign or none, if it fits.
pub open spec fn hex_u128(s: Seq<char>) -> Option<u128> {
    let digits = if s.len() > 0 && s[0] == '+' {
        s.drop_first()
    } else {
        s
    };
    match hex_number(digits) {
        Some(n) if digits.len() > 0 && n <= u128::MAX => Some(n as u128),
        _ => None,
    }
}

/// A text without the prefixes `0x`, however many there are.
pub open spec fn without_hex_prefix(s: Seq<char>) -> Seq<char>
    decreases s.len(),
{
    if s.len() >= 2 && s[0] == '0' && s[1] == 'x' {
        without_hex_prefix(s.skip(2))
    } else {
        s
    }
}

fn hex_digit_value(c: char) -> (digit: Option<u128>)
    ensures
        digit is Some <==> hex_digit(c) is Some,
        digit matches Some(d) ==> d < 16 && hex_digit(c) == Some(d as int),
{
    if '0' <= c && c <= '9' {
        Some(c as u128 - '0' as u128)
    } else if 'a' <= c && c <= 'f' {
        Some(c as u128 - 'a' as u128 + 10)
    } else if 'A' <= c && c <= 'F' {
        Some(c as u128 - 'A' as u128 + 10)
    } else {
        None
    }
}

/// More digits make the number no smaller.
proof fn lemma_hex_number_grows(s: Seq<char>, i: int)
    requires
        0 <= i <= s.len(),
    ensures
        hex_number(s.take(i)) is None ==> hex_number(s) is None,
        hex_number(s) matches Some(n) ==> n >= 0 && hex_number(s.take(i)) is Some && 0
            <= hex_number(s.take(i))->0 <= n,
    decreases s.len(),
{
    if i == s.len() {
        assert(s.take(i) =~= s);
        if s.len() > 0 {
            lemma_hex_number_grows(s.drop_last(), s.len() - 1);
            assert(s.drop_last().take(s.len() - 1) =~= s.drop_last());
        }
    } else {
        lemma_hex_number_grows(s.drop_last(), i);
        assert(s.drop_last().take(i) =~= s.take(i));
    }
}

/// The number that the digits from `from` on write.
fn parse_hex_digits(s: &str, from: usize) -> (number: Option<u128>)
    requires
        from <= s@.len(),
    ensures
        number == match hex_number(s@.skip(from as int)) {
            Some(n) if n <= u128::MAX => Some(n as u128),
            _ => None,
        },
{
    let len = s.unicode_len();
    let ghost digits = s@.skip(from as int);
    let mut value: u128 = 0;
    let mut i: usize = from;
    while i < len
        invariant
            from <= i <= len,
            len == s@.len(),
            digits == s@.skip(from as int),
            hex_number(digits.take(i - from)) == Some(value as int),
        decreases len - i,
    {
        let c = s.get_char(i);
        proof {
            let next = digits.take(i + 1 - from);
            assert(next.drop_last() =~= digits.take(i - from));
            assert(next.last() == c);
            lemma_hex_number_grows(digits, i + 1 - from);
        }
        let digit = match hex_digit_value(c) {
            Some(digit) => digit,
            None => {
                return None;
            },
        };
        if value > (u128::MAX - digit) / 16 {
            return None;
        }
        value = value * 16 + digit;
        i += 1;
    }
    assert(digits.take(len - from) =~= digits);
    Some(value)
}

/// The number that a text writes in hexadecimal digits, behind any number of
/// prefixes `0x` and a plus sign or none.
pub fn parse_hex(s: &str) -> (number: Option<u128>)
    ensures
        number == hex_u128(without_hex_prefix(s@)),
{
    let len = s.unicode_len();
    let mut from: usize = 0;
    assert(s@.skip(0) =~= s@);
    while len - from >= 2 && s.get_char(from) == '0' && s.get_char(from + 1) == 'x'
        invariant
            from <= len,
            len == s@.len(),
            without_hex_prefix(s@.skip(from as int)) == without_hex_prefix(s@),
        decreases len - from,
    {
        assert(s@.skip(from as int).skip(2) =~= s@.skip(from + 2));
        from += 2;
    }
    let ghost rest = s@.skip(from as int);
    assert(without_hex_prefix(s@) == rest);
    if from < len && s.get_char(from) == '+' {
        from += 1;
        assert(rest.drop_first() =~= s@.skip(from as int));
    }
    if from == len {
        return None;
    }
    parse_hex_digits(s, from)
}

/// Lower case is that of the letters from A to Z; nothing else changes.
pub proof fn law_only_letters_have_a_lower_case(s: Seq<char>, i: int)
    requires
        0 <= i < s.len(),
    ensures
        lower_text(s).len() == s.len(),
        'A' <= s[i] <= 'Z' ==> lower_text(s)[i] as int == s[i] as int + 32,
        !('A' <= s[i] <= 'Z') ==> lower_text(s)[i] == s[i],
{
}

/// The digits of a number give the number back.
pub proof fn law_digits_give_the_number_back(n: int)
    requires
        n >= 0,
    ensures
        n < 10 ==> decimal_text(n).len() == 1,
        decimal_text(n).last() as int == 48 + n % 10,
        n >= 10 ==> decimal_text(n).drop_last() == decimal_text(n / 10),
{
    if n >= 10 {
        assert(decimal_text(n).drop_last() =~= decimal_text(n / 10));
    }
}

/// A number below a thousand takes three digits, each in its place.
pub proof fn law_three_digits_give_the_number_back(n: int)
    requires
        0 <= n < 1000,
    ensures
        ({
            let t = three_digits_text(n);
            &&& t.len() == 3
            &&& (t[0] as int - 48) * 100 + (t[1] as int - 48) * 10 + (t[2] as int - 48) == n
            &&& forall|i: int| 0 <= i < 3 ==> '0' <= #[trigger] t[i] <= '9'
        }),
{
}

/// A hexadecimal digit stands for its value in either case, and nothing else
/// stands for one; a number is worth sixteen times what is before its last digit,
/// and that digit.
pub proof fn law_what_hexadecimal_digits_are_worth(s: Seq<char>, c: char)
    ensures
        hex_digit(c) matches Some(d) ==> 0 <= d < 16,
        '0' <= c <= '9' ==> hex_digit(c) == Some(c as int - 48),
        'a' <= c <= 'f' ==> hex_digit(c) == Some(c as int - 87),
        'A' <= c <= 'F' ==> hex_digit(c) == Some(c as int - 55),
        !('0' <= c <= '9') && !('a' <= c <= 'f') && !('A' <= c <= 'F') ==> hex_digit(c) is None,
        hex_number(s.push(c)) is Some <==> hex_number(s) is Some && hex_digit(c) is Some,
        hex_number(s.push(c)) is Some ==> hex_number(s.push(c))->0 == hex_number(s)->0 * 16
            + hex_digit(c)->0,
{
    assert(s.push(c).drop_last() =~= s);
}

/// A prefix of `0x` is left out however often it stands, and nothing else is.
pub proof fn law_the_prefix_is_left_out(s: Seq<char>)
    ensures
        without_hex_prefix(seq!['0', 'x'] + s) == without_hex_prefix(s),
        !(s.len() >= 2 && s[0] == '0' && s[1] == 'x') ==> without_hex_prefix(s) == s,
{
    let t = seq!['0', 'x'] + s;
    assert(t.skip(2) =~= s);
}

/// A number is told by its digits, and one below zero by those of its opposite,
/// behind a minus sign.
pub proof fn law_numbers_below_zero_have_a_sign(n: int)
    ensures
        n >= 0 ==> signed_decimal_text(n) == decimal_text(n),
        n > 0 ==> signed_decimal_text(-n) == "-"@ + signed_decimal_text(n),
{
}

} // verus!
