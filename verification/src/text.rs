//! Text rendering shared by the messages and the names the adapter reports.

use vstd::prelude::*;

verus! {

/// The character of one decimal digit.
pub open spec fn digit_char(d: nat) -> char {
    ('0' as u32 + d) as char
}

/// The decimal text of a natural number: no sign, no leading zero, `0` for zero.
pub open spec fn decimal_nat(n: nat) -> Seq<char>
    decreases n,
{
    if n < 10 {
        seq![digit_char(n)]
    } else {
        decimal_nat(n / 10).push(digit_char(n % 10))
    }
}

/// The decimal text of an integer: a leading `-` for a negative one.
pub open spec fn decimal_int(v: int) -> Seq<char> {
    if v < 0 {
        seq!['-'] + decimal_nat((-v) as nat)
    } else {
        decimal_nat(v as nat)
    }
}

fn digit_text(d: u8) -> (s: &'static str)
    requires
        d < 10,
    ensures
        s@ == seq![digit_char(d as nat)],
{
    proof {
        reveal_strlit("0");
        reveal_strlit("1");
        reveal_strlit("2");
        reveal_strlit("3");
        reveal_strlit("4");
        reveal_strlit("5");
        reveal_strlit("6");
        reveal_strlit("7");
        reveal_strlit("8");
        reveal_strlit("9");
    }
    if d == 0 {
        "0"
    } else if d == 1 {
        "1"
    } else if d == 2 {
        "2"
    } else if d == 3 {
        "3"
    } else if d == 4 {
        "4"
    } else if d == 5 {
        "5"
    } else if d == 6 {
        "6"
    } else if d == 7 {
        "7"
    } else if d == 8 {
        "8"
    } else {
        "9"
    }
}

/// Append the decimal text of `n`.
pub fn append_decimal(out: &mut String, n: u128)
    ensures
        final(out)@ == old(out)@ + decimal_nat(n as nat),
    decreases n,
{
    if n >= 10 {
        append_decimal(out, n / 10);
    }
    let d: u8 = (n % 10) as u8;
    out.append(digit_text(d));
    assert(out@ =~= old(out)@ + decimal_nat(n as nat));
}

/// The decimal text of a signed integer.
pub fn decimal_i128(v: i128) -> (s: String)
    ensures
        s@ == decimal_int(v as int),
{
    let mut s = String::new();
    if v < 0 {
        proof {
            reveal_strlit("-");
        }
        s.append("-");
        let magnitude: u128 = ((-(v + 1)) as u128) + 1;
        append_decimal(&mut s, magnitude);
        assert(s@ =~= decimal_int(v as int));
    } else {
        append_decimal(&mut s, v as u128);
        assert(s@ =~= decimal_int(v as int));
    }
    s
}

/// The decimal text of an unsigned integer.
pub fn decimal_u64(v: u64) -> (s: String)
    ensures
        s@ == decimal_nat(v as nat),
{
    let mut s = String::new();
    append_decimal(&mut s, v as u128);
    assert(s@ =~= decimal_nat(v as nat));
    s
}

/// The texts of a list, in order.
pub open spec fn texts(s: Seq<String>) -> Seq<Seq<char>> {
    Seq::new(s.len(), |i: int| s[i]@)
}

/// An owned copy of a text.
pub fn owned(s: &str) -> (r: String)
    ensures
        r@ == s@,
{
    s.to_owned()
}

/// `a` followed by `b`.
pub fn join2(a: &str, b: &str) -> (r: String)
    ensures
        r@ == a@ + b@,
{
    let mut r = a.to_owned();
    r.append(b);
    r
}

/// `a`, `b` and `c`, one after the other.
pub fn join3(a: &str, b: &str, c: &str) -> (r: String)
    ensures
        r@ == a@ + b@ + c@,
{
    let mut r = join2(a, b);
    r.append(c);
    r
}

/// Where `c` stands for the first time.
pub fn find_char(s: &str, c: char) -> (r: Option<usize>)
    ensures
        match r {
            Some(i) => s@.index_of_first(c) == Some(i as int) && i < s@.len(),
            None => s@.index_of_first(c) is None,
        },
{
    proof {
        s@.index_of_first_ensures(c);
    }
    let n: usize = s.unicode_len();
    let mut i: usize = 0;
    while i < n
        invariant
            i <= n,
            n == s@.len(),
            forall|j: int| 0 <= j < i ==> s@[j] != c,
            match s@.index_of_first(c) {
                Some(index) => {
                    &&& 0 <= index < s@.len()
                    &&& s@[index] == c
                    &&& forall|j: int| 0 <= j < index < s@.len() ==> s@[j] != c
                },
                None => !s@.contains(c),
            },
        decreases n - i,
    {
        if s.get_char(i) == c {
            assert(s@[i as int] == c);
            return Some(i);
        }
        i = i + 1;
    }
    None
}

/// Where `c` stands for the last time.
pub fn find_last_char(s: &str, c: char) -> (r: Option<usize>)
    ensures
        match r {
            Some(i) => s@.index_of_last(c) == Some(i as int) && i < s@.len(),
            None => s@.index_of_last(c) is None,
        },
{
    proof {
        s@.index_of_last_ensures(c);
    }
    let n: usize = s.unicode_len();
    let mut i: usize = n;
    while i > 0
        invariant
            i <= n,
            n == s@.len(),
            forall|j: int| i <= j < n ==> s@[j] != c,
            match s@.index_of_last(c) {
                Some(index) => {
                    &&& 0 <= index < s@.len()
                    &&& s@[index] == c
                    &&& forall|j: int| 0 <= index < j < s@.len() ==> s@[j] != c
                },
                None => !s@.contains(c),
            },
        decreases i,
    {
        i = i - 1;
        if s.get_char(i) == c {
            assert(s@[i as int] == c);
            return Some(i);
        }
    }
    None
}

/// Whether a text is a non-empty run of the digits `0` to `9`.
pub open spec fn all_digits(s: Seq<char>) -> bool {
    s.len() > 0 && forall|i: int| 0 <= i < s.len() ==> '0' <= #[trigger] s[i] <= '9'
}

/// Whether a text is a non-empty run of the digits `0` to `9`.
pub fn is_digits(s: &str) -> (r: bool)
    ensures
        r == all_digits(s@),
{
    let n: usize = s.unicode_len();
    if n == 0 {
        return false;
    }
    let mut i: usize = 0;
    while i < n
        invariant
            i <= n,
            n == s@.len(),
            n > 0,
            forall|j: int| 0 <= j < i ==> '0' <= #[trigger] s@[j] <= '9',
        decreases n - i,
    {
        let c = s.get_char(i);
        if c < '0' || c > '9' {
            assert(!('0' <= s@[i as int] <= '9'));
            return false;
        }
        i = i + 1;
    }
    true
}

/// A character's code with the letters `a` to `z` taken as `A` to `Z`.
pub open spec fn upper_code(c: char) -> int {
    if 'a' <= c <= 'z' {
        c as int - 32
    } else {
        c as int
    }
}

/// Whether two texts are equal up to the case of the letters `a` to `z`.
pub open spec fn same_letters(a: Seq<char>, b: Seq<char>) -> bool {
    a.len() == b.len() && forall|i: int|
        0 <= i < a.len() ==> upper_code(#[trigger] a[i]) == upper_code(b[i])
}

fn upper(c: char) -> (r: u32)
    ensures
        r == upper_code(c),
{
    let code: u32 = c as u32;
    if c >= 'a' && c <= 'z' {
        code - 32
    } else {
        code
    }
}

/// Whether two texts are equal up to the case of the letters `a` to `z`.
pub fn same_ignoring_case(a: &str, b: &str) -> (r: bool)
    ensures
        r == same_letters(a@, b@),
{
    let n: usize = a.unicode_len();
    if b.unicode_len() != n {
        return false;
    }
    let mut i: usize = 0;
    while i < n
        invariant
            i <= n,
            n == a@.len(),
            n == b@.len(),
            forall|j: int| 0 <= j < i ==> upper_code(#[trigger] a@[j]) == upper_code(b@[j]),
        decreases n - i,
    {
        if upper(a.get_char(i)) != upper(b.get_char(i)) {
            assert(upper_code(a@[i as int]) != upper_code(b@[i as int]));
            return false;
        }
        i = i + 1;
    }
    true
}

/// The character of a hexadecimal digit.
pub open spec fn hex_char(d: nat) -> char {
    if d < 10 {
        (('0' as nat) + d) as char
    } else {
        (('A' as nat) + (d - 10) as nat) as char
    }
}

/// The last `digits` hexadecimal digits of a number.
pub open spec fn hex_nat(n: nat, digits: nat) -> Seq<char>
    decreases digits,
{
    if digits == 0 {
        Seq::empty()
    } else {
        hex_nat(n / 16, (digits - 1) as nat).push(hex_char(n % 16))
    }
}

fn hex_digit_text(d: u32) -> (s: &'static str)
    requires
        d < 16,
    ensures
        s@ == seq![hex_char(d as nat)],
{
    if d < 10 {
        digit_text(d as u8)
    } else {
        proof {
            reveal_strlit("A");
            reveal_strlit("B");
            reveal_strlit("C");
            reveal_strlit("D");
            reveal_strlit("E");
            reveal_strlit("F");
        }
        if d == 10 {
            "A"
        } else if d == 11 {
            "B"
        } else if d == 12 {
            "C"
        } else if d == 13 {
            "D"
        } else if d == 14 {
            "E"
        } else {
            "F"
        }
    }
}

/// Append the last `digits` hexadecimal digits of a number.
pub fn append_hex(out: &mut String, n: u32, digits: u32)
    ensures
        final(out)@ == old(out)@ + hex_nat(n as nat, digits as nat),
    decreases digits,
{
    if digits > 0 {
        append_hex(out, n / 16, digits - 1);
        out.append(hex_digit_text(n % 16));
    }
    assert(out@ =~= old(out)@ + hex_nat(n as nat, digits as nat));
}

/// What a run of digits stands for.
pub open spec fn digits_value(s: Seq<char>) -> nat
    decreases s.len(),
{
    if s.len() == 0 {
        0
    } else {
        digits_value(s.drop_last()) * 10 + ((s.last() as u32 - '0' as u32) as nat)
    }
}

/// The number a decimal text stands for: digits alone, and no more than a `u32` holds.
pub open spec fn decimal_number(s: Seq<char>) -> Option<nat> {
    if all_digits(s) && digits_value(s) <= u32::MAX {
        Some(digits_value(s))
    } else {
        None
    }
}

proof fn lemma_more_digits(s: Seq<char>, i: int)
    requires
        0 <= i <= s.len(),
    ensures
        digits_value(s.take(i)) <= digits_value(s),
    decreases s.len() - i,
{
    if i < s.len() {
        lemma_more_digits(s, i + 1);
        assert(s.take(i + 1).drop_last() =~= s.take(i));
    } else {
        assert(s.take(i) =~= s);
    }
}

/// The number a decimal text stands for.
pub fn read_decimal(s: &str) -> (r: Option<u32>)
    ensures
        match r {
            Some(n) => decimal_number(s@) == Some(n as nat),
            None => decimal_number(s@) is None,
        },
{
    if !is_digits(s) {
        return None;
    }
    let n: usize = s.unicode_len();
    let mut acc: u64 = 0;
    let mut i: usize = 0;
    while i < n
        invariant
            i <= n,
            n == s@.len(),
            all_digits(s@),
            acc == digits_value(s@.take(i as int)),
            acc <= u32::MAX,
        decreases n - i,
    {
        let c = s.get_char(i);
        let d: u64 = (c as u32 - 48) as u64;
        proof {
            assert(s@.take(i + 1).drop_last() =~= s@.take(i as int));
            assert(s@.take(i + 1).last() == c);
            lemma_more_digits(s@, i + 1);
        }
        acc = acc * 10 + d;
        if acc > u32::MAX as u64 {
            return None;
        }
        i = i + 1;
    }
    assert(s@.take(i as int) =~= s@);
    Some(acc as u32)
}

/// A number is read back from its decimal text.
pub proof fn a_number_is_read_back(n: nat)
    ensures
        all_digits(decimal_nat(n)),
        digits_value(decimal_nat(n)) == n,
    decreases n,
{
    reveal_with_fuel(digits_value, 2);
    if n < 10 {
        assert(decimal_nat(n).drop_last() =~= Seq::empty());
    } else {
        a_number_is_read_back(n / 10);
        let whole = decimal_nat(n);
        let front = decimal_nat(n / 10);
        assert(whole.drop_last() =~= front);
        assert forall|i: int| 0 <= i < whole.len() implies '0' <= #[trigger] whole[i] <= '9' by {
            if i < front.len() {
                assert(whole[i] == front[i]);
            }
        }
    }
}

/// The decimal text of an integer is that of its size, behind a minus where it is negative.
pub proof fn a_negative_number_has_a_minus(v: int)
    ensures
        v >= 0 ==> decimal_int(v) == decimal_nat(v as nat),
        v < 0 ==> decimal_int(v).len() > 0 && decimal_int(v)[0] == '-' && decimal_int(v).skip(1)
            == decimal_nat((-v) as nat),
{
    if v < 0 {
        assert(decimal_int(v).skip(1) =~= decimal_nat((-v) as nat));
    }
}

/// A decimal text has no leading zero, but for the text of zero itself.
pub proof fn a_number_has_no_leading_zero(n: nat)
    ensures
        decimal_nat(n).len() > 0,
        n > 0 ==> decimal_nat(n)[0] != '0',
        n < 10 ==> decimal_nat(n).len() == 1,
    decreases n,
{
    if n >= 10 {
        a_number_has_no_leading_zero(n / 10);
        assert(decimal_nat(n)[0] == decimal_nat(n / 10)[0]);
    }
}

/// A text is read as a number exactly when it is a run of digits whose number 32 bits hold; each digit
/// counts for ten times the one behind it.
pub proof fn a_run_of_digits_is_its_number(s: Seq<char>, d: nat)
    requires
        d < 10,
    ensures
        digits_value(s.push(digit_char(d))) == 10 * digits_value(s) + d,
        digits_value(Seq::<char>::empty()) == 0,
        decimal_number(s) is Some <==> s.len() > 0 && (forall|i: int|
            0 <= i < s.len() ==> '0' <= #[trigger] s[i] <= '9') && digits_value(s) <= u32::MAX,
        decimal_number(s) matches Some(n) ==> n == digits_value(s),
{
    assert(s.push(digit_char(d)).drop_last() =~= s);
}

/// A hexadecimal text has as many digits as were asked for, each digit counts for sixteen times the one
/// behind it, and no digit but the last is changed by the last sixteenth of a number.
pub proof fn a_hexadecimal_text_has_its_digits(n: nat, digits: nat)
    ensures
        hex_nat(n, digits).len() == digits,
        digits > 0 ==> hex_nat(n, digits).drop_last() == hex_nat(n / 16, (digits - 1) as nat),
        digits > 0 && n % 16 < 10 ==> hex_nat(n, digits).last() as int == '0' as int + n % 16,
        digits > 0 && n % 16 >= 10 ==> hex_nat(n, digits).last() as int == 'A' as int + n % 16 - 10,
    decreases digits,
{
    if digits > 0 {
        a_hexadecimal_text_has_its_digits(n / 16, (digits - 1) as nat);
        assert(hex_nat(n, digits).drop_last() =~= hex_nat(n / 16, (digits - 1) as nat));
    }
}

/// Two texts are the same up to the case of their letters exactly when they are equally long and each two
/// characters are equal, or the small and the capital of one letter.
pub proof fn letters_are_the_same_in_either_case(a: Seq<char>, b: Seq<char>)
    ensures
        same_letters(a, b) <==> a.len() == b.len() && forall|i: int|
            0 <= i < a.len() ==> {
                ||| #[trigger] a[i] == b[i]
                ||| 'a' <= a[i] <= 'z' && a[i] as int == b[i] as int + 32
                ||| 'a' <= b[i] <= 'z' && b[i] as int == a[i] as int + 32
            },
        same_letters(a, a),
        same_letters(a, b) ==> same_letters(b, a),
{
    if a.len() == b.len() && (forall|i: int|
        0 <= i < a.len() ==> {
            ||| #[trigger] a[i] == b[i]
            ||| 'a' <= a[i] <= 'z' && a[i] as int == b[i] as int + 32
            ||| 'a' <= b[i] <= 'z' && b[i] as int == a[i] as int + 32
        }) {
        assert(same_letters(a, b));
    }
    if same_letters(a, b) {
        assert forall|i: int| 0 <= i < a.len() implies {
            ||| #[trigger] a[i] == b[i]
            ||| 'a' <= a[i] <= 'z' && a[i] as int == b[i] as int + 32
            ||| 'a' <= b[i] <= 'z' && b[i] as int == a[i] as int + 32
        } by {
            assert(upper_code(a[i]) == upper_code(b[i]));
        }
        assert forall|i: int| 0 <= i < b.len() implies upper_code(#[trigger] b[i]) == upper_code(
            a[i],
        ) by {
            assert(upper_code(a[i]) == upper_code(b[i]));
        }
    }
}

} // verus!
