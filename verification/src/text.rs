//! Text: the order of keys, decimal numbers, and the parsers for identifiers.
use vstd::prelude::*;
use vstd::string::StrSliceExecFns;
use vstd::string::StringExecFns;

verus! {

/// Where one key stands in relation to another.
#[derive(Debug, Clone, Copy, PartialEq, Eq, Structural)]
pub enum Order {
    Before,
    Same,
    After,
}

/// `a` and `b` agree below `i`, and at `i` either `a` has ended or its byte is
/// the smaller one.
pub open spec fn first_smaller_at(a: Seq<u8>, b: Seq<u8>, i: int) -> bool {
    &&& 0 <= i <= a.len()
    &&& i < b.len()
    &&& forall|j: int| 0 <= j < i ==> a[j] == b[j]
    &&& i == a.len() || a[i] < b[i]
}

/// Lexicographic order of byte strings.
pub open spec fn bytes_before(a: Seq<u8>, b: Seq<u8>) -> bool {
    exists|i: int| first_smaller_at(a, b, i)
}

/// The order of text: by the bytes of its UTF-8 form.
pub open spec fn key_before(a: Seq<char>, b: Seq<char>) -> bool {
    bytes_before(vstd::utf8::encode_utf8(a), vstd::utf8::encode_utf8(b))
}

/// No text stands before itself.
pub proof fn key_before_irreflexive(a: Seq<char>)
    ensures
        !key_before(a, a),
{
}

/// The order of text is transitive.
pub proof fn key_before_transitive(a: Seq<char>, b: Seq<char>, c: Seq<char>)
    requires
        key_before(a, b),
        key_before(b, c),
    ensures
        key_before(a, c),
{
    let x = vstd::utf8::encode_utf8(a);
    let y = vstd::utf8::encode_utf8(b);
    let z = vstd::utf8::encode_utf8(c);
    let i = choose|i: int| first_smaller_at(x, y, i);
    let j = choose|j: int| first_smaller_at(y, z, j);
    let k = if i <= j {
        i
    } else {
        j
    };
    assert(first_smaller_at(x, z, k));
}

/// Of two different texts one stands before the other.
pub proof fn key_before_total(a: Seq<char>, b: Seq<char>)
    ensures
        a == b || key_before(a, b) || key_before(b, a),
{
    let x = vstd::utf8::encode_utf8(a);
    let y = vstd::utf8::encode_utf8(b);
    let i = first_difference(x, y, 0);
    if i == x.len() && i == y.len() {
        assert(x =~= y);
        vstd::utf8::encode_utf8_decode_utf8(a);
        vstd::utf8::encode_utf8_decode_utf8(b);
    } else if i < y.len() && (i == x.len() || x[i] < y[i]) {
        assert(first_smaller_at(x, y, i));
    } else {
        assert(first_smaller_at(y, x, i));
    }
}

proof fn first_difference(x: Seq<u8>, y: Seq<u8>, from: int) -> (i: int)
    requires
        0 <= from <= x.len(),
        from <= y.len(),
        forall|j: int| 0 <= j < from ==> x[j] == y[j],
    ensures
        from <= i <= x.len(),
        i <= y.len(),
        forall|j: int| 0 <= j < i ==> x[j] == y[j],
        i == x.len() || i == y.len() || x[i] != y[i],
    decreases x.len() - from,
{
    if from == x.len() || from == y.len() || x[from] != y[from] {
        from
    } else {
        first_difference(x, y, from + 1)
    }
}

/// How `a` stands to `b` in the order of text.
pub fn order(a: &str, b: &str) -> (r: Order)
    ensures
        r == Order::Before <==> key_before(a@, b@),
        r == Order::Same <==> a@ == b@,
        r == Order::After <==> key_before(b@, a@),
{
    let x = a.as_bytes();
    let y = b.as_bytes();
    proof {
        vstd::utf8::encode_utf8_decode_utf8(a@);
        vstd::utf8::encode_utf8_decode_utf8(b@);
        key_before_irreflexive(a@);
        if key_before(a@, b@) && key_before(b@, a@) {
            key_before_transitive(a@, b@, a@);
        }
    }
    let mut i: usize = 0;
    while i < x.len() && i < y.len()
        invariant
            i <= x@.len(),
            i <= y@.len(),
            x@ == vstd::utf8::encode_utf8(a@),
            y@ == vstd::utf8::encode_utf8(b@),
            forall|j: int| 0 <= j < i ==> x@[j] == y@[j],
            !key_before(a@, a@),
            !(key_before(a@, b@) && key_before(b@, a@)),
        decreases x@.len() - i,
    {
        if x[i] < y[i] {
            assert(first_smaller_at(x@, y@, i as int));
            return Order::Before;
        }
        if y[i] < x[i] {
            assert(first_smaller_at(y@, x@, i as int));
            return Order::After;
        }
        i = i + 1;
    }
    if i < y.len() {
        assert(first_smaller_at(x@, y@, i as int));
        Order::Before
    } else if i < x.len() {
        assert(first_smaller_at(y@, x@, i as int));
        Order::After
    } else {
        assert(x@ =~= y@);
        Order::Same
    }
}

/// The character of a decimal digit.
pub open spec fn digit_char(d: int) -> char {
    ('0' as int + d) as char
}

/// A number in decimal, without leading zeros.
pub open spec fn decimal(n: nat) -> Seq<char>
    decreases n,
{
    if n < 10 {
        seq![digit_char(n as int)]
    } else {
        decimal(n / 10).push(digit_char((n % 10) as int))
    }
}

fn digit(d: u64) -> (r: &'static str)
    requires
        d < 10,
    ensures
        r@ == seq![digit_char(d as int)],
{
    proof {
        reveal_strlit("0");
        reveal_strlit("1");
        reveal_strlit("2");
        reveal_strlit("3");
        reveal_strlit("4");
        reveal_strlit("5");
        reveal_strlit("6");
        reveal_strlit("7");
        reveal_strlit("8");
        reveal_strlit("9");
    }
    match d {
        0 => "0",
        1 => "1",
        2 => "2",
        3 => "3",
        4 => "4",
        5 => "5",
        6 => "6",
        7 => "7",
        8 => "8",
        _ => "9",
    }
}

/// Appends `n` in decimal.
pub fn push_decimal(s: &mut String, n: u64)
    ensures
        final(s)@ == old(s)@ + decimal(n as nat),
    decreases n,
{
    if n >= 10 {
        push_decimal(s, n / 10);
    }
    s.append(digit(n % 10));
    assert(s@ =~= old(s)@ + decimal(n as nat));
}

/// The value of a digit; `None` for what is no digit to this radix.
pub open spec fn digit_value(c: char, radix: int) -> Option<int> {
    let v = if '0' <= c && c <= '9' {
        c as int - '0' as int
    } else if 'a' <= c && c <= 'z' {
        c as int - 'a' as int + 10
    } else if 'A' <= c && c <= 'Z' {
        c as int - 'A' as int + 10
    } else {
        radix
    };
    if v < radix {
        Some(v)
    } else {
        None
    }
}

/// Every character is a digit.
pub open spec fn all_digits(s: Seq<char>, radix: int) -> bool {
    forall|i: int| 0 <= i < s.len() ==> digit_value(#[trigger] s[i], radix) is Some
}

/// The number that digits spell out, the most significant one first.
pub open spec fn digits_value(s: Seq<char>, radix: int) -> int
    decreases s.len(),
{
    if s.len() == 0 {
        0
    } else {
        digits_value(s.drop_last(), radix) * radix + match digit_value(s.last(), radix) {
            Some(v) => v,
            None => 0,
        }
    }
}

/// A text without the plus sign that may lead it.
pub open spec fn without_plus(s: Seq<char>) -> Seq<char> {
    if s.len() > 0 && s[0] == '+' {
        s.skip(1)
    } else {
        s
    }
}

/// The number that a text denotes: digits, at least one, perhaps led by a plus
/// sign; `None` for any other text and for a number above `max`.
pub open spec fn number_of(s: Seq<char>, radix: int, max: int) -> Option<int> {
    let digits = without_plus(s);
    if digits.len() > 0 && all_digits(digits, radix) && digits_value(digits, radix) <= max {
        Some(digits_value(digits, radix))
    } else {
        None
    }
}

/// More digits never make a number smaller.
proof fn digits_value_grows(s: Seq<char>, n: int, radix: int)
    requires
        radix >= 1,
        0 <= n <= s.len(),
    ensures
        0 <= digits_value(s.take(n), radix) <= digits_value(s, radix),
    decreases s.len(),
{
    if s.len() == 0 {
        assert(s.take(n) =~= s);
    } else if n == s.len() {
        assert(s.take(n) =~= s);
        digits_value_grows(s.drop_last(), 0, radix);
        assert(s.drop_last().take(0) =~= Seq::<char>::empty());
        let v = digits_value(s.drop_last(), radix);
        assert(v * radix >= 0) by (nonlinear_arith)
            requires
                v >= 0,
                radix >= 1,
        ;
    } else {
        digits_value_grows(s.drop_last(), n, radix);
        assert(s.drop_last().take(n) =~= s.take(n));
        let v = digits_value(s.drop_last(), radix);
        assert(v * radix >= v) by (nonlinear_arith)
            requires
                v >= 0,
                radix >= 1,
        ;
    }
}

fn digit_of(c: char, radix: u32) -> (r: Option<u32>)
    requires
        2 <= radix <= 36,
    ensures
        match r {
            Some(v) => digit_value(c, radix as int) == Some(v as int) && v < radix,
            None => digit_value(c, radix as int) is None,
        },
{
    let v: u32 = if '0' <= c && c <= '9' {
        c as u32 - '0' as u32
    } else if 'a' <= c && c <= 'z' {
        c as u32 - 'a' as u32 + 10
    } else if 'A' <= c && c <= 'Z' {
        c as u32 - 'A' as u32 + 10
    } else {
        radix
    };
    if v < radix {
        Some(v)
    } else {
        None
    }
}

/// Reads a whole text as a number of the given radix, no greater than `max`.
pub fn parse_number(s: &str, radix: u32, max: u32) -> (r: Option<u32>)
    requires
        2 <= radix <= 36,
    ensures
        match r {
            Some(v) => number_of(s@, radix as int, max as int) == Some(v as int),
            None => number_of(s@, radix as int, max as int) is None,
        },
{
    let n: usize = s.unicode_len();
    let start: usize = if n > 0 && s.get_char(0) == '+' {
        1
    } else {
        0
    };
    let ghost digits = without_plus(s@);
    let ghost base = radix as int;
    assert(digits =~= s@.skip(start as int));
    if start == n {
        return None;
    }
    let mut value: u64 = 0;
    let mut i: usize = start;
    assert(digits.take(0) =~= Seq::<char>::empty());
    while i < n
        invariant
            n == s@.len(),
            start <= i <= n,
            2 <= radix <= 36,
            base == radix,
            digits == without_plus(s@),
            digits == s@.skip(start as int),
            value <= max,
            value == digits_value(digits.take(i - start), base),
            all_digits(digits.take(i - start), base),
        decreases n - i,
    {
        let c: char = s.get_char(i);
        let ghost taken = digits.take(i - start + 1);
        assert(c == digits[i - start]);
        assert(taken.drop_last() =~= digits.take(i - start));
        assert(taken.last() == c);
        match digit_of(c, radix) {
            None => {
                assert(!all_digits(digits, base)) by {
                    assert(digit_value(digits[i - start], base) is None);
                }
                return None;
            },
            Some(d) => {
                assert(value * radix <= 0xffff_ffff * 36) by (nonlinear_arith)
                    requires
                        value <= 0xffff_ffff,
                        radix <= 36,
                ;
                value = value * (radix as u64) + d as u64;
                assert(value == digits_value(taken, base));
                if value > max as u64 {
                    proof {
                        digits_value_grows(digits, i - start + 1, base);
                    }
                    return None;
                }
                assert(all_digits(taken, base)) by {
                    assert forall|j: int| 0 <= j < taken.len() implies digit_value(
                        #[trigger] taken[j],
                        base,
                    ) is Some by {
                        if j < i - start {
                            assert(digits.take(i - start)[j] == taken[j]);
                        }
                    }
                }
            },
        }
        i = i + 1;
    }
    assert(digits.take(n - start) =~= digits);
    Some(value as u32)
}

/// A decimal number is read back from its digits.
pub proof fn decimal_roundtrip(n: nat)
    ensures
        decimal(n).len() > 0,
        all_digits(decimal(n), 10),
        digits_value(decimal(n), 10) == n,
        forall|i: int| 0 <= i < decimal(n).len() ==> '0' <= #[trigger] decimal(n)[i] <= '9',
    decreases n,
{
    if n < 10 {
        assert(decimal(n).drop_last() =~= Seq::<char>::empty());
        assert(digits_value(Seq::<char>::empty(), 10) == 0);
    } else {
        decimal_roundtrip(n / 10);
        assert(decimal(n).drop_last() =~= decimal(n / 10));
    }
}

/// Different numbers have different decimals.
pub proof fn decimal_injective(a: nat, b: nat)
    requires
        decimal(a) == decimal(b),
    ensures
        a == b,
{
    decimal_roundtrip(a);
    decimal_roundtrip(b);
}

/// A text cut at the first occurrence of `c`.
pub open spec fn split_at_first(s: Seq<char>, c: char) -> Option<(Seq<char>, Seq<char>)> {
    match s.index_of_first(c) {
        Some(i) => Some((s.take(i), s.skip(i + 1))),
        None => None,
    }
}

/// Cuts a text at the first occurrence of `c`, which belongs to neither part.
pub fn split_once<'a>(s: &'a str, c: char) -> (r: Option<(&'a str, &'a str)>)
    ensures
        match r {
            Some((head, tail)) => split_at_first(s@, c) == Some((head@, tail@)),
            None => split_at_first(s@, c) is None,
        },
{
    proof {
        s@.index_of_first_ensures(c);
    }
    let n: usize = s.unicode_len();
    let mut i: usize = 0;
    while i < n
        invariant
            n == s@.len(),
            i <= n,
            forall|j: int| 0 <= j < i ==> s@[j] != c,
            match s@.index_of_first(c) {
                Some(p) => 0 <= p < s@.len() && s@[p] == c && forall|j: int|
                    0 <= j < p < s@.len() ==> s@[j] != c,
                None => !s@.contains(c),
            },
        decreases n - i,
    {
        if s.get_char(i) == c {
            assert(s@.contains(c));
            assert(s@.take(i as int) =~= s@.subrange(0, i as int));
            assert(s@.skip(i + 1) =~= s@.subrange(i + 1, n as int));
            return Some((s.substring_char(0, i), s.substring_char(i + 1, n)));
        }
        i = i + 1;
    }
    None
}

/// What the characters of a radix up to 36 are worth.
pub proof fn digits_are_worth_their_place(c: char, radix: int)
    requires
        2 <= radix <= 36,
    ensures
        digit_value(c, radix) is None || 0 <= digit_value(c, radix)->0 < radix,
        '0' <= c <= '9' && (c as int - '0' as int) < radix ==> digit_value(c, radix) == Some(
            c as int - '0' as int,
        ),
        'a' <= c <= 'z' && (c as int - 'a' as int + 10) < radix ==> digit_value(c, radix) == Some(
            c as int - 'a' as int + 10,
        ),
        'A' <= c <= 'Z' && (c as int - 'A' as int + 10) < radix ==> digit_value(c, radix) == Some(
            c as int - 'A' as int + 10,
        ),
        !('0' <= c <= '9') && !('a' <= c <= 'z') && !('A' <= c <= 'Z') ==> digit_value(
            c,
            radix,
        ) is None,
{
}

/// A number is read digit by digit: one digit is worth what it is, and a digit
/// behind a number makes it as many times as large as the radix says, plus
/// itself, as long as that is no greater than `max`; what is no digit makes it
/// no number.
pub proof fn numbers_are_read_digit_by_digit(s: Seq<char>, c: char, radix: int, max: int)
    requires
        2 <= radix <= 36,
    ensures
        number_of(Seq::<char>::empty(), radix, max) is None,
        number_of(seq![c], radix, max) == match digit_value(c, radix) {
            Some(v) => if v <= max {
                Some(v)
            } else {
                None
            },
            None => None,
        },
        s.len() > 0 && s != seq!['+'] ==> number_of(s.push(c), radix, max) == match (
            number_of(s, radix, max),
            digit_value(c, radix),
        ) {
            (Some(n), Some(v)) => if n * radix + v <= max {
                Some(n * radix + v)
            } else {
                None
            },
            _ => None,
        },
        s.len() > 0 && s[0] != '+' ==> number_of(seq!['+'] + s, radix, max) == number_of(
            s,
            radix,
            max,
        ),
{
    let one = seq![c];
    assert(one.drop_last() =~= Seq::<char>::empty());
    assert(digits_value(Seq::<char>::empty(), radix) == 0);
    assert(digits_value(one, radix) == match digit_value(c, radix) {
        Some(v) => v,
        None => 0,
    });
    if c != '+' {
        assert(without_plus(one) =~= one);
        if digit_value(c, radix) is Some {
            assert(all_digits(one, radix));
        } else {
            assert(digit_value(one[0], radix) is None);
        }
    } else {
        assert(without_plus(one).len() == 0);
    }
    if s.len() > 0 && s != seq!['+'] {
        let digits = without_plus(s);
        if s[0] == '+' && s.len() == 1 {
            assert(s =~= seq!['+']);
        }
        assert(digits.len() > 0);
        assert(without_plus(s.push(c)) =~= digits.push(c));
        let longer = digits.push(c);
        assert(longer.drop_last() =~= digits);
        if all_digits(digits, radix) && digit_value(c, radix) is Some {
            assert forall|i: int| 0 <= i < longer.len() implies digit_value(
                #[trigger] longer[i],
                radix,
            ) is Some by {
                if i < digits.len() {
                    assert(longer[i] == digits[i]);
                }
            }
            digits_value_grows(longer, digits.len() as int, radix);
            assert(longer.take(digits.len() as int) =~= digits);
        } else if !all_digits(digits, radix) {
            let i = choose|i: int|
                0 <= i < digits.len() && digit_value(#[trigger] digits[i], radix) is None;
            assert(digit_value(longer[i], radix) is None);
        } else {
            assert(digit_value(longer[digits.len() as int], radix) is None);
        }
    }
    if s.len() > 0 && s[0] != '+' {
        assert(without_plus(seq!['+'] + s) =~= s);
    }
}

/// A text is cut at the first occurrence of a character and only there.
pub proof fn texts_are_cut_at_the_first(head: Seq<char>, c: char, tail: Seq<char>)
    requires
        !head.contains(c),
    ensures
        split_at_first(head, c) is None,
        split_at_first(head.push(c) + tail, c) == Some((head, tail)),
{
    head.index_of_first_ensures(c);
    let s = head.push(c) + tail;
    s.index_of_first_ensures(c);
    let k = head.len() as int;
    assert(s[k] == c);
    assert(s.contains(c));
    let p = s.index_of_first(c)->0;
    if p < k {
        assert(head[p] == s[p]);
        assert(head.contains(c));
    }
    assert(p == k);
    assert(s.take(k) =~= head);
    assert(s.skip(k + 1) =~= tail);
}

/// A decimal has no leading zero, and a number ten times as large plus a digit
/// has that digit behind it.
pub proof fn decimals_are_written_digit_by_digit(n: nat, d: nat)
    requires
        d <= 9,
    ensures
        decimal(d) == seq![('0' as int + d) as char],
        n > 0 ==> decimal(10 * n + d) == decimal(n).push(('0' as int + d) as char),
        n > 0 ==> decimal(n)[0] != '0',
    decreases n,
{
    if n > 0 {
        assert((10 * n + d) / 10 == n && (10 * n + d) % 10 == d);
        if n >= 10 {
            decimals_are_written_digit_by_digit(n / 10, 0);
            decimal_roundtrip(n / 10);
            assert(decimal(n)[0] == decimal(n / 10)[0]);
        }
    }
}

/// Of two texts that one comes first whose UTF-8 bytes end, or are smaller, at
/// the first place at which the two differ.
pub proof fn first_different_byte_decides(a: Seq<char>, b: Seq<char>)
    ensures
        ({
            let x = vstd::utf8::encode_utf8(a);
            let y = vstd::utf8::encode_utf8(b);
            key_before(a, b) <==> exists|i: int|
                0 <= i <= x.len() && i < y.len() && #[trigger] x.take(i) == y.take(i) && (i
                    == x.len() || x[i] < y[i])
        }),
{
    let x = vstd::utf8::encode_utf8(a);
    let y = vstd::utf8::encode_utf8(b);
    if key_before(a, b) {
        let i = choose|i: int| first_smaller_at(x, y, i);
        assert(x.take(i) =~= y.take(i));
    }
    if exists|i: int|
        0 <= i <= x.len() && i < y.len() && #[trigger] x.take(i) == y.take(i) && (i == x.len()
            || x[i] < y[i]) {
        let i = choose|i: int|
            0 <= i <= x.len() && i < y.len() && #[trigger] x.take(i) == y.take(i) && (i == x.len()
                || x[i] < y[i]);
        assert forall|j: int| 0 <= j < i implies x[j] == y[j] by {
            assert(x.take(i)[j] == y.take(i)[j]);
        }
        assert(first_smaller_at(x, y, i));
    }
}

} // verus!
