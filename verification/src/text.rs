//! Text helpers: order, equality, decimal numerals and character inspection.

use vstd::prelude::*;
use vstd::std_specs::iter::IteratorSpec;

verus! {

broadcast use {vstd::string::axiom_spec_iter, vstd::string::next_postcondition};

/// The order of two texts by code point, the first difference deciding.
pub open spec fn text_before(a: Seq<char>, b: Seq<char>) -> bool
    decreases a.len(),
{
    if b.len() == 0 {
        false
    } else if a.len() == 0 {
        true
    } else if a[0] != b[0] {
        a[0] < b[0]
    } else {
        text_before(a.drop_first(), b.drop_first())
    }
}

pub proof fn lemma_text_before_irreflexive(a: Seq<char>)
    ensures
        !text_before(a, a),
    decreases a.len(),
{
    if a.len() > 0 {
        lemma_text_before_irreflexive(a.drop_first());
    }
}

pub proof fn lemma_text_before_transitive(a: Seq<char>, b: Seq<char>, c: Seq<char>)
    requires
        text_before(a, b),
        text_before(b, c),
    ensures
        text_before(a, c),
    decreases a.len(),
{
    if a.len() > 0 && b.len() > 0 && c.len() > 0 && a[0] == b[0] && b[0] == c[0] {
        lemma_text_before_transitive(a.drop_first(), b.drop_first(), c.drop_first());
    }
}

/// How one text stands to another in code point order.
pub enum TextOrder {
    Before,
    Same,
    After,
}

/// Compares two texts by code point.
pub fn text_order(a: &str, b: &str) -> (order: TextOrder)
    ensures
        match order {
            TextOrder::Before => text_before(a@, b@),
            TextOrder::Same => a@ == b@,
            TextOrder::After => text_before(b@, a@),
        },
{
    let mut left = a.chars();
    let mut right = b.chars();
    assert(left.remaining() =~= a@);
    assert(right.remaining() =~= b@);
    loop
        invariant
            left.obeys_prophetic_iter_laws(),
            right.obeys_prophetic_iter_laws(),
            text_before(a@, b@) == text_before(left.remaining(), right.remaining()),
            text_before(b@, a@) == text_before(right.remaining(), left.remaining()),
            (a@ == b@) == (left.remaining() == right.remaining()),
            left.decrease() is Some,
        decreases left.decrease()->0,
    {
        let ghost before_left = left.remaining();
        let ghost before_right = right.remaining();
        let x = left.next();
        let y = right.next();
        match (x, y) {
            (None, None) => {
                assert(before_left =~= before_right);
                return TextOrder::Same;
            },
            (None, Some(_)) => {
                return TextOrder::Before;
            },
            (Some(_), None) => {
                return TextOrder::After;
            },
            (Some(p), Some(q)) => {
                if p < q {
                    return TextOrder::Before;
                }
                if q < p {
                    return TextOrder::After;
                }
                proof {
                    assert(before_left =~= seq![p] + before_left.drop_first());
                    assert(before_right =~= seq![q] + before_right.drop_first());
                }
            },
        }
    }
}

/// Whether two texts are equal.
pub fn same_text(a: &str, b: &str) -> (same: bool)
    ensures
        same == (a@ == b@),
{
    a.to_owned() == b.to_owned()
}

/// The characters of a text.
pub fn letters(text: &str) -> (out: Vec<char>)
    ensures
        out@ == text@,
{
    let mut out: Vec<char> = Vec::new();
    let mut rest = text.chars();
    assert(rest.remaining() =~= text@);
    loop
        invariant
            rest.obeys_prophetic_iter_laws(),
            out@ + rest.remaining() == text@,
            rest.decrease() is Some,
        decreases rest.decrease()->0,
    {
        let ghost before = rest.remaining();
        match rest.next() {
            None => {
                assert(out@ + before =~= out@);
                return out;
            },
            Some(c) => {
                out.push(c);
                assert(before =~= seq![c] + rest.remaining());
            },
        }
    }
}

/// The texts that a vector of strings holds.
pub open spec fn texts(strings: Seq<String>) -> Seq<Seq<char>> {
    strings.map_values(|s: String| s@)
}

/// The decimal digit of a value below ten.
pub open spec fn digit_char(d: nat) -> char {
    (48 + d) as char
}

/// The decimal numeral of a number, without leading zeros.
pub open spec fn decimal(n: nat) -> Seq<char>
    decreases n,
{
    if n < 10 {
        seq![digit_char(n)]
    } else {
        decimal(n / 10).push(digit_char(n % 10))
    }
}

/// The numeral padded with zeros in front to at least four digits.
pub open spec fn padded(n: nat) -> Seq<char> {
    if n < 10 {
        seq!['0', '0', '0'] + decimal(n)
    } else if n < 100 {
        seq!['0', '0'] + decimal(n)
    } else if n < 1000 {
        seq!['0'] + decimal(n)
    } else {
        decimal(n)
    }
}

/// The value that a run of decimal digits stands for.
pub open spec fn digits_value(s: Seq<char>) -> nat
    decreases s.len(),
{
    if s.len() == 0 {
        0
    } else {
        10 * digits_value(s.drop_last()) + (s.last() as nat - 48) as nat
    }
}

/// Whether a character is a decimal digit.
pub open spec fn is_digit(c: char) -> bool {
    '0' <= c <= '9'
}

/// Whether a text holds decimal digits and nothing else.
pub open spec fn all_digits(s: Seq<char>) -> bool {
    forall|i: int| 0 <= i < s.len() ==> is_digit(#[trigger] s[i])
}

pub proof fn lemma_digit_char(d: nat)
    requires
        d < 10,
    ensures
        is_digit(digit_char(d)),
        digit_char(d) as nat - 48 == d,
{
}

pub proof fn lemma_decimal_value(n: nat)
    ensures
        all_digits(decimal(n)),
        decimal(n).len() >= 1,
        digits_value(decimal(n)) == n,
    decreases n,
{
    reveal_with_fuel(digits_value, 2);
    lemma_digit_char(n % 10);
    if n < 10 {
        assert(decimal(n).drop_last() =~= Seq::<char>::empty());
    } else {
        lemma_decimal_value(n / 10);
        assert(decimal(n).drop_last() =~= decimal(n / 10));
    }
}

proof fn lemma_leading_zeros(zeros: Seq<char>, s: Seq<char>)
    requires
        forall|i: int| 0 <= i < zeros.len() ==> zeros[i] == '0',
    ensures
        digits_value(zeros + s) == digits_value(s),
    decreases s.len(), zeros.len(),
{
    if s.len() > 0 {
        assert((zeros + s).drop_last() =~= zeros + s.drop_last());
        lemma_leading_zeros(zeros, s.drop_last());
    } else if zeros.len() > 0 {
        assert((zeros + s).drop_last() =~= zeros.drop_last() + s);
        lemma_leading_zeros(zeros.drop_last(), s);
    } else {
        assert(zeros + s =~= s);
    }
}

proof fn lemma_decimal_length(n: nat)
    ensures
        n < 10 ==> decimal(n).len() == 1,
        10 <= n < 100 ==> decimal(n).len() == 2,
        100 <= n < 1000 ==> decimal(n).len() == 3,
        1000 <= n < 10000 ==> decimal(n).len() == 4,
        n >= 10000 ==> decimal(n).len() > 4,
{
    reveal_with_fuel(decimal, 5);
    if n >= 10000 {
        lemma_decimal_value(n / 10000);
    }
}

/// A padded numeral holds digits only, at least four, and gives its number back.
pub proof fn lemma_padded_value(n: nat)
    ensures
        all_digits(padded(n)),
        padded(n).len() >= 4,
        n < 10000 <==> padded(n).len() == 4,
        digits_value(padded(n)) == n,
{
    lemma_decimal_value(n);
    lemma_decimal_length(n);
    if n < 10 {
        lemma_leading_zeros(seq!['0', '0', '0'], decimal(n));
    } else if n < 100 {
        lemma_leading_zeros(seq!['0', '0'], decimal(n));
    } else if n < 1000 {
        lemma_leading_zeros(seq!['0'], decimal(n));
    }
}

proof fn lemma_same_digits(a: Seq<char>, b: Seq<char>)
    requires
        all_digits(a),
        all_digits(b),
        a.len() == b.len(),
        digits_value(a) == digits_value(b),
    ensures
        a == b,
    decreases a.len(),
{
    if a.len() > 0 {
        let x = (a.last() as nat - 48) as nat;
        let y = (b.last() as nat - 48) as nat;
        assert(is_digit(a[a.len() - 1]) && is_digit(b[b.len() - 1]));
        assert(x == y && digits_value(a.drop_last()) == digits_value(b.drop_last()));
        lemma_same_digits(a.drop_last(), b.drop_last());
        assert(a =~= a.drop_last().push(a.last()));
        assert(b =~= b.drop_last().push(b.last()));
    } else {
        assert(a =~= b);
    }
}

/// Four digits are the padded numeral of the value they stand for.
pub proof fn lemma_four_digits(s: Seq<char>)
    requires
        s.len() == 4,
        all_digits(s),
    ensures
        digits_value(s) < 10000,
        padded(digits_value(s)) == s,
{
    reveal_with_fuel(digits_value, 5);
    assert(is_digit(s[0]) && is_digit(s[1]) && is_digit(s[2]) && is_digit(s[3]));
    let n = digits_value(s);
    assert(n < 10000);
    lemma_padded_value(n);
    lemma_same_digits(padded(n), s);
}

fn digit_text(d: u128) -> (text: &'static str)
    requires
        d < 10,
    ensures
        text@ == seq![digit_char(d as nat)],
{
    proof {
        reveal_strlit("0");
        reveal_strlit("1");
        reveal_strlit("2");
        reveal_strlit("3");
        reveal_strlit("4");
        reveal_strlit("5");
        reveal_strlit("6");
        reveal_strlit("7");
        reveal_strlit("8");
        reveal_strlit("9");
    }
    let text = match d {
        0 => "0",
        1 => "1",
        2 => "2",
        3 => "3",
        4 => "4",
        5 => "5",
        6 => "6",
        7 => "7",
        8 => "8",
        _ => "9",
    };
    assert(text@ =~= seq![digit_char(d as nat)]);
    text
}

/// Writes a number in decimal.
pub fn decimal_text(n: u128) -> (out: String)
    ensures
        out@ == decimal(n as nat),
    decreases n,
{
    if n < 10 {
        digit_text(n).to_owned()
    } else {
        let mut out = decimal_text(n / 10);
        out.append(digit_text(n % 10));
        assert(out@ =~= decimal(n as nat));
        out
    }
}

/// Writes a number in decimal, padded with zeros to at least four digits.
pub fn padded_text(n: u64) -> (out: String)
    ensures
        out@ == padded(n as nat),
{
    proof {
        reveal_strlit("000");
        reveal_strlit("00");
        reveal_strlit("0");
        assert("000"@ =~= seq!['0', '0', '0']);
        assert("00"@ =~= seq!['0', '0']);
        assert("0"@ =~= seq!['0']);
    }
    let numeral = decimal_text(n as u128);
    if n < 10 {
        "000".to_owned().concat(numeral.as_str())
    } else if n < 100 {
        "00".to_owned().concat(numeral.as_str())
    } else if n < 1000 {
        "0".to_owned().concat(numeral.as_str())
    } else {
        numeral
    }
}

/// Two texts stand in order as their first difference says: the one that ends first, or has the
/// smaller character there, comes first. Texts without a difference are the same.
pub proof fn law_text_order(a: &str, b: &str, order: TextOrder, place: int)
    requires
        call_ensures(text_order, (a, b), order),
        0 <= place <= a@.len(),
        place <= b@.len(),
        forall|i: int| 0 <= i < place ==> #[trigger] a@[i] == b@[i],
    ensures
        place == a@.len() && place == b@.len() ==> order is Same,
        place == a@.len() && place < b@.len() ==> order is Before,
        place < a@.len() && place == b@.len() ==> order is After,
        place < a@.len() && place < b@.len() && a@[place] < b@[place] ==> order is Before,
        place < a@.len() && place < b@.len() && a@[place] > b@[place] ==> order is After,
{
    lemma_text_before_at(a@, b@, place);
    lemma_text_before_at(b@, a@, place);
    if a@ == b@ && place < a@.len() {
        assert(a@[place] == b@[place]);
    }
    if place == a@.len() && place == b@.len() {
        assert(a@ =~= b@);
        lemma_text_before_irreflexive(a@);
    }
}

/// The order of two texts goes by the first place where they differ.
proof fn lemma_text_before_at(a: Seq<char>, b: Seq<char>, place: int)
    requires
        0 <= place <= a.len(),
        place <= b.len(),
        forall|i: int| 0 <= i < place ==> #[trigger] a[i] == b[i],
    ensures
        place == b.len() ==> !text_before(a, b),
        place == a.len() && place < b.len() ==> text_before(a, b),
        place < a.len() && place < b.len() && a[place] != b[place] ==> text_before(a, b) == (
        a[place] < b[place]),
    decreases place,
{
    if place > 0 {
        let x = a.drop_first();
        let y = b.drop_first();
        assert(a[0] == b[0]);
        assert forall|i: int| 0 <= i < place - 1 implies #[trigger] x[i] == y[i] by {
            assert(a[i + 1] == b[i + 1]);
        }
        lemma_text_before_at(x, y, place - 1);
    }
}

/// Texts are the same exactly if their characters are, and the characters of a text are read one by
/// one.
pub proof fn law_characters(a: &str, b: &str, same: bool, out: Vec<char>)
    requires
        call_ensures(same_text, (a, b), same),
        call_ensures(letters, (a,), out),
    ensures
        same <==> a@.len() == b@.len() && forall|i: int|
            0 <= i < a@.len() ==> #[trigger] a@[i] == b@[i],
        out@.len() == a@.len(),
        forall|i: int| 0 <= i < a@.len() ==> #[trigger] out@[i] == a@[i],
{
    if a@.len() == b@.len() && forall|i: int| 0 <= i < a@.len() ==> #[trigger] a@[i] == b@[i] {
        assert(a@ =~= b@);
    }
}

/// A number in decimal has digits only, no zero in front of another digit, and the value of the
/// number, the last digit counting ones and each other one ten times its neighbour. Numbers of one
/// text are the same.
pub proof fn law_decimal_texts(n: u128, m: u128, a: String, b: String)
    requires
        call_ensures(decimal_text, (n,), a),
        call_ensures(decimal_text, (m,), b),
    ensures
        a@.len() >= 1,
        forall|i: int| 0 <= i < a@.len() ==> '0' <= #[trigger] a@[i] <= '9',
        a@.len() > 1 ==> a@[0] != '0',
        digits_value(a@) == n,
        a@ == b@ ==> n == m,
        n < 10 ==> a@.len() == 1 && a@[0] as nat == 48 + n,
        m == n / 10 && n >= 10 ==> a@.drop_last() == b@ && a@.last() as nat == 48 + n % 10,
{
    lemma_decimal_value(n as nat);
    lemma_decimal_value(m as nat);
    lemma_no_leading_zero(n as nat);
    assert forall|i: int| 0 <= i < a@.len() implies '0' <= #[trigger] a@[i] <= '9' by {
        assert(is_digit(a@[i]));
    }
    if n >= 10 && m == n / 10 {
        assert(a@.drop_last() =~= decimal(n as nat / 10));
    }
}

proof fn lemma_no_leading_zero(n: nat)
    ensures
        decimal(n).len() >= 1,
        n > 0 ==> decimal(n)[0] != '0',
        n < 10 ==> decimal(n).len() == 1,
    decreases n,
{
    if n >= 10 {
        lemma_no_leading_zero(n / 10);
    }
}

/// A padded number has digits only, at least four, zeros in front only as far as there are four,
/// and the value of the number. It is the number in decimal, with those zeros in front.
pub proof fn law_padded_texts(n: u64, m: u64, a: String, b: String, plain: String)
    requires
        call_ensures(padded_text, (n,), a),
        call_ensures(padded_text, (m,), b),
        call_ensures(decimal_text, (n as u128,), plain),
    ensures
        a@.len() >= 4,
        forall|i: int| 0 <= i < a@.len() ==> '0' <= #[trigger] a@[i] <= '9',
        a@.len() > 4 ==> a@[0] != '0',
        digits_value(a@) == n,
        a@ == b@ ==> n == m,
        plain@.len() >= 4 ==> a@ == plain@,
        plain@.len() < 4 ==> a@.len() == 4 && a@.skip(4 - plain@.len()) == plain@ && forall|i: int|
            0 <= i < 4 - plain@.len() ==> #[trigger] a@[i] == '0',
{
    lemma_padded_value(n as nat);
    lemma_padded_value(m as nat);
    lemma_decimal_length(n as nat);
    lemma_no_leading_zero(n as nat);
    assert forall|i: int| 0 <= i < a@.len() implies '0' <= #[trigger] a@[i] <= '9' by {
        assert(is_digit(a@[i]));
    }
    if plain@.len() < 4 {
        assert(a@.skip(4 - plain@.len()) =~= plain@);
    }
}

/// The value of digits is that of the digits before the last one, ten times, and the last one.
pub proof fn law_digits_value(s: Seq<char>, d: char)
    requires
        '0' <= d <= '9',
    ensures
        digits_value(Seq::empty()) == 0,
        digits_value(s.push(d)) == 10 * digits_value(s) + (d as nat - 48),
{
    assert(s.push(d).drop_last() =~= s);
}

} // verus!
