//! Character-level text: comparison, case folding and decimal digits.

use vstd::prelude::*;

verus! {

/// The ASCII lower-case form of one character.
pub open spec fn lower_char(c: char) -> char {
    if 'A' <= c <= 'Z' {
        ((c as u32) + 32) as char
    } else {
        c
    }
}

/// A text with each of its ASCII letters in lower case.
pub open spec fn lower(s: Seq<char>) -> Seq<char> {
    s.map_values(|c: char| lower_char(c))
}

/// `str::to_ascii_lowercase`: each of the letters `A` to `Z` becomes the letter `a` to
/// `z`, and every other character stays as it is.
pub assume_specification[ str::to_ascii_lowercase ](s: &str) -> (r: String)
    ensures
        r@ == lower(s@),
;

/// What the `Debug` form of a text reads: the text in double quotes, escaped.
pub uninterp spec fn debug_form(s: Seq<char>) -> Seq<char>;

/// The `Debug` formatting of a `str`, which depends on the text alone.
#[verifier::external_body]
pub(crate) fn quoted(s: &str) -> (r: String)
    ensures
        r@ == debug_form(s@),
{
    format!("{s:?}")
}

/// `std::str::from_utf8`: the text that some bytes are the UTF-8 form of; none where they
/// are no such form.
#[verifier::external_body]
pub(crate) fn utf8_text(bytes: &Vec<u8>) -> (r: Option<&str>)
    ensures
        r is Some <==> vstd::utf8::valid_utf8(bytes@),
        r is Some ==> r->Some_0@ == vstd::utf8::decode_utf8(bytes@),
{
    std::str::from_utf8(bytes).ok()
}

/// The characters of a text, one by one.
pub fn chars_of(s: &str) -> (r: Vec<char>)
    ensures
        r@ == s@,
{
    let mut out: Vec<char> = Vec::new();
    for c in it: s.chars()
        invariant
            out@.len() == it.index(),
            it.seq() == s@,
            forall|i: int| 0 <= i < out@.len() ==> out@[i] == s@[i],
    {
        out.push(c);
    }
    out
}

/// Whether two texts are the same.
pub fn same_text(a: &str, b: &str) -> (r: bool)
    ensures
        r == (a@ == b@),
{
    let x = a.as_bytes();
    let y = b.as_bytes();
    proof {
        vstd::utf8::encode_utf8_decode_utf8(a@);
        vstd::utf8::encode_utf8_decode_utf8(b@);
    }
    if x.len() != y.len() {
        return false;
    }
    let mut i: usize = 0;
    while i < x.len()
        invariant
            i <= x@.len(),
            x@.len() == y@.len(),
            forall|k: int| 0 <= k < i ==> x@[k] == y@[k],
            x@ == vstd::utf8::encode_utf8(a@),
            y@ == vstd::utf8::encode_utf8(b@),
        decreases x@.len() - i,
    {
        if x[i] != y[i] {
            return false;
        }
        i += 1;
    }
    assert(x@ =~= y@);
    true
}

/// The character of a decimal digit.
pub open spec fn digit_char(d: nat) -> char {
    (('0' as u32) + d) as char
}

/// A number in decimal digits, without leading zeros.
pub open spec fn decimal(n: nat) -> Seq<char>
    decreases n,
{
    if n < 10 {
        seq![digit_char(n)]
    } else {
        decimal(n / 10).push(digit_char(n % 10))
    }
}

/// So many zeros.
pub open spec fn zeros(n: nat) -> Seq<char> {
    Seq::new(n, |i: int| '0')
}

/// A number in at least `width` decimal digits.
pub open spec fn padded(n: nat, width: nat) -> Seq<char> {
    let d = decimal(n);
    if d.len() < width {
        zeros((width - d.len()) as nat) + d
    } else {
        d
    }
}

fn digit(d: u64) -> (r: &'static str)
    requires
        d < 10,
    ensures
        r@ == seq![digit_char(d as nat)],
{
    proof {
        reveal_strlit("0");
        reveal_strlit("1");
        reveal_strlit("2");
        reveal_strlit("3");
        reveal_strlit("4");
        reveal_strlit("5");
        reveal_strlit("6");
        reveal_strlit("7");
        reveal_strlit("8");
        reveal_strlit("9");
    }
    match d {
        0 => "0",
        1 => "1",
        2 => "2",
        3 => "3",
        4 => "4",
        5 => "5",
        6 => "6",
        7 => "7",
        8 => "8",
        _ => "9",
    }
}

/// Appends a number in decimal digits.
pub fn push_decimal(out: &mut String, n: u64)
    ensures
        final(out)@ == old(out)@ + decimal(n as nat),
    decreases n,
{
    if n >= 10 {
        push_decimal(out, n / 10);
    }
    out.append(digit(n % 10));
    assert(out@ =~= old(out)@ + decimal(n as nat));
}

/// Appends a number in at least `width` decimal digits.
pub fn push_padded(out: &mut String, n: u64, width: u8)
    requires
        width <= 4,
    ensures
        final(out)@ == old(out)@ + padded(n as nat, width as nat),
{
    proof {
        reveal_strlit("0");
        reveal_with_fuel(decimal, 4);
    }
    if width >= 4 && n < 1000 {
        out.append("0");
    }
    if width >= 3 && n < 100 {
        out.append("0");
    }
    if width >= 2 && n < 10 {
        out.append("0");
    }
    push_decimal(out, n);
    assert(out@ =~= old(out)@ + padded(n as nat, width as nat));
}

// ---- reading numbers back, and their order ----

/// The value of a character as a decimal digit.
pub open spec fn digit_value(c: char) -> nat {
    (c as u32 - '0' as u32) as nat
}

/// The number that some decimal digits write.
pub open spec fn number(s: Seq<char>) -> nat
    decreases s.len(),
{
    if s.len() == 0 {
        0
    } else {
        number(s.drop_last()) * 10 + digit_value(s.last())
    }
}

/// `a` and `b` agree before `i`, and there `a` ends or has the lesser character.
pub open spec fn precedes_at(a: Seq<char>, b: Seq<char>, i: int) -> bool {
    &&& 0 <= i < b.len()
    &&& i <= a.len()
    &&& forall|k: int| 0 <= k < i ==> a[k] == b[k]
    &&& i == a.len() || a[i] < b[i]
}

/// `a` comes before `b` in the order of texts.
pub open spec fn precedes(a: Seq<char>, b: Seq<char>) -> bool {
    exists|i: int| precedes_at(a, b, i)
}

/// Ten to the power of a width.
pub open spec fn power10(width: nat) -> nat {
    if width == 2 {
        100
    } else if width == 3 {
        1000
    } else {
        10000
    }
}

proof fn lemma_digit(d: nat)
    requires
        d < 10,
    ensures
        digit_value(digit_char(d)) == d,
        digit_char(0) == '0',
        forall|e: nat| d < e < 10 ==> digit_char(d) < #[trigger] digit_char(e),
{
}

/// A number of two, three or four digits is written with just these.
#[verifier::spinoff_prover]
proof fn lemma_padded(n: nat, width: nat)
    requires
        2 <= width <= 4,
        n < power10(width),
    ensures
        width == 2 ==> padded(n, width) == seq![digit_char(n / 10), digit_char(n % 10)],
        width == 3 ==> padded(n, width) == seq![
            digit_char(n / 100),
            digit_char((n / 10) % 10),
            digit_char(n % 10),
        ],
        width == 4 ==> padded(n, width) == seq![
            digit_char(n / 1000),
            digit_char((n / 100) % 10),
            digit_char((n / 10) % 10),
            digit_char(n % 10),
        ],
{
    reveal_with_fuel(decimal, 5);
    lemma_digit(0);
    let p = padded(n, width);
    if width == 2 {
        assert(p =~= seq![digit_char(n / 10), digit_char(n % 10)]);
    } else if width == 3 {
        assert(p =~= seq![digit_char(n / 100), digit_char((n / 10) % 10), digit_char(n % 10)]);
    } else {
        assert(p =~= seq![
            digit_char(n / 1000),
            digit_char((n / 100) % 10),
            digit_char((n / 10) % 10),
            digit_char(n % 10),
        ]);
    }
}

proof fn lemma_number_push(s: Seq<char>, c: char)
    ensures
        number(s.push(c)) == number(s) * 10 + digit_value(c),
{
    assert(s.push(c).drop_last() =~= s);
}

/// A number is made of its digits.
#[verifier::spinoff_prover]
proof fn lemma_digits_of(n: nat)
    ensures
        n == 10 * (n / 10) + n % 10,
        n / 10 == 10 * (n / 100) + (n / 10) % 10,
        n / 100 == 10 * (n / 1000) + (n / 100) % 10,
{
}

/// A number that is written in a fixed width takes that width and reads back.
#[verifier::spinoff_prover]
pub proof fn law_numbers_read_back(n: nat, width: nat)
    requires
        2 <= width <= 4,
        n < power10(width),
    ensures
        padded(n, width).len() == width,
        number(padded(n, width)) == n,
{
    lemma_padded(n, width);
    lemma_digits_of(n);
    lemma_digit(n % 10);
    lemma_digit((n / 10) % 10);
    let none = Seq::<char>::empty();
    if width == 2 {
        lemma_digit(n / 10);
        let s = none.push(digit_char(n / 10));
        lemma_number_push(none, digit_char(n / 10));
        lemma_number_push(s, digit_char(n % 10));
        assert(padded(n, width) =~= s.push(digit_char(n % 10)));
    } else if width == 3 {
        lemma_digit(n / 100);
        let s = none.push(digit_char(n / 100));
        let t = s.push(digit_char((n / 10) % 10));
        lemma_number_push(none, digit_char(n / 100));
        lemma_number_push(s, digit_char((n / 10) % 10));
        lemma_number_push(t, digit_char(n % 10));
        assert(padded(n, width) =~= t.push(digit_char(n % 10)));
    } else {
        lemma_digit(n / 1000);
        lemma_digit((n / 100) % 10);
        let s = none.push(digit_char(n / 1000));
        let t = s.push(digit_char((n / 100) % 10));
        let u = t.push(digit_char((n / 10) % 10));
        lemma_number_push(none, digit_char(n / 1000));
        lemma_number_push(s, digit_char((n / 100) % 10));
        lemma_number_push(t, digit_char((n / 10) % 10));
        lemma_number_push(u, digit_char(n % 10));
        assert(padded(n, width) =~= u.push(digit_char(n % 10)));
    }
}

#[verifier::spinoff_prover]
proof fn lemma_digits_in_order(a: nat, b: nat)
    requires
        a < b < 10000,
    ensures
        a / 1000 < 10,
        b / 1000 < 10,
        a / 1000 <= b / 1000,
        a / 1000 == b / 1000 ==> (a / 100) % 10 <= (b / 100) % 10,
        a / 1000 == b / 1000 && (a / 100) % 10 == (b / 100) % 10 ==> (a / 10) % 10 <= (b / 10)
            % 10,
        a / 1000 == b / 1000 && (a / 100) % 10 == (b / 100) % 10 && (a / 10) % 10 == (b / 10)
            % 10 ==> a % 10 < b % 10,
{
    lemma_digits_of(a);
    lemma_digits_of(b);
}

/// Numbers that are written in one fixed width are in the order of their texts.
#[verifier::spinoff_prover]
pub proof fn law_numbers_are_in_order(a: nat, b: nat, width: nat)
    requires
        2 <= width <= 4,
        a < b < power10(width),
    ensures
        precedes(padded(a, width), padded(b, width)),
{
    let x = padded(a, width);
    let y = padded(b, width);
    lemma_digits_in_order(a, b);
    assert(width == 2 ==> (a / 10) % 10 == a / 10 && (b / 10) % 10 == b / 10);
    assert(width <= 3 ==> a / 1000 == 0 && b / 1000 == 0);
    assert(width == 2 ==> a / 100 == 0 && b / 100 == 0);
    assert(width == 3 ==> (a / 100) % 10 == a / 100 && (b / 100) % 10 == b / 100);
    let i: int = if a / 1000 < b / 1000 {
        width - 4
    } else if (a / 100) % 10 < (b / 100) % 10 {
        width - 3
    } else if (a / 10) % 10 < (b / 10) % 10 {
        width - 2
    } else {
        width - 1
    };
    assert(x.len() == width && y.len() == width && x[i] < y[i]) by {
        lemma_padded(a, width);
        lemma_padded(b, width);
        lemma_digit(a / 1000);
        lemma_digit((a / 100) % 10);
        lemma_digit((a / 10) % 10);
        lemma_digit(a % 10);
    }
    assert(forall|k: int| 0 <= k < i ==> x[k] == y[k]) by {
        lemma_padded(a, width);
        lemma_padded(b, width);
    }
    assert(precedes_at(x, y, i));
}

/// Texts of one start are in the order of what stands behind it, however they go on.
pub proof fn lemma_order_in_place(
    start: Seq<char>,
    a: Seq<char>,
    b: Seq<char>,
    x: Seq<char>,
    y: Seq<char>,
)
    requires
        a.len() == b.len(),
        precedes(a, b),
    ensures
        precedes(start + a + x, start + b + y),
{
    let i = choose|i: int| precedes_at(a, b, i);
    assert(precedes_at(start + a + x, start + b + y, start.len() + i));
}

} // verus!
