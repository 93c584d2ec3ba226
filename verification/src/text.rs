//! Numbers as text, and strings put together from parts.
use vstd::prelude::*;

verus! {

/// Trusted: std's `String::push` appends the given character to the end of the
/// string.
pub assume_specification[ String::push ](s: &mut String, c: char)
    ensures
        final(s)@ == old(s)@.push(c),
;

/// The digit character of `d`.
pub open spec fn digit(d: nat) -> char {
    if d == 0 {
        '0'
    } else if d == 1 {
        '1'
    } else if d == 2 {
        '2'
    } else if d == 3 {
        '3'
    } else if d == 4 {
        '4'
    } else if d == 5 {
        '5'
    } else if d == 6 {
        '6'
    } else if d == 7 {
        '7'
    } else if d == 8 {
        '8'
    } else {
        '9'
    }
}

/// `n` in decimal, without leading zeros.
pub open spec fn decimal(n: nat) -> Seq<char>
    decreases n,
{
    if n < 10 {
        seq![digit(n)]
    } else {
        decimal(n / 10).push(digit(n % 10))
    }
}

/// `n` in decimal, at least two digits.
pub open spec fn two_digits(n: nat) -> Seq<char> {
    if n < 10 {
        seq!['0'] + decimal(n)
    } else {
        decimal(n)
    }
}

/// `n` in decimal, at least four digits.
pub open spec fn four_digits(n: nat) -> Seq<char> {
    if n < 10 {
        seq!['0', '0', '0'] + decimal(n)
    } else if n < 100 {
        seq!['0', '0'] + decimal(n)
    } else if n < 1000 {
        seq!['0'] + decimal(n)
    } else {
        decimal(n)
    }
}

fn digit_char(d: u64) -> (c: char)
    requires
        d < 10,
    ensures
        c == digit(d as nat),
{
    match d {
        0 => '0',
        1 => '1',
        2 => '2',
        3 => '3',
        4 => '4',
        5 => '5',
        6 => '6',
        7 => '7',
        8 => '8',
        _ => '9',
    }
}

/// Appends `n` in decimal.
pub fn push_decimal(s: &mut String, n: u64)
    ensures
        final(s)@ == old(s)@ + decimal(n as nat),
    decreases n,
{
    if n >= 10 {
        push_decimal(s, n / 10);
    }
    s.push(digit_char(n % 10));
    proof {
        let d = digit((n % 10) as nat);
        if n >= 10 {
            assert(s@ == old(s)@ + decimal((n / 10) as nat).push(d));
        } else {
            assert(s@ == old(s)@ + seq![d]);
        }
    }
}

/// Appends `n` in decimal, at least two digits.
pub fn push_two_digits(s: &mut String, n: u64)
    ensures
        final(s)@ == old(s)@ + two_digits(n as nat),
{
    if n < 10 {
        s.push('0');
    }
    push_decimal(s, n);
    assert(s@ == old(s)@ + two_digits(n as nat));
}

/// Appends `n` in decimal, at least four digits.
pub fn push_four_digits(s: &mut String, n: u64)
    ensures
        final(s)@ == old(s)@ + four_digits(n as nat),
{
    if n < 10 {
        s.push('0');
    }
    if n < 100 {
        s.push('0');
    }
    if n < 1000 {
        s.push('0');
    }
    push_decimal(s, n);
    assert(s@ == old(s)@ + four_digits(n as nat));
}

/// The hexadecimal digit of `d`.
pub open spec fn hex_digit(d: nat) -> char {
    if d < 10 {
        digit(d)
    } else if d == 10 {
        'a'
    } else if d == 11 {
        'b'
    } else if d == 12 {
        'c'
    } else if d == 13 {
        'd'
    } else if d == 14 {
        'e'
    } else {
        'f'
    }
}

/// `n` in hexadecimal, without leading zeros.
pub open spec fn hex(n: nat) -> Seq<char>
    decreases n,
{
    if n < 16 {
        seq![hex_digit(n)]
    } else {
        hex(n / 16).push(hex_digit(n % 16))
    }
}

/// `n` in hexadecimal behind `0x`.
pub open spec fn prefixed_hex(n: nat) -> Seq<char> {
    "0x"@ + hex(n)
}

fn hex_char(d: u64) -> (c: char)
    requires
        d < 16,
    ensures
        c == hex_digit(d as nat),
{
    match d {
        10 => 'a',
        11 => 'b',
        12 => 'c',
        13 => 'd',
        14 => 'e',
        15 => 'f',
        _ => digit_char(d),
    }
}

fn push_hex_digits(s: &mut String, n: u64)
    ensures
        final(s)@ == old(s)@ + hex(n as nat),
    decreases n,
{
    if n >= 16 {
        push_hex_digits(s, n / 16);
    }
    s.push(hex_char(n % 16));
    proof {
        let d = hex_digit((n % 16) as nat);
        if n >= 16 {
            assert(s@ == old(s)@ + hex((n / 16) as nat).push(d));
        } else {
            assert(s@ == old(s)@ + seq![d]);
        }
    }
}

/// Appends `n` in hexadecimal behind `0x`.
pub fn push_hex(s: &mut String, n: u64)
    ensures
        final(s)@ == old(s)@ + prefixed_hex(n as nat),
{
    let ghost was = s@;
    s.append("0x");
    push_hex_digits(s, n);
    assert(s@ =~= was + prefixed_hex(n as nat));
}

/// A fresh string of the given text.
pub fn owned(s: &str) -> (r: String)
    ensures
        r@ == s@,
{
    String::from_str(s)
}

/// Whether two strings hold the same characters.
pub fn same(a: &str, b: &str) -> (r: bool)
    ensures
        r == (a@ == b@),
{
    let n: usize = a.unicode_len();
    if n != b.unicode_len() {
        return false;
    }
    let mut i: usize = 0;
    while i < n
        invariant
            i <= n,
            n == a@.len(),
            n == b@.len(),
            forall|j: int| 0 <= j < i ==> a@[j] == b@[j],
        decreases n - i,
    {
        if a.get_char(i) != b.get_char(i) {
            return false;
        }
        i = i + 1;
    }
    assert(a@ =~= b@);
    true
}

/// A text has another one in it.
pub open spec fn holds(text: Seq<char>, piece: Seq<char>) -> bool {
    exists|at: int| #[trigger] stands_at(text, piece, at)
}

/// A text has another one in it, at a place.
pub open spec fn stands_at(text: Seq<char>, piece: Seq<char>, at: int) -> bool {
    0 <= at && at + piece.len() <= text.len() && text.subrange(at, at + piece.len()) == piece
}

/// What is put between two texts is in what comes of it.
pub proof fn lemma_holds(before: Seq<char>, piece: Seq<char>, after: Seq<char>)
    ensures
        holds(before + piece + after, piece),
{
    let at = before.len() as int;
    let text = before + piece + after;
    assert(text.subrange(at, at + piece.len()) =~= piece);
    assert(stands_at(text, piece, at));
}

/// Texts are put together alike from either end.
pub proof fn lemma_joined(a: Seq<char>, b: Seq<char>, c: Seq<char>)
    ensures
        (a + b) + c == a + (b + c),
{
    assert((a + b) + c =~= a + (b + c));
}

/// A text ends with another one.
pub open spec fn ends(text: Seq<char>, piece: Seq<char>) -> bool {
    piece.len() <= text.len() && text.skip(text.len() - piece.len()) == piece
}

/// What is put behind a text, the text then ends with.
pub proof fn lemma_ends(text: Seq<char>, piece: Seq<char>)
    ensures
        ends(text + piece, piece),
{
    let whole = text + piece;
    assert(whole.skip(whole.len() - piece.len()) =~= piece);
}

/// What a text ends with goes on with what is put behind the text.
pub proof fn lemma_ends_on(text: Seq<char>, piece: Seq<char>, more: Seq<char>)
    requires
        ends(text, piece),
    ensures
        ends(text + more, piece + more),
{
    let (whole, part) = (text + more, piece + more);
    let at = text.len() - piece.len();
    assert forall|i: int| 0 <= i < part.len() implies #[trigger] whole.skip(at)[i] == part[i] by {
        if i < piece.len() {
            assert(text.skip(at)[i] == piece[i]);
        }
    }
    assert(whole.skip(at) =~= part);
}

/// What a text ends with, the end of what it is put behind has too.
pub proof fn lemma_ends_within(text: Seq<char>, piece: Seq<char>, inner: Seq<char>)
    requires
        ends(text, piece),
        ends(piece, inner),
    ensures
        ends(text, inner),
{
    let at = text.len() - piece.len();
    let from = piece.len() - inner.len();
    assert(text.skip(text.len() - inner.len()) =~= text.skip(at).skip(from));
}

/// What a text ends with, it has in it, whatever is put behind it.
pub proof fn lemma_ends_holds(text: Seq<char>, piece: Seq<char>, more: Seq<char>)
    requires
        ends(text, piece),
    ensures
        holds(text + more, piece),
{
    let at = text.len() - piece.len();
    assert((text + more).subrange(at, at + piece.len()) =~= text.skip(at));
    assert(stands_at(text + more, piece, at));
}

/// What a text has in it, it still has with more put behind it.
pub proof fn lemma_holds_on(text: Seq<char>, piece: Seq<char>, more: Seq<char>)
    requires
        holds(text, piece),
    ensures
        holds(text + more, piece),
{
    let at = choose|at: int| stands_at(text, piece, at);
    assert((text + more).subrange(at, at + piece.len()) =~= text.subrange(at, at + piece.len()));
    assert(stands_at(text + more, piece, at));
}

/// The number that decimal digits stand for, by the digits' places among the
/// characters.
pub open spec fn decimal_value(s: Seq<char>) -> int
    decreases s.len(),
{
    if s.len() == 0 {
        0
    } else {
        10 * decimal_value(s.drop_last()) + (s.last() as int - '0' as int)
    }
}

/// A number that is written out reads back, in digits alone and without a leading
/// zero.
pub proof fn decimals_read_back(n: nat)
    ensures
        decimal_value(decimal(n)) == n,
        forall|i: int| 0 <= i < decimal(n).len() ==> '0' <= #[trigger] decimal(n)[i] <= '9',
        decimal(n).len() >= 1,
        n > 0 ==> decimal(n)[0] != '0',
    decreases n,
{
    if n < 10 {
        let s = seq![digit(n)];
        assert(s.drop_last() =~= Seq::empty());
        assert(decimal_value(s.drop_last()) == 0);
    } else {
        decimals_read_back(n / 10);
        let s = decimal(n);
        assert(s.drop_last() =~= decimal(n / 10));
        assert(s.last() == digit(n % 10));
        assert(s[0] == decimal(n / 10)[0]);
        assert forall|i: int| 0 <= i < s.len() implies '0' <= #[trigger] s[i] <= '9' by {
            if i < s.len() - 1 {
                assert(s[i] == decimal(n / 10)[i]);
            }
        }
    }
}

/// Different numbers are written differently.
pub proof fn decimals_differ(a: nat, b: nat)
    requires
        decimal(a) == decimal(b),
    ensures
        a == b,
{
    decimals_read_back(a);
    decimals_read_back(b);
}

proof fn lemma_zeros_in_front(s: Seq<char>, zeros: Seq<char>)
    requires
        forall|i: int| 0 <= i < zeros.len() ==> #[trigger] zeros[i] == '0',
    ensures
        decimal_value(zeros + s) == decimal_value(s),
    decreases zeros.len() + s.len(),
{
    let t = zeros + s;
    if s.len() > 0 {
        assert(t.drop_last() =~= zeros + s.drop_last());
        lemma_zeros_in_front(s.drop_last(), zeros);
    } else if zeros.len() > 0 {
        assert(t.drop_last() =~= zeros.drop_last() + s);
        lemma_zeros_in_front(s, zeros.drop_last());
    }
}

/// A number that is filled up with zeros has the digits asked for, or more where it
/// needs them, and still reads back.
pub proof fn filled_numbers_read_back(n: nat)
    ensures
        decimal_value(two_digits(n)) == n,
        decimal_value(four_digits(n)) == n,
        two_digits(n).len() >= 2,
        four_digits(n).len() >= 4,
        n < 100 ==> two_digits(n).len() == 2,
        n < 10000 ==> four_digits(n).len() == 4,
{
    decimals_read_back(n);
    lemma_zeros_in_front(decimal(n), seq!['0']);
    lemma_zeros_in_front(decimal(n), seq!['0', '0']);
    lemma_zeros_in_front(decimal(n), seq!['0', '0', '0']);
    assert(seq!['0'] + decimal(n) =~= two_digits(n) || n >= 10);
    reveal_with_fuel(decimal, 5);
}

/// The number that hexadecimal digits stand for, by the digits' places among the
/// characters.
pub open spec fn hex_value(s: Seq<char>) -> int
    decreases s.len(),
{
    if s.len() == 0 {
        0
    } else {
        let c = s.last();
        16 * hex_value(s.drop_last()) + (if c <= '9' {
            c as int - '0' as int
        } else {
            c as int - 'a' as int + 10
        })
    }
}

/// A number in hexadecimal reads back.
pub proof fn hexadecimals_read_back(n: nat)
    ensures
        hex_value(hex(n)) == n,
    decreases n,
{
    if n < 16 {
        let s = seq![hex_digit(n)];
        assert(s.drop_last() =~= Seq::empty());
        assert(hex_value(s.drop_last()) == 0);
    } else {
        hexadecimals_read_back(n / 16);
        assert(hex(n).drop_last() =~= hex(n / 16));
        assert(hex(n).last() == hex_digit(n % 16));
    }
}

} // verus!
