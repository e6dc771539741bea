use vstd::prelude::*;
use vstd::string::*;

verus! {

/// The size of the unit with the given index: 1024 to the power `i`.
pub open spec fn unit_size(i: nat) -> nat
    decreases i,
{
    if i == 0 { 1 } else { 1024 * unit_size((i - 1) as nat) }
}

/// Index into B, KB, MB, GB, TB of the largest unit not above `bytes`.
pub open spec fn unit_index(bytes: nat) -> nat {
    if bytes >= unit_size(4) {
        4
    } else if bytes >= unit_size(3) {
        3
    } else if bytes >= unit_size(2) {
        2
    } else if bytes >= unit_size(1) {
        1
    } else {
        0
    }
}

pub open spec fn unit_name(i: nat) -> Seq<char> {
    if i == 0 {
        seq!['B']
    } else if i == 1 {
        seq!['K', 'B']
    } else if i == 2 {
        seq!['M', 'B']
    } else if i == 3 {
        seq!['G', 'B']
    } else {
        seq!['T', 'B']
    }
}

/// `n / d` rounded to the nearest integer, ties to the even neighbour.
pub open spec fn round_half_even(n: nat, d: nat) -> nat
    recommends
        d > 0,
{
    let q = n / d;
    let r = n % d;
    if 2 * r > d || (2 * r == d && q % 2 == 1) {
        q + 1
    } else {
        q
    }
}

/// The value shown for `bytes`, in tenths of its unit.
pub open spec fn shown_tenths(bytes: nat) -> nat {
    round_half_even(10 * bytes, unit_size(unit_index(bytes)))
}

pub open spec fn digit_char(d: nat) -> char {
    if d == 0 {
        '0'
    } else if d == 1 {
        '1'
    } else if d == 2 {
        '2'
    } else if d == 3 {
        '3'
    } else if d == 4 {
        '4'
    } else if d == 5 {
        '5'
    } else if d == 6 {
        '6'
    } else if d == 7 {
        '7'
    } else if d == 8 {
        '8'
    } else {
        '9'
    }
}

/// Decimal digits of `n`, most significant first, without leading zeros.
pub open spec fn decimal(n: nat) -> Seq<char>
    decreases n,
{
    if n < 10 {
        seq![digit_char(n)]
    } else {
        decimal(n / 10).push(digit_char(n % 10))
    }
}

/// A value of `tenths` tenths in the unit `i`, written with one fractional digit.
pub open spec fn render(tenths: nat, i: nat) -> Seq<char> {
    decimal(tenths / 10) + seq!['.', digit_char(tenths % 10), ' '] + unit_name(i)
}

/// The human-readable text for a byte count.
pub open spec fn format_bytes_spec(bytes: nat) -> Seq<char> {
    if bytes == 0 {
        seq!['0', ' ', 'B']
    } else {
        render(shown_tenths(bytes), unit_index(bytes))
    }
}

fn digit_str(d: u128) -> (r: &'static str)
    requires
        d < 10,
    ensures
        r@ == seq![digit_char(d as nat)],
{
    proof {
        reveal_strlit("0");
        reveal_strlit("1");
        reveal_strlit("2");
        reveal_strlit("3");
        reveal_strlit("4");
        reveal_strlit("5");
        reveal_strlit("6");
        reveal_strlit("7");
        reveal_strlit("8");
        reveal_strlit("9");
    }
    if d == 0 {
        "0"
    } else if d == 1 {
        "1"
    } else if d == 2 {
        "2"
    } else if d == 3 {
        "3"
    } else if d == 4 {
        "4"
    } else if d == 5 {
        "5"
    } else if d == 6 {
        "6"
    } else if d == 7 {
        "7"
    } else if d == 8 {
        "8"
    } else {
        "9"
    }
}

/// Appends the decimal digits of `n` to `s`.
pub fn push_decimal(s: &mut String, n: u128)
    ensures
        final(s)@ == old(s)@ + decimal(n as nat),
    decreases n,
{
    if n >= 10 {
        push_decimal(s, n / 10);
    }
    s.append(digit_str(n % 10));
    assert(s@ =~= old(s)@ + decimal(n as nat));
}

fn unit_str(i: usize) -> (r: &'static str)
    requires
        i <= 4,
    ensures
        r@ == unit_name(i as nat),
{
    proof {
        reveal_strlit("B");
        reveal_strlit("KB");
        reveal_strlit("MB");
        reveal_strlit("GB");
        reveal_strlit("TB");
    }
    if i == 0 {
        "B"
    } else if i == 1 {
        "KB"
    } else if i == 2 {
        "MB"
    } else if i == 3 {
        "GB"
    } else {
        "TB"
    }
}

proof fn lemma_unit_sizes()
    ensures
        unit_size(0) == 1,
        unit_size(1) == 1024,
        unit_size(2) == 1048576,
        unit_size(3) == 1073741824,
        unit_size(4) == 1099511627776,
{
    reveal_with_fuel(unit_size, 5);
}

/// Renders a byte count with the largest unit among B, KB, MB, GB and TB that
/// does not exceed it, and one fractional digit; zero is "0 B".
pub fn format_bytes(bytes: u64) -> (r: String)
    ensures
        r@ == format_bytes_spec(bytes as nat),
{
    proof {
        reveal_strlit("0 B");
        lemma_unit_sizes();
    }
    if bytes == 0 {
        let r = String::from_str("0 B");
        assert(r@ =~= seq!['0', ' ', 'B']);
        return r;
    }
    let b = bytes as u128;
    let (i, d): (usize, u128) = if b >= 1099511627776 {
        (4, 1099511627776)
    } else if b >= 1073741824 {
        (3, 1073741824)
    } else if b >= 1048576 {
        (2, 1048576)
    } else if b >= 1024 {
        (1, 1024)
    } else {
        (0, 1)
    };
    assert(i as nat == unit_index(bytes as nat) && d as nat == unit_size(i as nat));
    let n: u128 = 10 * b;
    let q: u128 = n / d;
    let rem: u128 = n % d;
    let tenths: u128 = if 2 * rem > d || (2 * rem == d && q % 2 == 1) {
        q + 1
    } else {
        q
    };
    assert(tenths as nat == shown_tenths(bytes as nat));
    let mut r = String::new();
    push_decimal(&mut r, tenths / 10);
    r.append(".");
    r.append(digit_str(tenths % 10));
    r.append(" ");
    r.append(unit_str(i));
    proof {
        reveal_strlit(".");
        reveal_strlit(" ");
        assert(r@ =~= render(tenths as nat, i as nat));
    }
    r
}

pub open spec fn digit_value(c: char) -> nat {
    if c == '1' {
        1
    } else if c == '2' {
        2
    } else if c == '3' {
        3
    } else if c == '4' {
        4
    } else if c == '5' {
        5
    } else if c == '6' {
        6
    } else if c == '7' {
        7
    } else if c == '8' {
        8
    } else if c == '9' {
        9
    } else {
        0
    }
}

/// The number that a string of decimal digits denotes.
pub open spec fn parse_decimal(s: Seq<char>) -> nat
    decreases s.len(),
{
    if s.len() == 0 {
        0
    } else {
        parse_decimal(s.drop_last()) * 10 + digit_value(s.last())
    }
}

/// Reads a formatted size back as (value in tenths of its unit, unit index).
pub open spec fn parse_size(s: Seq<char>) -> (nat, nat) {
    let (body, unit) = if s.len() >= 2 && s[s.len() - 2] == ' ' {
        (s.subrange(0, s.len() - 2), 0nat)
    } else {
        let letter = s[s.len() - 2];
        let u: nat = if letter == 'K' {
            1
        } else if letter == 'M' {
            2
        } else if letter == 'G' {
            3
        } else {
            4
        };
        (s.subrange(0, s.len() - 3), u)
    };
    if body.len() >= 2 && body[body.len() - 2] == '.' {
        (parse_decimal(body.subrange(0, body.len() - 2)) * 10 + digit_value(body.last()), unit)
    } else {
        (parse_decimal(body) * 10, unit)
    }
}

proof fn lemma_digit(d: nat)
    requires
        d < 10,
    ensures
        digit_value(digit_char(d)) == d,
        digit_char(d) != '.' && digit_char(d) != ' ',
{
}

proof fn lemma_decimal_round_trip(n: nat)
    ensures
        parse_decimal(decimal(n)) == n,
        decimal(n).len() >= 1,
        forall|k: int| 0 <= k < decimal(n).len() ==> decimal(n)[k] != '.' && decimal(n)[k] != ' ',
    decreases n,
{
    lemma_digit(n % 10);
    if n < 10 {
        assert(seq![digit_char(n)].drop_last() =~= Seq::<char>::empty());
        assert(parse_decimal(Seq::<char>::empty()) == 0);
    } else {
        lemma_decimal_round_trip(n / 10);
        assert(decimal(n).drop_last() =~= decimal(n / 10));
    }
}

/// A formatted size reads back to the byte count: the text parses to the value
/// shown, in tenths of the chosen unit, and that value lies within half a tenth
/// of a unit of the exact count. Zero reads back as zero.
pub proof fn lemma_format_reads_back(bytes: nat)
    ensures
        bytes == 0 ==> parse_size(format_bytes_spec(bytes)) == (0nat, 0nat),
        bytes > 0 ==> parse_size(format_bytes_spec(bytes)) == (shown_tenths(bytes), unit_index(bytes)),
        bytes > 0 ==> ({
            let d = unit_size(unit_index(bytes)) as int;
            let t = shown_tenths(bytes) as int;
            &&& 2 * (t * d - 10 * bytes) <= d
            &&& 2 * (10 * bytes - t * d) <= d
        }),
{
    lemma_unit_sizes();
    if bytes == 0 {
        let s = seq!['0', ' ', 'B'];
        assert(s.len() == 3 && s[1] == ' ');
        assert(s.subrange(0, 1) =~= seq!['0']);
        assert(seq!['0'].drop_last() =~= Seq::<char>::empty());
        assert(parse_decimal(Seq::<char>::empty()) == 0);
        assert(parse_decimal(seq!['0']) == 0);
    } else {
        let i = unit_index(bytes);
        let t = shown_tenths(bytes);
        let s = render(t, i);
        let num = decimal(t / 10);
        lemma_decimal_round_trip(t / 10);
        let body = num + seq!['.', digit_char(t % 10)];
        assert(s =~= body + seq![' '] + unit_name(i));
        if i == 0 {
            assert(s.subrange(0, s.len() - 2) =~= body);
        } else {
            assert(s.subrange(0, s.len() - 3) =~= body);
            assert(s[s.len() - 2] != ' ');
        }
        assert(body.subrange(0, body.len() - 2) =~= num);
        lemma_digit(t % 10);
        let d = unit_size(i);
        let n = 10 * bytes;
        let q = n / d;
        let r = n % d;
        assert(d > 0);
        assert(n == q * d + r && r < d) by (nonlinear_arith)
            requires
                d > 0,
                q == n / d,
                r == n % d,
        ;
        if 2 * r > d || (2 * r == d && q % 2 == 1) {
            assert(t == q + 1);
            assert((t as int) * (d as int) == (q as int) * (d as int) + d) by (nonlinear_arith)
                requires
                    t == q + 1,
            ;
        } else {
            assert(t == q);
        }
    }
}

} // verus!
