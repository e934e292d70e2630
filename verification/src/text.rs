//! Decimal numbers and dotted addresses as text.

use vstd::prelude::*;

verus! {

/// The decimal digit of a value below 10.
pub open spec fn digit(v: nat) -> char {
    ('0' as nat + v) as char
}

/// The decimal text of a number.
pub open spec fn dec(n: nat) -> Seq<char>
    decreases n,
{
    if n < 10 {
        seq![digit(n)]
    } else {
        dec(n / 10).push(digit(n % 10))
    }
}

/// The dotted text of an IPv4 address.
pub open spec fn dotted(ip: u32) -> Seq<char> {
    dec(ip as nat / 0x100_0000) + seq!['.'] + dec(ip as nat / 0x1_0000 % 256) + seq!['.'] + dec(
        ip as nat / 0x100 % 256,
    ) + seq!['.'] + dec(ip as nat % 256)
}

/// Whether every character is a decimal digit.
pub open spec fn all_digits(s: Seq<char>) -> bool {
    forall|i: int| 0 <= i < s.len() ==> '0' <= #[trigger] s[i] <= '9'
}

/// The number that a text of decimal digits stands for.
pub open spec fn digits_value(s: Seq<char>) -> nat
    decreases s.len(),
{
    if s.len() == 0 {
        0
    } else {
        digits_value(s.drop_last()) * 10 + (s.last() as nat - '0' as nat) as nat
    }
}

/// The characters of a text.
pub fn chars_of(s: &str) -> (chars: Vec<char>)
    ensures
        chars@ == s@,
{
    let mut chars: Vec<char> = Vec::new();
    for c in it: s.chars()
        invariant
            it.seq() == s@,
            chars@ == it.seq().take(it.index()),
    {
        chars.push(c);
    }
    chars
}

/// Whether two texts are equal.
pub fn same_text(a: &str, b: &str) -> (same: bool)
    ensures
        same == (a@ == b@),
{
    let a_chars = chars_of(a);
    let b_chars = chars_of(b);
    if a_chars.len() != b_chars.len() {
        return false;
    }
    let mut i: usize = 0;
    while i < a_chars.len()
        invariant
            i <= a_chars@.len() == b_chars@.len(),
            a_chars@ == a@,
            b_chars@ == b@,
            forall|j: int| 0 <= j < i ==> a@[j] == b@[j],
        decreases a_chars@.len() - i,
    {
        if a_chars[i] != b_chars[i] {
            return false;
        }
        i += 1;
    }
    assert(a@ =~= b@);
    true
}

fn digit_text(d: u128) -> (s: &'static str)
    requires
        d < 10,
    ensures
        s@ == seq![digit(d as nat)],
{
    proof {
        reveal_strlit("0");
        reveal_strlit("1");
        reveal_strlit("2");
        reveal_strlit("3");
        reveal_strlit("4");
        reveal_strlit("5");
        reveal_strlit("6");
        reveal_strlit("7");
        reveal_strlit("8");
        reveal_strlit("9");
    }
    let s = if d == 0 {
        "0"
    } else if d == 1 {
        "1"
    } else if d == 2 {
        "2"
    } else if d == 3 {
        "3"
    } else if d == 4 {
        "4"
    } else if d == 5 {
        "5"
    } else if d == 6 {
        "6"
    } else if d == 7 {
        "7"
    } else if d == 8 {
        "8"
    } else {
        "9"
    };
    assert(s@ =~= seq![digit(d as nat)]);
    s
}

/// Appends the decimal text of a number.
pub fn push_dec(out: &mut String, n: u128)
    ensures
        final(out)@ == old(out)@ + dec(n as nat),
    decreases n,
{
    if n >= 10 {
        push_dec(out, n / 10);
    }
    out.append(digit_text(n % 10));
    assert(out@ =~= old(out)@ + dec(n as nat));
}

/// The decimal text of a number.
pub fn dec_text(n: u128) -> (text: String)
    ensures
        text@ == dec(n as nat),
{
    let mut text = String::new();
    push_dec(&mut text, n);
    assert(text@ =~= dec(n as nat));
    text
}

/// Appends the dotted text of an IPv4 address.
pub fn push_dotted(out: &mut String, ip: u32)
    ensures
        final(out)@ == old(out)@ + dotted(ip),
{
    proof {
        reveal_strlit(".");
    }
    push_dec(out, (ip / 0x100_0000) as u128);
    out.append(".");
    push_dec(out, (ip / 0x1_0000 % 256) as u128);
    out.append(".");
    push_dec(out, (ip / 0x100 % 256) as u128);
    out.append(".");
    push_dec(out, (ip % 256) as u128);
    assert(out@ =~= old(out)@ + dotted(ip));
}

/// One step of reading an address: what lies left of the last dot as one
/// number, and what lies right of it.
spec fn dotted_step(state: (nat, nat), c: char) -> (nat, nat) {
    if c == '.' {
        ((state.0 * 256 + state.1) % 0x1_0000_0000, 0)
    } else {
        (
            state.0,
            (state.1 * 10 + if '0' <= c <= '9' {
                (c as nat - '0' as nat) as nat
            } else {
                0
            }) % 0x1_0000_0000,
        )
    }
}

/// What reading a text as an address gives, whether it is one or not.
spec fn dotted_fold(s: Seq<char>) -> (nat, nat)
    decreases s.len(),
{
    if s.len() == 0 {
        (0, 0)
    } else {
        dotted_step(dotted_fold(s.drop_last()), s.last())
    }
}

proof fn lemma_fold_dec(s: Seq<char>, n: nat)
    requires
        n < 256,
        dotted_fold(s).1 == 0,
    ensures
        dotted_fold(s + dec(n)) == (dotted_fold(s).0, n),
    decreases n,
{
    let whole = s + dec(n);
    if n < 10 {
        assert(whole.drop_last() =~= s);
    } else {
        lemma_fold_dec(s, n / 10);
        assert(whole.drop_last() =~= s + dec(n / 10));
    }
}

proof fn lemma_fold_dot(s: Seq<char>)
    ensures
        dotted_fold(s + seq!['.']) == (
            (dotted_fold(s).0 * 256 + dotted_fold(s).1) % 0x1_0000_0000,
            0nat,
        ),
{
    assert((s + seq!['.']).drop_last() =~= s);
}

/// An address is the number of its four octets.
proof fn lemma_octets(ip: nat)
    requires
        ip < 0x1_0000_0000,
    ensures
        ip / 0x100_0000 < 256,
        ip / 0x100_0000 * 256 + ip / 0x1_0000 % 256 == ip / 0x1_0000,
        ip / 0x1_0000 * 256 + ip / 0x100 % 256 == ip / 0x100,
        ip / 0x100 * 256 + ip % 256 == ip,
{
    assert(ip / 0x100_0000 == (ip / 0x1_0000) / 256);
    assert(ip / 0x1_0000 == (ip / 0x100) / 256);
}

/// Reading a number and a dot behind what has been read.
proof fn lemma_fold_octet(s: Seq<char>, n: nat)
    requires
        n < 256,
        dotted_fold(s).1 == 0,
        dotted_fold(s).0 * 256 + n < 0x1_0000_0000,
    ensures
        dotted_fold(s + dec(n) + seq!['.']) == (dotted_fold(s).0 * 256 + n, 0nat),
{
    lemma_fold_dec(s, n);
    lemma_fold_dot(s + dec(n));
}

proof fn lemma_fold_dotted(ip: u32)
    ensures
        dotted_fold(dotted(ip)).0 * 256 + dotted_fold(dotted(ip)).1 == ip,
{
    let v = ip as nat;
    lemma_octets(v);
    let s0 = Seq::<char>::empty();
    let s1 = s0 + dec(v / 0x100_0000) + seq!['.'];
    let s2 = s1 + dec(v / 0x1_0000 % 256) + seq!['.'];
    let s3 = s2 + dec(v / 0x100 % 256) + seq!['.'];
    lemma_fold_octet(s0, v / 0x100_0000);
    lemma_fold_octet(s1, v / 0x1_0000 % 256);
    assert(dotted_fold(s2).0 == v / 0x1_0000);
    lemma_fold_octet(s2, v / 0x100 % 256);
    assert(dotted_fold(s3).0 == v / 0x100);
    lemma_fold_dec(s3, v % 256);
    assert(s3 + dec(v % 256) =~= dotted(ip)) by {
        assert(s0 + dec(v / 0x100_0000) =~= dec(v / 0x100_0000));
    }
}

/// An address is determined by its text.
pub proof fn dotted_is_injective(a: u32, b: u32)
    requires
        dotted(a) == dotted(b),
    ensures
        a == b,
{
    lemma_fold_dotted(a);
    lemma_fold_dotted(b);
}

proof fn lemma_dec_chars(n: nat, c: char)
    requires
        dec(n).contains(c),
    ensures
        '0' <= c <= '9',
    decreases n,
{
    if n >= 10 {
        let i = choose|i: int| 0 <= i < dec(n).len() && dec(n)[i] == c;
        if i < dec(n / 10).len() {
            assert(dec(n / 10)[i] == c);
            lemma_dec_chars(n / 10, c);
        }
    }
}

/// The text of an address holds digits and dots alone.
pub proof fn lemma_dotted_chars(ip: u32, i: int)
    requires
        0 <= i < dotted(ip).len(),
    ensures
        dotted(ip)[i] == '.' || '0' <= dotted(ip)[i] <= '9',
{
    let a = dec(ip as nat / 0x100_0000);
    let b = dec(ip as nat / 0x1_0000 % 256);
    let c = dec(ip as nat / 0x100 % 256);
    let d = dec(ip as nat % 256);
    let ch = dotted(ip)[i];
    if i < a.len() {
        assert(a[i] == ch);
        lemma_dec_chars(ip as nat / 0x100_0000, ch);
    } else if a.len() < i <= a.len() + b.len() {
        assert(b[i - a.len() - 1] == ch);
        lemma_dec_chars(ip as nat / 0x1_0000 % 256, ch);
    } else if a.len() + b.len() + 1 < i <= a.len() + b.len() + 1 + c.len() {
        assert(c[i - a.len() - b.len() - 2] == ch);
        lemma_dec_chars(ip as nat / 0x100 % 256, ch);
    } else if i > a.len() + b.len() + c.len() + 2 {
        assert(d[i - a.len() - b.len() - c.len() - 3] == ch);
        lemma_dec_chars(ip as nat % 256, ch);
    }
}

/// Reads an IPv4 address: four decimal numbers below 256 without leading zeros,
/// with dots between them.
pub fn parse_ipv4(s: &str) -> (r: Option<u32>)
    ensures
        match r {
            Some(ip) => s@ == dotted(ip),
            None => forall|ip: u32| s@ != #[trigger] dotted(ip),
        },
{
    let chars = chars_of(s);
    let mut left: u64 = 0;
    let mut right: u64 = 0;
    let mut i: usize = 0;
    while i < chars.len()
        invariant
            i <= chars@.len(),
            left < 0x1_0000_0000,
            right < 0x1_0000_0000,
            dotted_fold(chars@.take(i as int)) == (left as nat, right as nat),
        decreases chars@.len() - i,
    {
        let c: char = chars[i];
        assert(chars@.take(i + 1).drop_last() =~= chars@.take(i as int));
        if c == '.' {
            left = (left * 256 + right) % 0x1_0000_0000;
            right = 0;
        } else {
            let d: u64 = if '0' <= c && c <= '9' {
                c as u64 - '0' as u64
            } else {
                0
            };
            right = (right * 10 + d) % 0x1_0000_0000;
        }
        i += 1;
    }
    assert(chars@.take(i as int) =~= s@);
    let ip: u32 = ((left * 256 + right) % 0x1_0000_0000) as u32;
    let mut canonical = String::new();
    push_dotted(&mut canonical, ip);
    assert(canonical@ =~= dotted(ip));
    if same_text(s, canonical.as_str()) {
        Some(ip)
    } else {
        proof {
            assert forall|other: u32| s@ != #[trigger] dotted(other) by {
                lemma_fold_dotted(other);
            }
        }
        None
    }
}

/// A number below ten is written as one digit, by its place after '0'; any other
/// as what it is by tens, and its last digit behind it.
pub proof fn decimal_is_written_by_tens(n: nat)
    ensures
        n < 10 ==> dec(n).len() == 1 && dec(n)[0] as nat == 48 + n,
        n >= 10 ==> dec(n) == dec(n / 10) + dec(n % 10),
{
    if n >= 10 {
        assert(dec(n) =~= dec(n / 10) + dec(n % 10));
    }
}

/// The decimal text of a number is digits alone, without a leading zero, and
/// reads as the number.
pub proof fn decimal_is_read_back(n: nat)
    ensures
        dec(n).len() >= 1,
        all_digits(dec(n)),
        digits_value(dec(n)) == n,
        n > 0 ==> dec(n)[0] != '0',
    decreases n,
{
    if n < 10 {
        assert(dec(n).drop_last() =~= Seq::<char>::empty());
        reveal_with_fuel(digits_value, 2);
    } else {
        decimal_is_read_back(n / 10);
        assert(dec(n).drop_last() =~= dec(n / 10));
        assert forall|i: int| 0 <= i < dec(n).len() implies '0' <= #[trigger] dec(n)[i] <= '9' by {
            if i < dec(n / 10).len() {
                assert(dec(n / 10)[i] == dec(n)[i]);
            }
        }
        assert(dec(n)[0] == dec(n / 10)[0]);
    }
}

/// Leading zeros do not count.
pub proof fn leading_zeros_are_nothing(s: Seq<char>)
    ensures
        digits_value(seq!['0'] + s) == digits_value(s),
        all_digits(seq!['0'] + s) == all_digits(s),
    decreases s.len(),
{
    let whole = seq!['0'] + s;
    if s.len() == 0 {
        assert(whole.drop_last() =~= Seq::<char>::empty());
        reveal_with_fuel(digits_value, 2);
    } else {
        leading_zeros_are_nothing(s.drop_last());
        assert(whole.drop_last() =~= seq!['0'] + s.drop_last());
    }
    assert(forall|i: int| 0 <= i < s.len() ==> whole[i + 1] == s[i]);
    if all_digits(whole) {
        assert forall|i: int| 0 <= i < s.len() implies '0' <= #[trigger] s[i] <= '9' by {
            assert('0' <= whole[i + 1] <= '9');
        }
    }
}

/// The text of an address is its four octets in decimal, the first one first,
/// with dots between them.
pub proof fn dotted_names_the_octets(a: u8, b: u8, c: u8, d: u8)
    ensures
        dotted((a * 0x100_0000 + b * 0x1_0000 + c * 0x100 + d) as u32) == dec(a as nat) + seq!['.']
            + dec(b as nat) + seq!['.'] + dec(c as nat) + seq!['.'] + dec(d as nat),
{
    let v = (a * 0x100_0000 + b * 0x1_0000 + c * 0x100 + d) as nat;
    let ip = v as u32;
    assert(v < 0x1_0000_0000);
    lemma_split(v, (a * 0x1_0000 + b * 0x100 + c) as nat, d as nat);
    lemma_split(v / 0x100, (a * 0x100 + b) as nat, c as nat);
    lemma_split(v / 0x100 / 0x100, a as nat, b as nat);
    assert(v / 0x1_0000 == v / 0x100 / 0x100);
    assert(v / 0x100_0000 == v / 0x100 / 0x100 / 0x100);
    assert(ip as nat == v);
}

proof fn lemma_split(v: nat, high: nat, low: nat)
    requires
        v == high * 0x100 + low,
        low < 0x100,
    ensures
        v / 0x100 == high,
        v % 0x100 == low,
{
}

} // verus!
