use vstd::prelude::*;

use crate::text::{
    split_on,
    split_chars,
    string_of,
    views,
    lemma_split_on_len,
    lemma_split_on_none,
    lemma_split_on_append,
};

verus! {

/// A network address of a user, held as the number that the address stands
/// for: the four octets of an IPv4 address, or the eight groups of an IPv6
/// address, read in network order.
#[derive(Clone, Copy, Debug, PartialEq, Eq, Structural)]
pub enum IpAddress {
    V4(u32),
    V6(u128),
}

/// An ASCII decimal digit.
pub open spec fn is_digit(c: char) -> bool {
    48 <= (c as u32) <= 57
}

/// The number that a run of decimal digits writes.
pub open spec fn decimal_value(s: Seq<char>) -> int
    decreases s.len(),
{
    if s.len() == 0 {
        0
    } else {
        decimal_value(s.drop_last()) * 10 + ((s.last() as u32) - 48)
    }
}

/// The octet that a dotted-quad component writes: one to three decimal digits,
/// no leading zero unless the component is `0`, at most 255.
pub open spec fn octet_of(s: Seq<char>) -> Option<u8> {
    if 1 <= s.len() <= 3 && (forall|i: int| 0 <= i < s.len() ==> is_digit(#[trigger] s[i])) && !(
    s.len() > 1 && s[0] == '0') && decimal_value(s) <= 255 {
        Some(decimal_value(s) as u8)
    } else {
        None
    }
}

/// The IPv4 address that a text writes in dotted-quad form, as `std` reads an
/// `IpAddr` from a text with no `:` in it (every IPv6 text holds a `:`): four
/// components joined by `.`, each an octet as `octet_of` reads it.
pub open spec fn ipv4_parse(s: Seq<char>) -> Option<u32> {
    let parts = split_on(s, '.');
    if parts.len() == 4 && octet_of(parts[0]) is Some && octet_of(parts[1]) is Some && octet_of(
        parts[2],
    ) is Some && octet_of(parts[3]) is Some {
        Some(
            (octet_of(parts[0])->0 as int * 16777216 + octet_of(parts[1])->0 as int * 65536
                + octet_of(parts[2])->0 as int * 256 + octet_of(parts[3])->0 as int) as u32,
        )
    } else {
        None
    }
}

/// The decimal digit for a number below ten.
pub open spec fn digit_char(n: int) -> char {
    ((48 + n) as u8) as char
}

/// The decimal form of a number, with no leading zero.
pub open spec fn decimal(n: nat) -> Seq<char>
    decreases n,
{
    if n < 10 {
        seq![digit_char(n as int)]
    } else {
        decimal(n / 10).push(digit_char((n % 10) as int))
    }
}

/// The dotted-quad form of an IPv4 address, as `Ipv4Addr`'s `Display` writes it.
pub open spec fn ipv4_form(a: u32) -> Seq<char> {
    decimal(((a as int / 16777216) % 256) as nat) + seq!['.'] + decimal(
        ((a as int / 65536) % 256) as nat,
    ) + seq!['.'] + decimal(((a as int / 256) % 256) as nat) + seq!['.'] + decimal(
        (a as int % 256) as nat,
    )
}

/// The octet that the characters `s` write, if they write one.
fn parse_octet(s: &[char]) -> (r: Option<u8>)
    ensures
        r == octet_of(s@),
{
    let n = s.len();
    if n < 1 || n > 3 {
        return None;
    }
    let mut v: u32 = 0;
    for i in 0..n
        invariant
            n == s@.len() <= 3,
            v == decimal_value(s@.take(i as int)),
            v < (if i == 0 {
                1int
            } else if i == 1 {
                10int
            } else if i == 2 {
                100int
            } else {
                1000int
            }),
            forall|j: int| 0 <= j < i ==> is_digit(#[trigger] s@[j]),
    {
        let c = s[i];
        let x = c as u32;
        if x < 48 || x > 57 {
            return None;
        }
        proof {
            assert(s@.take(i + 1).drop_last() =~= s@.take(i as int));
        }
        v = v * 10 + (x - 48);
    }
    proof {
        assert(s@.take(n as int) =~= s@);
    }
    if n > 1 && s[0] == '0' {
        return None;
    }
    if v > 255 {
        return None;
    }
    Some(v as u8)
}

/// The IPv4 address that a text writes in dotted-quad form, if it writes one.
pub fn parse_ipv4(s: &[char]) -> (r: Option<u32>)
    ensures
        r == ipv4_parse(s@),
{
    let parts = split_chars(s, '.');
    proof {
        lemma_split_on_len(s@, '.');
    }
    if parts.len() != 4 {
        return None;
    }
    proof {
        assert(views(parts@)[0] == parts@[0]@);
        assert(views(parts@)[1] == parts@[1]@);
        assert(views(parts@)[2] == parts@[2]@);
        assert(views(parts@)[3] == parts@[3]@);
    }
    let a = match parse_octet(parts[0].as_slice()) {
        Some(x) => x,
        None => {
            return None;
        },
    };
    let b = match parse_octet(parts[1].as_slice()) {
        Some(x) => x,
        None => {
            return None;
        },
    };
    let c = match parse_octet(parts[2].as_slice()) {
        Some(x) => x,
        None => {
            return None;
        },
    };
    let d = match parse_octet(parts[3].as_slice()) {
        Some(x) => x,
        None => {
            return None;
        },
    };
    Some((a as u32) * 16777216 + (b as u32) * 65536 + (c as u32) * 256 + (d as u32))
}

/// The decimal form of a number below 256.
fn push_decimal(out: &mut Vec<char>, n: u8)
    ensures
        final(out)@ == old(out)@ + decimal(n as nat),
{
    if n >= 100 {
        out.push((48 + n / 100) as char);
        out.push((48 + (n / 10) % 10) as char);
        out.push((48 + n % 10) as char);
        proof {
            assert(decimal((n / 10) as nat / 10) == seq![digit_char((n / 100) as int)]);
            assert(decimal((n / 10) as nat) =~= seq![digit_char((n / 100) as int)].push(
                digit_char(((n / 10) % 10) as int),
            ));
        }
    } else if n >= 10 {
        out.push((48 + n / 10) as char);
        out.push((48 + n % 10) as char);
        proof {
            assert(decimal((n / 10) as nat) == seq![digit_char((n / 10) as int)]);
            assert(decimal(n as nat) =~= seq![digit_char((n / 10) as int)].push(
                digit_char((n % 10) as int),
            ));
        }
    } else {
        out.push((48 + n) as char);
    }
    proof {
        assert(final(out)@ =~= old(out)@ + decimal(n as nat));
    }
}

/// The dotted-quad form of an IPv4 address.
pub fn ipv4_text(a: u32) -> (r: String)
    ensures
        r@ == ipv4_form(a),
{
    let mut out: Vec<char> = Vec::new();
    push_decimal(&mut out, ((a / 16777216) % 256) as u8);
    out.push('.');
    push_decimal(&mut out, ((a / 65536) % 256) as u8);
    out.push('.');
    push_decimal(&mut out, ((a / 256) % 256) as u8);
    out.push('.');
    push_decimal(&mut out, (a % 256) as u8);
    proof {
        assert(out@ =~= ipv4_form(a));
    }
    string_of(out.as_slice())
}

/// A decimal digit character stands for its number.
pub proof fn lemma_digit_char(k: int)
    requires
        0 <= k < 10,
    ensures
        digit_char(k) as u32 == 48 + k,
        is_digit(digit_char(k)),
        digit_char(k) != '.',
        digit_char(k) == '0' <==> k == 0,
{
}

/// The decimal form of an octet is one to three digits with no leading zero,
/// holds no `.`, and writes the octet back.
pub proof fn lemma_decimal_octet(n: nat)
    requires
        n < 256,
    ensures
        1 <= decimal(n).len() <= 3,
        forall|i: int| 0 <= i < decimal(n).len() ==> is_digit(#[trigger] decimal(n)[i]),
        !(decimal(n).len() > 1 && decimal(n)[0] == '0'),
        decimal_value(decimal(n)) == n,
        !decimal(n).contains('.'),
        octet_of(decimal(n)) == Some(n as u8),
{
    let d = decimal(n);
    lemma_digit_char((n % 10) as int);
    lemma_digit_char(((n / 10) % 10) as int);
    lemma_digit_char((n / 100) as int);
    if n < 10 {
        assert(d == seq![digit_char(n as int)]);
        assert(d.drop_last() =~= Seq::<char>::empty());
        assert(decimal_value(d) == decimal_value(d.drop_last()) * 10 + ((d.last() as u32) - 48));
    } else if n < 100 {
        let hi = decimal(n / 10);
        assert(hi == seq![digit_char((n / 10) as int)]);
        assert(d =~= seq![digit_char((n / 10) as int), digit_char((n % 10) as int)]);
        assert(d.drop_last() =~= hi);
        assert(hi.drop_last() =~= Seq::<char>::empty());
        assert(decimal_value(hi.drop_last()) == 0);
        assert(hi.last() == digit_char((n / 10) as int));
        assert(decimal_value(hi) == decimal_value(hi.drop_last()) * 10 + ((hi.last() as u32) - 48));
        assert(decimal_value(hi) == n / 10);
        assert(decimal_value(d) == decimal_value(hi) * 10 + ((d.last() as u32) - 48));
    } else {
        let mid = decimal(n / 10);
        let top = decimal(n / 10 / 10);
        assert(top == seq![digit_char((n / 100) as int)]);
        assert(mid =~= seq![digit_char((n / 100) as int), digit_char(((n / 10) % 10) as int)]);
        assert(d =~= seq![
            digit_char((n / 100) as int),
            digit_char(((n / 10) % 10) as int),
            digit_char((n % 10) as int),
        ]);
        assert(d.drop_last() =~= mid);
        assert(mid.drop_last() =~= top);
        assert(top.drop_last() =~= Seq::<char>::empty());
        assert(decimal_value(top.drop_last()) == 0);
        assert(top.last() == digit_char((n / 100) as int));
        assert(decimal_value(top) == decimal_value(top.drop_last()) * 10 + ((top.last() as u32)
            - 48));
        assert(decimal_value(top) == n / 100);
        assert(decimal_value(mid) == decimal_value(top) * 10 + ((mid.last() as u32) - 48));
        assert(decimal_value(d) == decimal_value(mid) * 10 + ((d.last() as u32) - 48));
    }
    assert(!d.contains('.')) by {
        if d.contains('.') {
            let k = choose|k: int| 0 <= k < d.len() && d[k] == '.';
            assert(is_digit(d[k]));
        }
    }
}

/// Reading back the dotted-quad form of an IPv4 address gives the address.
pub proof fn law_ipv4_text_reads_back(a: u32)
    ensures
        ipv4_parse(ipv4_form(a)) == Some(a),
{
    let n0 = ((a as int / 16777216) % 256) as nat;
    let n1 = ((a as int / 65536) % 256) as nat;
    let n2 = ((a as int / 256) % 256) as nat;
    let n3 = (a as int % 256) as nat;
    lemma_decimal_octet(n0);
    lemma_decimal_octet(n1);
    lemma_decimal_octet(n2);
    lemma_decimal_octet(n3);
    let d0 = decimal(n0);
    let d1 = decimal(n1);
    let d2 = decimal(n2);
    let d3 = decimal(n3);
    let dot = seq!['.'];
    lemma_split_on_none(d0, '.');
    lemma_split_on_append(d0, d1, '.');
    lemma_split_on_append(d0 + dot + d1, d2, '.');
    lemma_split_on_append(d0 + dot + d1 + dot + d2, d3, '.');
    let parts = split_on(ipv4_form(a), '.');
    assert(parts =~= seq![d0, d1, d2, d3]);
    assert(n0 * 16777216 + n1 * 65536 + n2 * 256 + n3 == a as int) by (nonlinear_arith)
        requires
            n0 == (a as int / 16777216) % 256,
            n1 == (a as int / 65536) % 256,
            n2 == (a as int / 256) % 256,
            n3 == a as int % 256,
            0 <= a < 4294967296,
    ;
}

} // verus!
