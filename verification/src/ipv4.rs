//! Dotted-decimal IPv4 addresses: four decimal numbers from 0 to 255, without
//! leading zeros, with a dot between them.

use vstd::prelude::*;

verus! {

/// Whether `byte` is an ASCII decimal digit.
pub open spec fn is_digit(byte: u8) -> bool {
    0x30 <= byte <= 0x39
}

/// The ASCII decimal digits of `n`, without leading zeros.
pub open spec fn decimal(n: nat) -> Seq<u8>
    decreases n,
{
    if n < 10 {
        seq![(0x30 + n) as u8]
    } else {
        decimal(n / 10).push((0x30 + n % 10) as u8)
    }
}

/// The number that a sequence of ASCII decimal digits denotes.
pub open spec fn digits_value(digits: Seq<u8>) -> nat
    decreases digits.len(),
{
    if digits.len() == 0 {
        0
    } else {
        10 * digits_value(digits.drop_last()) + (digits.last() - 0x30) as nat
    }
}

/// The text of an IPv4 address: its four octets in decimal, with a dot
/// between them.
pub open spec fn dotted_quad(a: u8, b: u8, c: u8, d: u8) -> Seq<u8> {
    decimal(a as nat) + seq![0x2eu8] + decimal(b as nat) + seq![0x2eu8] + decimal(c as nat)
        + seq![0x2eu8] + decimal(d as nat)
}

/// The four octets of the IPv4 address that `text` is the dotted-decimal form
/// of, if it is one.
pub open spec fn ipv4_octets(text: Seq<u8>) -> Option<Seq<u8>> {
    if exists|a: u8, b: u8, c: u8, d: u8| text == dotted_quad(a, b, c, d) {
        let (a, b, c, d) = choose|a: u8, b: u8, c: u8, d: u8| text == dotted_quad(a, b, c, d);
        Some(seq![a, b, c, d])
    } else {
        None
    }
}

/// The 16 bytes of the IPv6 address that stands for an IPv4 address: ten
/// zero bytes, two bytes `ff`, then the four octets.
pub open spec fn ipv4_mapped(octets: Seq<u8>) -> Seq<u8> {
    Seq::new(10, |i: int| 0u8) + seq![0xffu8, 0xffu8] + octets
}

/// Whether the text holds, from `start` up to `end`, the decimal form of
/// `value`, and no digit follows it.
pub open spec fn octet_at(text: Seq<u8>, start: int, value: u8, end: int) -> bool {
    &&& 0 <= start <= end <= text.len()
    &&& text.subrange(start, end) == decimal(value as nat)
    &&& (end == text.len() || !is_digit(text[end]))
}

/// The decimal form of a number is made of digits, starts with a zero only
/// where the number is zero, is longer than one digit exactly from 10 on and
/// than three from 1000 on, and denotes the number.
pub proof fn lemma_decimal(n: nat)
    ensures
        decimal(n).len() >= 1,
        forall|i: int| 0 <= i < decimal(n).len() ==> is_digit(#[trigger] decimal(n)[i]),
        n >= 1 ==> decimal(n)[0] != 0x30,
        n >= 10 <==> decimal(n).len() > 1,
        n < 100 ==> decimal(n).len() <= 2,
        n < 1000 ==> decimal(n).len() <= 3,
        digits_value(decimal(n)) == n,
    decreases n,
{
    if n < 10 {
        assert(decimal(n).drop_last() =~= Seq::<u8>::empty());
        assert(digits_value(Seq::<u8>::empty()) == 0);
    } else {
        lemma_decimal(n / 10);
        let head = decimal(n / 10);
        let last = (0x30 + n % 10) as u8;
        assert(head.push(last).drop_last() =~= head);
        assert(head.push(last).last() == last);
        assert(digits_value(head.push(last)) == 10 * digits_value(head) + (last - 0x30) as nat);
    }
}

/// Digits that start with a zero only where they are a single zero are the
/// decimal form of the number that they denote.
pub proof fn lemma_decimal_of_digits(digits: Seq<u8>)
    requires
        digits.len() >= 1,
        forall|i: int| 0 <= i < digits.len() ==> is_digit(#[trigger] digits[i]),
        digits.len() > 1 ==> digits[0] != 0x30,
    ensures
        decimal(digits_value(digits)) == digits,
        digits.len() > 1 ==> digits_value(digits) >= 10,
        digits[0] != 0x30 ==> digits_value(digits) >= 1,
    decreases digits.len(),
{
    if digits.len() == 1 {
        assert(digits.drop_last() =~= Seq::<u8>::empty());
        assert(digits_value(digits.drop_last()) == 0);
        assert(decimal(digits_value(digits)) =~= digits);
    } else {
        let head = digits.drop_last();
        assert(head[0] == digits[0]);
        lemma_decimal_of_digits(head);
        assert(head.push(digits.last()) =~= digits);
    }
}

/// At one place of a text at most one octet can stand, and it ends at one
/// place only.
pub proof fn lemma_octet_unique(
    text: Seq<u8>,
    start: int,
    value1: u8,
    end1: int,
    value2: u8,
    end2: int,
)
    requires
        octet_at(text, start, value1, end1),
        octet_at(text, start, value2, end2),
    ensures
        value1 == value2,
        end1 == end2,
{
    lemma_decimal(value1 as nat);
    lemma_decimal(value2 as nat);
    let first = text.subrange(start, end1);
    let second = text.subrange(start, end2);
    if end1 < end2 {
        assert(second[end1 - start] == text[end1]);
    }
    if end2 < end1 {
        assert(first[end2 - start] == text[end2]);
    }
}

/// Where a text is a dotted quad, its four octets stand at the places that
/// their lengths give, each followed by a dot or by the end of the text.
pub proof fn lemma_dotted_quad_octets(a: u8, b: u8, c: u8, d: u8)
    ensures
        ({
            let text = dotted_quad(a, b, c, d);
            let end_a = decimal(a as nat).len() as int;
            let end_b = end_a + 1 + decimal(b as nat).len();
            let end_c = end_b + 1 + decimal(c as nat).len();
            let end_d = end_c + 1 + decimal(d as nat).len();
            &&& text.len() == end_d
            &&& octet_at(text, 0, a, end_a)
            &&& text[end_a] == 0x2e
            &&& octet_at(text, end_a + 1, b, end_b)
            &&& text[end_b] == 0x2e
            &&& octet_at(text, end_b + 1, c, end_c)
            &&& text[end_c] == 0x2e
            &&& octet_at(text, end_c + 1, d, end_d)
        }),
{
    let text = dotted_quad(a, b, c, d);
    let end_a = decimal(a as nat).len() as int;
    let end_b = end_a + 1 + decimal(b as nat).len();
    let end_c = end_b + 1 + decimal(c as nat).len();
    let end_d = end_c + 1 + decimal(d as nat).len();
    lemma_decimal(a as nat);
    lemma_decimal(b as nat);
    lemma_decimal(c as nat);
    lemma_decimal(d as nat);
    assert(text.subrange(0, end_a) =~= decimal(a as nat));
    assert(text.subrange(end_a + 1, end_b) =~= decimal(b as nat));
    assert(text.subrange(end_b + 1, end_c) =~= decimal(c as nat));
    assert(text.subrange(end_c + 1, end_d) =~= decimal(d as nat));
}

/// One text is the dotted-decimal form of one address only.
pub proof fn lemma_dotted_quad_injective(
    a1: u8,
    b1: u8,
    c1: u8,
    d1: u8,
    a2: u8,
    b2: u8,
    c2: u8,
    d2: u8,
)
    requires
        dotted_quad(a1, b1, c1, d1) == dotted_quad(a2, b2, c2, d2),
    ensures
        a1 == a2,
        b1 == b2,
        c1 == c2,
        d1 == d2,
{
    let text = dotted_quad(a1, b1, c1, d1);
    lemma_dotted_quad_octets(a1, b1, c1, d1);
    lemma_dotted_quad_octets(a2, b2, c2, d2);
    let e1 = decimal(a1 as nat).len() as int;
    let e2 = decimal(a2 as nat).len() as int;
    lemma_octet_unique(text, 0, a1, e1, a2, e2);
    let f1 = e1 + 1 + decimal(b1 as nat).len();
    let f2 = e2 + 1 + decimal(b2 as nat).len();
    lemma_octet_unique(text, e1 + 1, b1, f1, b2, f2);
    let g1 = f1 + 1 + decimal(c1 as nat).len();
    let g2 = f2 + 1 + decimal(c2 as nat).len();
    lemma_octet_unique(text, f1 + 1, c1, g1, c2, g2);
    let h1 = g1 + 1 + decimal(d1 as nat).len();
    let h2 = g2 + 1 + decimal(d2 as nat).len();
    lemma_octet_unique(text, g1 + 1, d1, h1, d2, h2);
}

/// Whether the octet `value` stands right behind the place `dot`.
pub open spec fn follows_dot(text: Seq<u8>, dot: int, value: u8) -> bool {
    let start = dot + 1;
    exists|end: int| octet_at(text, start, value, end)
}

/// Where a text is a dotted quad and its first `known` octets were found at
/// their places, they are the octets of the quad, a dot follows each of the
/// first three, the next octet stands behind that dot, and the fourth ends
/// the text.
proof fn lemma_prefix_agrees(
    text: Seq<u8>,
    quad: (u8, u8, u8, u8),
    known: int,
    a: u8,
    end_a: int,
    b: u8,
    end_b: int,
    c: u8,
    end_c: int,
    d: u8,
    end_d: int,
)
    requires
        text == dotted_quad(quad.0, quad.1, quad.2, quad.3),
        0 <= known <= 4,
        known >= 1 ==> octet_at(text, 0, a, end_a),
        known >= 2 ==> octet_at(text, end_a + 1, b, end_b),
        known >= 3 ==> octet_at(text, end_b + 1, c, end_c),
        known >= 4 ==> octet_at(text, end_c + 1, d, end_d),
    ensures
        exists|end: int| octet_at(text, 0, quad.0, end),
        known >= 1 ==> a == quad.0 && end_a < text.len() && text[end_a] == 0x2e
            && follows_dot(text, end_a, quad.1),
        known >= 2 ==> b == quad.1 && end_b < text.len() && text[end_b] == 0x2e
            && follows_dot(text, end_b, quad.2),
        known >= 3 ==> c == quad.2 && end_c < text.len() && text[end_c] == 0x2e
            && follows_dot(text, end_c, quad.3),
        known >= 4 ==> d == quad.3 && end_d == text.len(),
{
    lemma_dotted_quad_octets(quad.0, quad.1, quad.2, quad.3);
    let e_a = decimal(quad.0 as nat).len() as int;
    let e_b = e_a + 1 + decimal(quad.1 as nat).len();
    let e_c = e_b + 1 + decimal(quad.2 as nat).len();
    let e_d = e_c + 1 + decimal(quad.3 as nat).len();
    assert(octet_at(text, 0, quad.0, e_a));
    if known >= 1 {
        lemma_octet_unique(text, 0, a, end_a, quad.0, e_a);
        assert(octet_at(text, end_a + 1, quad.1, e_b));
    }
    if known >= 2 {
        lemma_octet_unique(text, end_a + 1, b, end_b, quad.1, e_b);
        assert(octet_at(text, end_b + 1, quad.2, e_c));
    }
    if known >= 3 {
        lemma_octet_unique(text, end_b + 1, c, end_c, quad.2, e_c);
        assert(octet_at(text, end_c + 1, quad.3, e_d));
    }
    if known >= 4 {
        lemma_octet_unique(text, end_c + 1, d, end_d, quad.3, e_d);
    }
}

/// Whether no octet stands at the place `start` of a text.
pub open spec fn no_octet_at(text: Seq<u8>, start: int) -> bool {
    forall|value: u8, end: int| !octet_at(text, start, value, end)
}

/// Whether the text does not go on, at the place `dot`, with a dot and an
/// octet behind it.
pub open spec fn no_next_octet(text: Seq<u8>, dot: int) -> bool {
    ||| dot >= text.len()
    ||| text[dot] != 0x2e
    ||| no_octet_at(text, dot + 1)
}

/// Whether reading a text as a dotted quad is stuck after `known` octets:
/// the next octet is not there, or no dot follows the last one found, or the
/// text goes on after the fourth.
pub open spec fn stuck(
    text: Seq<u8>,
    known: int,
    end_a: int,
    end_b: int,
    end_c: int,
    end_d: int,
) -> bool {
    if known == 0 {
        no_octet_at(text, 0)
    } else if known == 1 {
        no_next_octet(text, end_a)
    } else if known == 2 {
        no_next_octet(text, end_b)
    } else if known == 3 {
        no_next_octet(text, end_c)
    } else {
        end_d != text.len()
    }
}

/// A text whose first `known` octets were found at their places, and where
/// reading is stuck after them, is the dotted-decimal form of no address.
proof fn lemma_not_dotted_quad(
    text: Seq<u8>,
    known: int,
    a: u8,
    end_a: int,
    b: u8,
    end_b: int,
    c: u8,
    end_c: int,
    d: u8,
    end_d: int,
)
    requires
        0 <= known <= 4,
        known >= 1 ==> octet_at(text, 0, a, end_a),
        known >= 2 ==> octet_at(text, end_a + 1, b, end_b),
        known >= 3 ==> octet_at(text, end_b + 1, c, end_c),
        known >= 4 ==> octet_at(text, end_c + 1, d, end_d),
        stuck(text, known, end_a, end_b, end_c, end_d),
    ensures
        ipv4_octets(text) is None,
{
    assert forall|a2: u8, b2: u8, c2: u8, d2: u8| text != dotted_quad(a2, b2, c2, d2) by {
        if text == dotted_quad(a2, b2, c2, d2) {
            lemma_prefix_agrees(
                text,
                (a2, b2, c2, d2),
                known,
                a,
                end_a,
                b,
                end_b,
                c,
                end_c,
                d,
                end_d,
            );
        }
    }
}

/// Reads the octet that stands at `start`: the digits from there on, as far
/// as they go. They must be one to three digits, without a leading zero
/// before another digit, and denote a number up to 255.
fn read_octet(text: &[u8], start: usize) -> (r: Option<(u8, usize)>)
    requires
        start <= text@.len(),
    ensures
        match r {
            Some((value, end)) => octet_at(text@, start as int, value, end as int),
            None => forall|value: u8, end: int| !octet_at(text@, start as int, value, end),
        },
{
    let len: usize = text.len();
    let mut end: usize = start;
    let mut number: u32 = 0;
    while end < len && end - start < 4 && 0x30 <= text[end] && text[end] <= 0x39
        invariant
            start <= end <= len == text@.len(),
            end - start <= 4,
            forall|i: int| start <= i < end ==> is_digit(#[trigger] text@[i]),
            number == digits_value(text@.subrange(start as int, end as int)),
            end - start == 0 ==> number == 0,
            end - start == 1 ==> number <= 9,
            end - start == 2 ==> number <= 99,
            end - start == 3 ==> number <= 999,
            end - start == 4 ==> number <= 9999,
        decreases len - end,
    {
        proof {
            assert(text@.subrange(start as int, end + 1).drop_last() =~= text@.subrange(
                start as int,
                end as int,
            ));
        }
        number = number * 10 + (text[end] - 0x30) as u32;
        end += 1;
    }
    let digits: usize = end - start;
    let ghost run = text@.subrange(start as int, end as int);
    if digits == 0 || digits > 3 || (digits > 1 && text[start] == 0x30) || number > 255 {
        proof {
            assert forall|value: u8, stop: int| !octet_at(text@, start as int, value, stop) by {
                if octet_at(text@, start as int, value, stop) {
                    let form = text@.subrange(start as int, stop);
                    lemma_decimal(value as nat);
                    if stop < end {
                        assert(is_digit(text@[stop]));
                    } else if stop > end {
                        assert(form[end - start] == text@[end as int]);
                        assert(is_digit(form[end - start]));
                        assert(digits == 4);
                    } else {
                        assert(form == run);
                        assert(run[0] == text@[start as int]);
                    }
                }
            }
        }
        return None;
    }
    proof {
        assert(run[0] == text@[start as int]);
        assert forall|i: int| 0 <= i < run.len() implies is_digit(#[trigger] run[i]) by {
            assert(run[i] == text@[start + i]);
        }
        lemma_decimal_of_digits(run);
    }
    Some((number as u8, end))
}

/// Reads the dot at the place `dot` and the octet behind it.
fn read_next_octet(text: &[u8], dot: usize) -> (r: Option<(u8, usize)>)
    requires
        dot <= text@.len(),
    ensures
        match r {
            Some((value, end)) => dot < text@.len() && text@[dot as int] == 0x2e && octet_at(
                text@,
                dot + 1,
                value,
                end as int,
            ),
            None => no_next_octet(text@, dot as int),
        },
{
    if dot >= text.len() || text[dot] != 0x2e {
        return None;
    }
    read_octet(text, dot + 1)
}

/// Reads a dotted-decimal IPv4 address: the four octets where `text` is the
/// dotted-decimal form of an address, nothing where it is not.
pub fn parse_ipv4(text: &[u8]) -> (r: Option<[u8; 4]>)
    ensures
        match r {
            Some(octets) => ipv4_octets(text@) == Some(octets@),
            None => ipv4_octets(text@) is None,
        },
{
    let (a, end_a) = match read_octet(text, 0) {
        Some(found) => found,
        None => {
            proof {
                lemma_not_dotted_quad(text@, 0, 0, 0, 0, 0, 0, 0, 0, 0);
            }
            return None;
        },
    };
    let (b, end_b) = match read_next_octet(text, end_a) {
        Some(found) => found,
        None => {
            proof {
                lemma_not_dotted_quad(text@, 1, a, end_a as int, 0, 0, 0, 0, 0, 0);
            }
            return None;
        },
    };
    let (c, end_c) = match read_next_octet(text, end_b) {
        Some(found) => found,
        None => {
            proof {
                lemma_not_dotted_quad(text@, 2, a, end_a as int, b, end_b as int, 0, 0, 0, 0);
            }
            return None;
        },
    };
    let (d, end_d) = match read_next_octet(text, end_c) {
        Some(found) => found,
        None => {
            proof {
                lemma_not_dotted_quad(
                    text@,
                    3,
                    a,
                    end_a as int,
                    b,
                    end_b as int,
                    c,
                    end_c as int,
                    0,
                    0,
                );
            }
            return None;
        },
    };
    if end_d != text.len() {
        proof {
            lemma_not_dotted_quad(
                text@,
                4,
                a,
                end_a as int,
                b,
                end_b as int,
                c,
                end_c as int,
                d,
                end_d as int,
            );
        }
        return None;
    }
    let octets: [u8; 4] = [a, b, c, d];
    proof {
        let whole = text@;
        assert(whole =~= whole.subrange(0, end_a as int) + seq![0x2eu8] + whole.subrange(
            end_a + 1,
            end_b as int,
        ) + seq![0x2eu8] + whole.subrange(end_b + 1, end_c as int) + seq![0x2eu8]
            + whole.subrange(end_c + 1, end_d as int));
        assert(whole == dotted_quad(a, b, c, d));
        let (a2, b2, c2, d2) = choose|a2: u8, b2: u8, c2: u8, d2: u8|
            whole == dotted_quad(a2, b2, c2, d2);
        lemma_dotted_quad_injective(a, b, c, d, a2, b2, c2, d2);
        assert(octets@ =~= seq![a2, b2, c2, d2]);
    }
    Some(octets)
}

} // verus!
