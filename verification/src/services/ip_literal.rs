//! IPv4 addresses written as text: four bytes in decimal, joined by dots.
use crate::text::{
    decimal, decimal_text, is_digit, law_decimal_is_injective, law_decimal_reads_back,
    lemma_decimal_digits, parse_number, parsed_number, reads,
};
use vstd::prelude::*;
use vstd::string::*;

verus! {

pub open spec fn dot_joined(left: Seq<char>, right: Seq<char>) -> Seq<char> {
    left.push('.') + right
}

/// The text of an IPv4 address.
pub open spec fn dotted(a: u8, b: u8, c: u8, d: u8) -> Seq<char> {
    dot_joined(
        decimal(a as nat),
        dot_joined(decimal(b as nat), dot_joined(decimal(c as nat), decimal(d as nat))),
    )
}

spec fn is_dot_free(text: Seq<char>) -> bool {
    forall|i: int| 0 <= i < text.len() ==> #[trigger] text[i] != '.'
}

proof fn lemma_decimal_is_dot_free(n: nat)
    ensures
        is_dot_free(decimal(n)),
{
    lemma_decimal_digits(n);
    assert forall|i: int| 0 <= i < decimal(n).len() implies #[trigger] decimal(n)[i] != '.' by {
        assert(is_digit(decimal(n)[i]));
    }
}

/// Text that holds a dot splits at its first one in one way only.
proof fn lemma_split_is_unique(
    left: Seq<char>,
    right: Seq<char>,
    other_left: Seq<char>,
    other_right: Seq<char>,
)
    requires
        is_dot_free(left),
        is_dot_free(other_left),
        dot_joined(left, right) == dot_joined(other_left, other_right),
    ensures
        left == other_left,
        right == other_right,
{
    let text = dot_joined(left, right);
    let n = left.len() as int;
    let m = other_left.len() as int;
    assert(text[n] == '.');
    assert(dot_joined(other_left, other_right)[m] == '.');
    if n < m {
        assert(other_left[n] == text[n]);
    }
    if m < n {
        assert(left[m] == text[m]);
    }
    assert(left =~= text.take(n));
    assert(other_left =~= text.take(n));
    assert(right =~= text.skip(n + 1));
    assert(other_right =~= text.skip(n + 1));
}

/// Different addresses have different texts.
pub proof fn law_dotted_is_injective(
    a: u8,
    b: u8,
    c: u8,
    d: u8,
    a2: u8,
    b2: u8,
    c2: u8,
    d2: u8,
)
    requires
        dotted(a, b, c, d) == dotted(a2, b2, c2, d2),
    ensures
        a == a2 && b == b2 && c == c2 && d == d2,
{
    lemma_decimal_is_dot_free(a as nat);
    lemma_decimal_is_dot_free(a2 as nat);
    lemma_decimal_is_dot_free(b as nat);
    lemma_decimal_is_dot_free(b2 as nat);
    lemma_decimal_is_dot_free(c as nat);
    lemma_decimal_is_dot_free(c2 as nat);
    let last = dot_joined(decimal(c as nat), decimal(d as nat));
    let last2 = dot_joined(decimal(c2 as nat), decimal(d2 as nat));
    let rest = dot_joined(decimal(b as nat), last);
    let rest2 = dot_joined(decimal(b2 as nat), last2);
    lemma_split_is_unique(decimal(a as nat), rest, decimal(a2 as nat), rest2);
    lemma_split_is_unique(decimal(b as nat), last, decimal(b2 as nat), last2);
    lemma_split_is_unique(decimal(c as nat), decimal(d as nat), decimal(c2 as nat), decimal(d2 as nat));
    law_decimal_is_injective(a as nat, a2 as nat);
    law_decimal_is_injective(b as nat, b2 as nat);
    law_decimal_is_injective(c as nat, c2 as nat);
    law_decimal_is_injective(d as nat, d2 as nat);
}

/// Splits `text` at its first dot.
fn split_at_dot(text: &str) -> (halves: Option<(&str, &str)>)
    ensures
        match halves {
            Some((left, right)) => is_dot_free(left@) && text@ == dot_joined(left@, right@),
            None => is_dot_free(text@),
        },
{
    let len: usize = text.unicode_len();
    let mut i: usize = 0;
    while i < len
        invariant
            i <= len,
            len == text@.len(),
            forall|j: int| 0 <= j < i ==> #[trigger] text@[j] != '.',
        decreases len - i,
    {
        if text.get_char(i) == '.' {
            let left = text.substring_char(0, i);
            let right = text.substring_char(i + 1, len);
            assert(text@ =~= dot_joined(left@, right@));
            return Some((left, right));
        }
        i = i + 1;
    }
    None
}

/// A byte in decimal, without a sign or leading zeros.
fn read_byte(text: &str) -> (byte: Option<u8>)
    ensures
        match byte {
            Some(n) => text@ == decimal(n as nat),
            None => forall|n: u8| text@ != #[trigger] decimal(n as nat),
        },
{
    proof {
        assert forall|n: u8| text@ == #[trigger] decimal(n as nat) implies
            parsed_number(text@, 255) == Some(n as nat) by {
            law_decimal_reads_back(n as nat, 255);
        }
    }
    match parse_number(text, 255) {
        Some(n) => {
            if reads(&decimal_text(n), text) {
                Some(n as u8)
            } else {
                None
            }
        },
        None => None,
    }
}

/// The address that `text` reads, if it reads one.
pub fn read_dotted(text: &str) -> (address: Option<(u8, u8, u8, u8)>)
    ensures
        match address {
            Some((a, b, c, d)) => text@ == dotted(a, b, c, d),
            None => forall|a: u8, b: u8, c: u8, d: u8| text@ != #[trigger] dotted(a, b, c, d),
        },
{
    proof {
        assert forall|n: u8| is_dot_free(#[trigger] decimal(n as nat)) by {
            lemma_decimal_is_dot_free(n as nat);
        }
    }
    let (first, rest) = match split_at_dot(text) {
        Some(halves) => halves,
        None => {
            proof {
                assert forall|a: u8, b: u8, c: u8, d: u8| text@ != #[trigger] dotted(
                    a,
                    b,
                    c,
                    d,
                ) by {
                    assert(dotted(a, b, c, d)[decimal(a as nat).len() as int] == '.');
                }
            }
            return None;
        },
    };
    proof {
        assert forall|a: u8, b: u8, c: u8, d: u8| text@ == #[trigger] dotted(
            a,
            b,
            c,
            d,
        ) implies first@ == decimal(a as nat) && rest@ == dot_joined(
            decimal(b as nat),
            dot_joined(decimal(c as nat), decimal(d as nat)),
        ) by {
            lemma_split_is_unique(
                first@,
                rest@,
                decimal(a as nat),
                dot_joined(decimal(b as nat), dot_joined(decimal(c as nat), decimal(d as nat))),
            );
        }
    }
    let (second, rest) = match split_at_dot(rest) {
        Some(halves) => halves,
        None => {
            proof {
                assert forall|a: u8, b: u8, c: u8, d: u8| text@ != #[trigger] dotted(
                    a,
                    b,
                    c,
                    d,
                ) by {
                    let left = decimal(b as nat);
                    assert(dot_joined(left, dot_joined(decimal(c as nat), decimal(d as nat)))[
                        left.len() as int] == '.');
                }
            }
            return None;
        },
    };
    proof {
        assert forall|a: u8, b: u8, c: u8, d: u8| text@ == #[trigger] dotted(
            a,
            b,
            c,
            d,
        ) implies second@ == decimal(b as nat) && rest@ == dot_joined(
            decimal(c as nat),
            decimal(d as nat),
        ) by {
            lemma_split_is_unique(
                second@,
                rest@,
                decimal(b as nat),
                dot_joined(decimal(c as nat), decimal(d as nat)),
            );
        }
    }
    let (third, fourth) = match split_at_dot(rest) {
        Some(halves) => halves,
        None => {
            proof {
                assert forall|a: u8, b: u8, c: u8, d: u8| text@ != #[trigger] dotted(
                    a,
                    b,
                    c,
                    d,
                ) by {
                    let left = decimal(c as nat);
                    assert(dot_joined(left, decimal(d as nat))[left.len() as int] == '.');
                }
            }
            return None;
        },
    };
    proof {
        assert forall|a: u8, b: u8, c: u8, d: u8| text@ == #[trigger] dotted(
            a,
            b,
            c,
            d,
        ) implies third@ == decimal(c as nat) && fourth@ == decimal(d as nat) by {
            lemma_split_is_unique(third@, fourth@, decimal(c as nat), decimal(d as nat));
        }
    }
    match (read_byte(first), read_byte(second), read_byte(third), read_byte(fourth)) {
        (Some(a), Some(b), Some(c), Some(d)) => Some((a, b, c, d)),
        _ => None,
    }
}

/// The text of an address is its four bytes in decimal with dots between them.
pub proof fn law_dotted_is_four_decimals(a: u8, b: u8, c: u8, d: u8)
    ensures
        dotted(a, b, c, d) == decimal(a as nat) + seq!['.'] + decimal(b as nat) + seq!['.']
            + decimal(c as nat) + seq!['.'] + decimal(d as nat),
{
    assert(dotted(a, b, c, d) =~= decimal(a as nat) + seq!['.'] + decimal(b as nat) + seq!['.']
        + decimal(c as nat) + seq!['.'] + decimal(d as nat));
}

} // verus!
