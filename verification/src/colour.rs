//! Role colours: parsing a `#RRGGBB`-style hex string and drawing a
//! random colour when none was requested.  Either way the result is
//! masked to 24 bits.

use vstd::prelude::*;

verus! {

/// The value of one ASCII hex digit.
pub open spec fn hex_digit_value(b: u8) -> Option<u8> {
    if 48 <= b <= 57 {  // '0' ..= '9'
        Some((b - 48) as u8)
    } else if 97 <= b <= 102 {  // 'a' ..= 'f'
        Some((b - 97 + 10) as u8)
    } else if 65 <= b <= 70 {  // 'A' ..= 'F'
        Some((b - 65 + 10) as u8)
    } else {
        None
    }
}

/// True when every byte is an ASCII hex digit.
pub open spec fn all_hex(s: Seq<u8>) -> bool {
    forall|i: int| 0 <= i < s.len() ==> hex_digit_value(#[trigger] s[i]) is Some
}

/// The number the hex digits spell, most significant first.
pub open spec fn hex_value(s: Seq<u8>) -> nat
    decreases s.len(),
{
    if s.len() == 0 {
        0
    } else {
        hex_value(s.drop_last()) * 16 + (match hex_digit_value(s.last()) {
            Some(v) => v as nat,
            None => 0nat,
        })
    }
}

/// Sixteen to the `n`th.
pub open spec fn pow16(n: nat) -> nat
    decreases n,
{
    if n == 0 {
        1
    } else {
        16 * pow16((n - 1) as nat)
    }
}

/// `n` hex digits spell a number below `16^n`.
proof fn lemma_hex_value_bound(s: Seq<u8>)
    ensures
        hex_value(s) < pow16(s.len()),
    decreases s.len(),
{
    if s.len() > 0 {
        lemma_hex_value_bound(s.drop_last());
    }
}

/// `pow16` grows with its argument.
proof fn lemma_pow16_monotone(a: nat, b: nat)
    requires
        a <= b,
    ensures
        pow16(a) <= pow16(b),
    decreases b,
{
    if a < b {
        lemma_pow16_monotone(a, (b - 1) as nat);
        assert(pow16(b) == 16 * pow16((b - 1) as nat));
    }
}

/// What parsing a colour string yields: an optional leading `#`, then
/// one to eight hex digits, read as a number.
pub open spec fn spec_parse_colour(s: Seq<u8>) -> Option<u32> {
    let digits = if s.len() > 0 && s[0] == 35 {  // '#'
        s.drop_first()
    } else {
        s
    };
    if 1 <= digits.len() <= 8 && all_hex(digits) {
        Some(hex_value(digits) as u32)
    } else {
        None
    }
}

/// Parse a colour string given as bytes: an optional leading `#`, then
/// one to eight hex digits.  `None` on anything else.
pub fn parse_colour(s: &Vec<u8>) -> (r: Option<u32>)
    ensures
        r == spec_parse_colour(s@),
{
    let start: usize = if s.len() > 0 && s[0] == 35 {
        1
    } else {
        0
    };
    let ghost digits = if start == 1 {
        s@.drop_first()
    } else {
        s@
    };
    assert(digits.len() == s@.len() - start);
    assert(forall|j: int| 0 <= j < digits.len() ==> digits[j] == s@[j + start]);
    let n = s.len() - start;
    if n == 0 || n > 8 {
        return None;
    }
    let mut v: u64 = 0;
    let mut i: usize = start;
    while i < s.len()
        invariant
            0 <= start <= i <= s@.len(),
            start <= 1,
            (start == 1) == (s@.len() > 0 && s@[0] == 35),
            digits == (if start == 1 {
                s@.drop_first()
            } else {
                s@
            }),
            digits.len() == s@.len() - start,
            1 <= digits.len() <= 8,
            all_hex(digits.take(i - start)),
            v == hex_value(digits.take(i - start)),
        decreases s@.len() - i,
    {
        let b = s[i];
        assert(digits[i - start] == b);
        let d: u64 = if 48 <= b && b <= 57 {
            (b - 48) as u64
        } else if 97 <= b && b <= 102 {
            (b - 97 + 10) as u64
        } else if 65 <= b && b <= 70 {
            (b - 65 + 10) as u64
        } else {
            assert(hex_digit_value(digits[i - start]) is None);
            assert(!all_hex(digits));
            return None;
        };
        assert(hex_digit_value(digits[i - start]) == Some(d as u8));
        proof {
            let k = i - start;
            lemma_hex_value_bound(digits.take(k));
            lemma_pow16_monotone(digits.take(k).len() as nat, 7);
            reveal_with_fuel(pow16, 9);
            assert(pow16(7) == 0x10000000) by {
                assert(pow16(0) == 1);
            }
            assert(v < 0x10000000);
            assert(digits.take(k + 1).drop_last() =~= digits.take(k));
            assert(digits.take(k + 1).last() == digits[k]);
        }
        v = v * 16 + d;
        i += 1;
    }
    proof {
        assert(digits.take(digits.len() as int) =~= digits);
        lemma_hex_value_bound(digits);
        lemma_pow16_monotone(digits.len() as nat, 8);
        reveal_with_fuel(pow16, 9);
        assert(pow16(8) == 0x100000000) by {
            assert(pow16(0) == 1);
        }
        assert(v < 0x100000000);
    }
    Some(v as u32)
}

/// Relies on rand::random::<u32>: an arbitrary draw; nothing is assumed
/// of its value.
#[verifier::external_body]
fn random_u32() -> u32 {
    rand::random()
}

/// The colour a new role gets: the requested string parsed, or a random
/// draw when none was requested; either way masked to 24 bits.  `None`
/// exactly when a requested string does not parse.
pub fn choose_colour(requested: &Option<Vec<u8>>) -> (r: Option<u32>)
    ensures
        r matches Some(c) ==> c <= 0xFFFFFF,
        requested matches Some(s) ==> r == (match spec_parse_colour(s@) {
            Some(c) => Some((c & 0xFFFFFF) as u32),
            None => None::<u32>,
        }),
        requested is None ==> r is Some,
{
    let raw: u32 = match requested {
        Some(s) => {
            match parse_colour(s) {
                Some(c) => c,
                None => {
                    return None;
                },
            }
        },
        None => random_u32(),
    };
    let masked = raw & 0xFFFFFF;
    assert(masked <= 0xFFFFFF) by (bit_vector)
        requires
            masked == raw & 0xFFFFFF,
    ;
    Some(masked)
}

} // verus!
