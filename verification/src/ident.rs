//! Identifier text: rendering a 128-bit identifier in its canonical
//! textual form and parsing that form back.
//!
//! The canonical text is 32 lowercase hexadecimal digits in five groups
//! of 8, 4, 4, 4 and 12 digits, separated by hyphens, most significant
//! digit first. Parsing accepts exactly the canonical texts; anything
//! else is malformed.

use vstd::prelude::*;
use vstd::arithmetic::div_mod::lemma_div_denominator;
use vstd::arithmetic::div_mod::lemma_fundamental_div_mod;

verus! {

/// Sixteen to the power `n`.
pub open spec fn pow16(n: nat) -> nat
    decreases n,
{
    if n == 0 {
        1
    } else {
        16 * pow16((n - 1) as nat)
    }
}

proof fn lemma_pow16_pos(n: nat)
    ensures
        pow16(n) >= 1,
    decreases n,
{
    if n > 0 {
        lemma_pow16_pos((n - 1) as nat);
    }
}

proof fn lemma_pow16_increases(a: nat, b: nat)
    requires
        a <= b,
    ensures
        pow16(a) <= pow16(b),
    decreases b,
{
    if a < b {
        lemma_pow16_increases(a, (b - 1) as nat);
        lemma_pow16_pos((b - 1) as nat);
    }
}

proof fn lemma_pow16_32()
    ensures
        pow16(32) == 0x1_0000_0000_0000_0000_0000_0000_0000_0000,
{
    reveal_with_fuel(pow16, 33);
}

/// Whether byte `b` is a lowercase hexadecimal digit.
pub open spec fn is_hex_digit(b: u8) -> bool {
    (48 <= b && b <= 57) || (97 <= b && b <= 102)
}

/// The numeric value of a hexadecimal digit byte.
pub open spec fn hex_val(b: u8) -> nat
    recommends
        is_hex_digit(b),
{
    if b <= 57 {
        (b - 48) as nat
    } else {
        (b - 87) as nat
    }
}

/// The lowercase hexadecimal digit byte for a value below sixteen.
pub open spec fn hex_char(n: nat) -> u8
    recommends
        n < 16,
{
    if n < 10 {
        (48 + n) as u8
    } else {
        (87 + n) as u8
    }
}

/// The positions of the four hyphens in the canonical text.
pub open spec fn is_hyphen_pos(i: int) -> bool {
    i == 8 || i == 13 || i == 18 || i == 23
}

/// The digit slot (most significant first, below 32) that text position
/// `i` carries, for a non-hyphen position.
pub open spec fn digit_slot(i: int) -> int {
    if i < 8 {
        i
    } else if i < 13 {
        i - 1
    } else if i < 18 {
        i - 2
    } else if i < 23 {
        i - 3
    } else {
        i - 4
    }
}

/// How many digit positions lie strictly below text position `i`.
pub open spec fn digits_below(i: int) -> int {
    if i <= 8 {
        i
    } else if i <= 13 {
        i - 1
    } else if i <= 18 {
        i - 2
    } else if i <= 23 {
        i - 3
    } else {
        i - 4
    }
}

/// Digit slot `j` of identifier `id`, most significant first.
pub open spec fn nibble(id: u128, j: int) -> nat
    recommends
        0 <= j < 32,
{
    (id as nat / pow16((31 - j) as nat)) % 16
}

/// The canonical text of identifier `id`.
pub open spec fn canon(id: u128) -> Seq<u8> {
    Seq::new(
        36,
        |i: int|
            if is_hyphen_pos(i) {
                45u8
            } else {
                hex_char(nibble(id, digit_slot(i)))
            },
    )
}

/// Whether `s` has the canonical shape: 36 bytes, hyphens exactly at the
/// hyphen positions, lowercase hexadecimal digits everywhere else.
pub open spec fn is_canon_shape(s: Seq<u8>) -> bool {
    &&& s.len() == 36
    &&& forall|i: int| 0 <= i < 36 && is_hyphen_pos(i) ==> #[trigger] s[i] == 45u8
    &&& forall|i: int| 0 <= i < 36 && !is_hyphen_pos(i) ==> is_hex_digit(#[trigger] s[i])
}

/// The value of the digits of `s` at positions strictly below `i`,
/// hyphens skipped, most significant digit first.
pub open spec fn prefix_val(s: Seq<u8>, i: int) -> nat
    decreases i,
{
    if i <= 0 {
        0
    } else if is_hyphen_pos(i - 1) {
        prefix_val(s, i - 1)
    } else {
        prefix_val(s, i - 1) * 16 + hex_val(s[i - 1])
    }
}

/// What parsing yields: the identifier if `s` is a canonical text, and
/// nothing otherwise.
pub open spec fn spec_parse_id(s: Seq<u8>) -> Option<u128> {
    if is_canon_shape(s) {
        Some(prefix_val(s, 36) as u128)
    } else {
        None
    }
}

proof fn lemma_prefix_val_bound(s: Seq<u8>, i: int)
    requires
        0 <= i <= 36,
        is_canon_shape(s),
    ensures
        prefix_val(s, i) < pow16(digits_below(i) as nat),
    decreases i,
{
    if i == 0 {
    } else {
        lemma_prefix_val_bound(s, i - 1);
        if is_hyphen_pos(i - 1) {
        } else {
            assert(digits_below(i) == digits_below(i - 1) + 1);
        }
    }
}

proof fn lemma_prefix_val_canon(id: u128, i: int)
    requires
        0 <= i <= 36,
    ensures
        prefix_val(canon(id), i) == id as nat / pow16((32 - digits_below(i)) as nat),
    decreases i,
{
    if i == 0 {
        lemma_pow16_32();
        assert(id as nat / pow16(32) == 0) by (nonlinear_arith)
            requires
                0 <= id as nat,
                (id as nat) < pow16(32),
        ;
    } else {
        lemma_prefix_val_canon(id, i - 1);
        if is_hyphen_pos(i - 1) {
        } else {
            let d = digits_below(i - 1);
            assert(digit_slot(i - 1) == d);
            assert(digits_below(i) == d + 1);
            let x = id as nat / pow16((31 - d) as nat);
            lemma_pow16_pos((31 - d) as nat);
            lemma_div_denominator(id as int, pow16((31 - d) as nat) as int, 16);
            assert(pow16((32 - d) as nat) == 16 * pow16((31 - d) as nat));
            lemma_fundamental_div_mod(x as int, 16);
            assert(canon(id)[i - 1] == hex_char(nibble(id, d)));
            assert(hex_val(hex_char(nibble(id, d))) == nibble(id, d));
        }
    }
}

/// Law: parsing the canonical text of an identifier yields the
/// identifier back; in particular the canonical text is well formed.
pub proof fn lemma_parse_canon(id: u128)
    ensures
        is_canon_shape(canon(id)),
        spec_parse_id(canon(id)) == Some(id),
{
    assert(is_canon_shape(canon(id)));
    lemma_prefix_val_canon(id, 36);
    assert(pow16(0) == 1);
    assert(id as nat / 1 == id as nat) by (nonlinear_arith);
}

proof fn lemma_prefix_val_suffix(s: Seq<u8>, i: int)
    requires
        is_canon_shape(s),
        0 <= i <= 36,
    ensures
        prefix_val(s, 36) / pow16((32 - digits_below(i)) as nat) == prefix_val(s, i),
    decreases 36 - i,
{
    if i == 36 {
        assert(pow16(0) == 1);
        assert(prefix_val(s, 36) / 1 == prefix_val(s, 36)) by (nonlinear_arith);
    } else {
        lemma_prefix_val_suffix(s, i + 1);
        if is_hyphen_pos(i) {
        } else {
            let d = digits_below(i);
            assert(digits_below(i + 1) == d + 1);
            let v = prefix_val(s, 36);
            lemma_pow16_pos((31 - d) as nat);
            lemma_div_denominator(v as int, pow16((31 - d) as nat) as int, 16);
            assert(pow16((32 - d) as nat) == 16 * pow16((31 - d) as nat));
            let a = prefix_val(s, i);
            let b = hex_val(s[i]);
            assert(prefix_val(s, i + 1) == a * 16 + b);
            assert((a * 16 + b) as int / 16 == a) by (nonlinear_arith)
                requires
                    0 <= a,
                    0 <= b < 16,
            ;
        }
    }
}

proof fn lemma_canon_of_parse(s: Seq<u8>)
    requires
        is_canon_shape(s),
    ensures
        s == canon(prefix_val(s, 36) as u128),
{
    lemma_prefix_val_bound(s, 36);
    lemma_pow16_32();
    let v: u128 = prefix_val(s, 36) as u128;
    assert forall|i: int| 0 <= i < 36 && !is_hyphen_pos(i) implies s[i] == canon(v)[i] by {
        let d = digits_below(i);
        assert(digit_slot(i) == d);
        lemma_prefix_val_suffix(s, i + 1);
        let a = prefix_val(s, i);
        let b = hex_val(s[i]);
        assert(prefix_val(s, i + 1) == a * 16 + b);
        assert((a * 16 + b) as int % 16 == b) by (nonlinear_arith)
            requires
                0 <= a,
                0 <= b < 16,
        ;
        assert(nibble(v, d) == b);
        assert(hex_char(hex_val(s[i])) == s[i]);
    };
    assert(s =~= canon(v));
}

/// Law: parsing succeeds exactly on canonical texts — parsing `s` yields
/// the identifier `k` if and only if `s` is the canonical text of `k`.
/// So distinct identifiers have distinct texts, and every well-formed
/// text denotes exactly one identifier.
pub proof fn lemma_parse_exact(s: Seq<u8>, k: u128)
    ensures
        spec_parse_id(s) == Some(k) <==> s == canon(k),
{
    if spec_parse_id(s) == Some(k) {
        lemma_prefix_val_bound(s, 36);
        lemma_pow16_32();
        lemma_canon_of_parse(s);
    }
    if s == canon(k) {
        lemma_parse_canon(k);
    }
}

/// Render identifier `id` in its canonical text.
pub fn format_id(id: u128) -> (r: Vec<u8>)
    ensures
        r@ == canon(id),
{
    let mut rev: Vec<u8> = Vec::new();
    let mut x: u128 = id;
    let mut k: usize = 0;
    proof {
        assert(pow16(0) == 1);
        assert(id as nat / 1 == id as nat) by (nonlinear_arith);
    }
    while k < 32
        invariant
            k <= 32,
            rev@.len() == k,
            x as nat == id as nat / pow16(k as nat),
            forall|j: int| 0 <= j < k ==> #[trigger] rev@[j] as nat == nibble(id, 31 - j),
        decreases 32 - k,
    {
        let d = (x % 16) as u8;
        proof {
            lemma_pow16_pos(k as nat);
            lemma_div_denominator(id as int, pow16(k as nat) as int, 16);
            assert(pow16((k + 1) as nat) == pow16(k as nat) * 16);
            assert(nibble(id, 31 - k) == (id as nat / pow16(k as nat)) % 16);
        }
        rev.push(d);
        x = x / 16;
        k = k + 1;
    }
    let mut r: Vec<u8> = Vec::new();
    let mut i: usize = 0;
    while i < 36
        invariant
            i <= 36,
            r@.len() == i,
            rev@.len() == 32,
            forall|j: int| 0 <= j < 32 ==> #[trigger] rev@[j] as nat == nibble(id, 31 - j),
            forall|j: int| 0 <= j < i ==> #[trigger] r@[j] == canon(id)[j],
        decreases 36 - i,
    {
        if i == 8 || i == 13 || i == 18 || i == 23 {
            r.push(45);
        } else {
            let slot: usize = if i < 8 {
                i
            } else if i < 13 {
                i - 1
            } else if i < 18 {
                i - 2
            } else if i < 23 {
                i - 3
            } else {
                i - 4
            };
            let n = rev[31 - slot];
            assert(n as nat == nibble(id, digit_slot(i as int)));
            assert(n < 16);
            let c: u8 = if n < 10 {
                48 + n
            } else {
                87 + n
            };
            r.push(c);
        }
        i = i + 1;
    }
    assert(r@ =~= canon(id));
    r
}

/// Parse a canonical identifier text. Yields the identifier exactly when
/// `s` is such a text, and nothing on any other input.
pub fn parse_id(s: &[u8]) -> (r: Option<u128>)
    ensures
        r == spec_parse_id(s@),
{
    if s.len() != 36 {
        return None;
    }
    let mut v: u128 = 0;
    let mut i: usize = 0;
    while i < 36
        invariant
            i <= 36,
            s@.len() == 36,
            forall|j: int| 0 <= j < i && is_hyphen_pos(j) ==> #[trigger] s@[j] == 45u8,
            forall|j: int| 0 <= j < i && !is_hyphen_pos(j) ==> is_hex_digit(#[trigger] s@[j]),
            v as nat == prefix_val(s@, i as int),
            (v as nat) < pow16(digits_below(i as int) as nat),
        decreases 36 - i,
    {
        let b = s[i];
        if i == 8 || i == 13 || i == 18 || i == 23 {
            if b != 45 {
                return None;
            }
        } else {
            let d: u8 = if 48 <= b && b <= 57 {
                b - 48
            } else if 97 <= b && b <= 102 {
                b - 87
            } else {
                return None;
            };
            proof {
                assert(digits_below(i as int) <= 31);
                lemma_pow16_increases((digits_below(i as int) + 1) as nat, 32);
                lemma_pow16_32();
                assert(v as nat * 16 + d < pow16((digits_below(i as int) + 1) as nat));
            }
            v = v * 16 + (d as u128);
        }
        i = i + 1;
    }
    Some(v)
}

} // verus!
