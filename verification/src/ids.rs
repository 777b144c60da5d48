//! Opaque 128-bit identifiers and their canonical hyphenated lowercase-hex
//! rendering, as used in token subjects and deterministic blob filenames.

use vstd::prelude::*;
use vstd::arithmetic::div_mod::{lemma_basic_div, lemma_div_denominator, lemma_fundamental_div_mod};
use vstd::string::StrSliceExecFns;
use crate::text::{digit_char, digit_val, is_digit, push_char};

verus! {

/// Powers of sixteen.
pub open spec fn p16(k: nat) -> nat
    decreases k,
{
    if k == 0 {
        1
    } else {
        16 * p16((k - 1) as nat)
    }
}

proof fn lemma_p16_pos(k: nat)
    ensures
        p16(k) >= 1,
    decreases k,
{
    if k > 0 {
        lemma_p16_pos((k - 1) as nat);
    }
}

proof fn lemma_p16_le(a: nat, b: nat)
    requires
        a <= b,
    ensures
        p16(a) <= p16(b),
    decreases b,
{
    if a < b {
        lemma_p16_le(a, (b - 1) as nat);
        lemma_p16_pos((b - 1) as nat);
    }
}

/// The two powers of sixteen that bracket a 128-bit identifier.
proof fn lemma_p16_values()
    ensures
        p16(31) == 0x10000000000000000000000000000000,
        p16(32) == 0x100000000000000000000000000000000,
{
    reveal_with_fuel(p16, 33);
}

/// The lowercase hexadecimal character for a nibble value.
pub open spec fn hex_lo_char(d: int) -> char {
    if d < 10 {
        digit_char(d)
    } else if d == 10 {
        'a'
    } else if d == 11 {
        'b'
    } else if d == 12 {
        'c'
    } else if d == 13 {
        'd'
    } else if d == 14 {
        'e'
    } else {
        'f'
    }
}

/// The nibble value of a canonical (lowercase) hexadecimal character, or -1.
pub open spec fn hex_val(c: char) -> int {
    if is_digit(c) {
        digit_val(c)
    } else if 'a' <= c && c <= 'f' {
        c as int - 'a' as int + 10
    } else {
        -1
    }
}

proof fn lemma_hex_roundtrip(d: int)
    requires
        0 <= d < 16,
    ensures
        hex_val(hex_lo_char(d)) == d,
{
}

proof fn lemma_hex_canonical(c: char)
    requires
        hex_val(c) >= 0,
    ensures
        hex_lo_char(hex_val(c)) == c,
{
}

/// The value of a sequence of nibbles, most significant first.
pub open spec fn nib_val(s: Seq<u8>) -> nat
    decreases s.len(),
{
    if s.len() == 0 {
        0
    } else {
        (nib_val(s.drop_last()) * 16 + s.last()) as nat
    }
}

/// Nibble `j` (most significant first) of a 128-bit value.
pub open spec fn nib_of(v: u128, j: int) -> u8 {
    (((v as nat) / p16((31 - j) as nat)) % 16) as u8
}

proof fn lemma_nib_val_bound(s: Seq<u8>)
    requires
        forall|i: int| 0 <= i < s.len() ==> s[i] < 16,
    ensures
        nib_val(s) < p16(s.len()),
    decreases s.len(),
{
    if s.len() > 0 {
        lemma_nib_val_bound(s.drop_last());
        let a = nib_val(s.drop_last());
        let c = s.last();
        assert(a <= p16((s.len() - 1) as nat) - 1);
        assert(a * 16 + c < 16 * p16((s.len() - 1) as nat)) by (nonlinear_arith)
            requires
                a <= p16((s.len() - 1) as nat) - 1,
                c < 16,
        ;
    }
}

/// Each nibble of a sequence is recovered from its folded value by division.
proof fn lemma_nib_val_index(s: Seq<u8>, j: int)
    requires
        forall|i: int| 0 <= i < s.len() ==> s[i] < 16,
        0 <= j < s.len(),
    ensures
        s[j] == (nib_val(s) / p16((s.len() - 1 - j) as nat)) % 16,
    decreases s.len(),
{
    let v = nib_val(s);
    let a = nib_val(s.drop_last());
    let c = s.last() as int;
    if j == s.len() - 1 {
        assert(v == a * 16 + c);
        assert((a * 16 + c) % 16 == c) by (nonlinear_arith)
            requires
                0 <= c < 16,
                a >= 0,
        ;
        assert(p16(0) == 1);
        assert(v as int / 1 == v) by (nonlinear_arith);
    } else {
        let k = (s.len() - 1 - j) as nat;
        assert(p16(k) == 16 * p16((k - 1) as nat));
        lemma_p16_pos((k - 1) as nat);
        assert((a * 16 + c) / 16 == a) by (nonlinear_arith)
            requires
                0 <= c < 16,
                a >= 0,
        ;
        lemma_div_denominator(v as int, 16, p16((k - 1) as nat) as int);
        assert(v as int / (16 * p16((k - 1) as nat) as int) == a as int / (p16((k - 1) as nat) as int));
        lemma_nib_val_index(s.drop_last(), j);
        assert(s.drop_last()[j] == s[j]);
    }
}

/// The 32 nibbles of a 128-bit value, most significant first.
pub open spec fn id_nibs(v: u128) -> Seq<u8> {
    Seq::new(32, |j: int| nib_of(v, j))
}

/// Folding the first `k` nibbles of `v` yields `v` shifted right.
proof fn lemma_id_nibs_val(v: u128, k: int)
    requires
        0 <= k <= 32,
    ensures
        nib_val(id_nibs(v).take(k)) == (v as nat) / p16((32 - k) as nat),
    decreases k,
{
    if k == 0 {
        lemma_p16_values();
        lemma_basic_div(v as int, p16(32) as int);
    } else {
        lemma_id_nibs_val(v, k - 1);
        assert(id_nibs(v).take(k).drop_last() =~= id_nibs(v).take(k - 1));
        let kk = (32 - k) as nat;
        let a = (v as nat) / p16((kk + 1) as nat);
        let b = (v as nat) / p16(kk);
        assert(nib_val(id_nibs(v).take(k)) == a * 16 + (b % 16));
        assert(p16((kk + 1) as nat) == 16 * p16(kk));
        lemma_p16_pos(kk);
        lemma_div_denominator(v as int, p16(kk) as int, 16);
        assert((v as nat) / (p16(kk) * 16) == b / 16) by {
            assert(p16(kk) * 16 == 16 * p16(kk)) by (nonlinear_arith);
        }
        assert(a == b / 16);
        lemma_fundamental_div_mod(b as int, 16);
        assert(b == (b / 16) * 16 + b % 16);
        assert(a * 16 == (b / 16) * 16) by (nonlinear_arith)
            requires
                a == b / 16,
        ;
    }
}

/// A 128-bit value is the fold of its own nibbles.
proof fn lemma_id_nibs_fold(v: u128)
    ensures
        nib_val(id_nibs(v)) == v,
{
    lemma_id_nibs_val(v, 32);
    assert(id_nibs(v).take(32) =~= id_nibs(v));
    assert(p16(0) == 1);
    assert(v as int / 1 == v) by (nonlinear_arith);
}

/// Positions of the four hyphens in the canonical rendering.
pub open spec fn is_hyphen_pos(i: int) -> bool {
    i == 8 || i == 13 || i == 18 || i == 23
}

/// The nibble index rendered at a non-hyphen character position.
pub open spec fn nib_index(i: int) -> int {
    if i < 8 {
        i
    } else if i < 13 {
        i - 1
    } else if i < 18 {
        i - 2
    } else if i < 23 {
        i - 3
    } else {
        i - 4
    }
}

/// The character position at which nibble `j` is rendered.
pub open spec fn char_pos(j: int) -> int {
    if j < 8 {
        j
    } else if j < 12 {
        j + 1
    } else if j < 16 {
        j + 2
    } else if j < 20 {
        j + 3
    } else {
        j + 4
    }
}

/// The canonical hyphenated lowercase-hex rendering of an identifier.
pub open spec fn uuid_str_of(v: u128) -> Seq<char> {
    Seq::new(36, |i: int| if is_hyphen_pos(i) {
        '-'
    } else {
        hex_lo_char(nib_of(v, nib_index(i)) as int)
    })
}

/// Whether a character sequence is the canonical rendering of some identifier.
pub open spec fn is_uuid_str(s: Seq<char>) -> bool {
    &&& s.len() == 36
    &&& forall|i: int| 0 <= i < 36 && is_hyphen_pos(i) ==> s[i] == '-'
    &&& forall|i: int| 0 <= i < 36 && !is_hyphen_pos(i) ==> hex_val(#[trigger] s[i]) >= 0
}

/// The canonical rendering of any identifier parses back: it has the
/// hyphens in place and lowercase hex everywhere else.
pub proof fn lemma_uuid_str_canonical(v: u128)
    ensures
        is_uuid_str(uuid_str_of(v)),
{
    assert forall|i: int| 0 <= i < 36 && !is_hyphen_pos(i) implies hex_val(
        #[trigger] uuid_str_of(v)[i],
    ) >= 0 by {
        let d = nib_of(v, nib_index(i)) as int;
        assert(uuid_str_of(v)[i] == hex_lo_char(d));
        lemma_hex_roundtrip(d);
    }
}

/// Distinct identifiers render to distinct strings.
pub proof fn lemma_uuid_str_injective(v1: u128, v2: u128)
    requires
        uuid_str_of(v1) == uuid_str_of(v2),
    ensures
        v1 == v2,
{
    assert forall|j: int| 0 <= j < 32 implies id_nibs(v1)[j] == id_nibs(v2)[j] by {
        let i = char_pos(j);
        assert(!is_hyphen_pos(i) && nib_index(i) == j);
        assert(uuid_str_of(v1)[i] == uuid_str_of(v2)[i]);
        assert(uuid_str_of(v1)[i] == hex_lo_char(nib_of(v1, j) as int));
        assert(uuid_str_of(v2)[i] == hex_lo_char(nib_of(v2, j) as int));
        lemma_hex_roundtrip(nib_of(v1, j) as int);
        lemma_hex_roundtrip(nib_of(v2, j) as int);
        assert(nib_of(v1, j) == nib_of(v2, j));
        assert(id_nibs(v1)[j] == nib_of(v1, j));
        assert(id_nibs(v2)[j] == nib_of(v2, j));
    }
    assert(id_nibs(v1) =~= id_nibs(v2));
    lemma_id_nibs_fold(v1);
    lemma_id_nibs_fold(v2);
}

fn hex_char_of(d: u8) -> (c: char)
    requires
        d < 16,
    ensures
        c == hex_lo_char(d as int),
{
    match d {
        0 => '0',
        1 => '1',
        2 => '2',
        3 => '3',
        4 => '4',
        5 => '5',
        6 => '6',
        7 => '7',
        8 => '8',
        9 => '9',
        10 => 'a',
        11 => 'b',
        12 => 'c',
        13 => 'd',
        14 => 'e',
        _ => 'f',
    }
}

fn hex_val_of(c: char) -> (r: Option<u8>)
    ensures
        match r {
            Some(d) => hex_val(c) == d && d < 16,
            None => hex_val(c) == -1,
        },
{
    let u = c as u32;
    if u >= 48 && u <= 57 {
        Some((u - 48) as u8)
    } else if u >= 97 && u <= 102 {
        Some((u - 97 + 10) as u8)
    } else {
        None
    }
}

fn char_pos_of(j: usize) -> (p: usize)
    requires
        j < 32,
    ensures
        p == char_pos(j as int),
        p < 36,
{
    if j < 8 {
        j
    } else if j < 12 {
        j + 1
    } else if j < 16 {
        j + 2
    } else if j < 20 {
        j + 3
    } else {
        j + 4
    }
}

/// Appends the canonical rendering of `v` to `s`.
pub fn push_uuid(s: &mut String, v: u128)
    ensures
        final(s)@ == old(s)@ + uuid_str_of(v),
{
    let mut nibs: Vec<u8> = Vec::new();
    let mut div: u128 = 0x10000000000000000000000000000000;
    proof {
        lemma_p16_values();
    }
    let mut j: usize = 0;
    while j < 32
        invariant
            0 <= j <= 32,
            nibs@.len() == j,
            forall|i: int| 0 <= i < j ==> nibs@[i] == nib_of(v, i),
            j < 32 ==> div as nat == p16((31 - j) as nat),
        decreases 32 - j,
    {
        proof {
            lemma_p16_pos((31 - j) as nat);
        }
        let nib = ((v / div) % 16) as u8;
        assert(nib == nib_of(v, j as int));
        nibs.push(nib);
        if j < 31 {
            assert(p16((31 - j) as nat) == 16 * p16((30 - j) as nat));
            assert((16 * p16((30 - j) as nat)) as int / 16 == p16((30 - j) as nat)) by (nonlinear_arith);
        }
        div = div / 16;
        j = j + 1;
    }
    let mut i: usize = 0;
    while i < 36
        invariant
            0 <= i <= 36,
            nibs@.len() == 32,
            forall|k: int| 0 <= k < 32 ==> nibs@[k] == nib_of(v, k),
            s@.len() == old(s)@.len() + i,
            forall|k: int| 0 <= k < old(s)@.len() ==> s@[k] == old(s)@[k],
            forall|k: int| 0 <= k < i ==> s@[old(s)@.len() + k] == uuid_str_of(v)[k],
        decreases 36 - i,
    {
        if i == 8 || i == 13 || i == 18 || i == 23 {
            push_char(s, '-');
        } else {
            let ni: usize = if i < 8 {
                i
            } else if i < 13 {
                i - 1
            } else if i < 18 {
                i - 2
            } else if i < 23 {
                i - 3
            } else {
                i - 4
            };
            assert(ni == nib_index(i as int) && ni < 32);
            assert(nib_of(v, ni as int) < 16) by {
                lemma_p16_pos((31 - ni) as nat);
            }
            let c = hex_char_of(nibs[ni]);
            push_char(s, c);
        }
        i = i + 1;
    }
    assert(s@ =~= old(s)@ + uuid_str_of(v));
}

/// The canonical rendering of `v` as a fresh string.
pub fn format_uuid(v: u128) -> (r: String)
    ensures
        r@ == uuid_str_of(v),
{
    let mut s = String::new();
    push_uuid(&mut s, v);
    assert(s@ =~= uuid_str_of(v));
    s
}

/// Parses the canonical hyphenated lowercase-hex rendering; `Some` exactly
/// on canonical strings, and then the parsed value renders back to the input.
pub fn parse_uuid(s: &str) -> (r: Option<u128>)
    ensures
        r matches Some(v) ==> s@ == uuid_str_of(v),
        r is Some <==> is_uuid_str(s@),
{
    let len = s.unicode_len();
    if len != 36 {
        return None;
    }
    if !(s.get_char(8) == '-' && s.get_char(13) == '-' && s.get_char(18) == '-' && s.get_char(23)
        == '-') {
        return None;
    }
    let mut nibs: Vec<u8> = Vec::new();
    let mut j: usize = 0;
    while j < 32
        invariant
            s@.len() == 36,
            0 <= j <= 32,
            nibs@.len() == j,
            forall|k: int| 0 <= k < j ==> #[trigger] nibs@[k] == hex_val(s@[char_pos(k)]) && nibs@[k]
                < 16,
        decreases 32 - j,
    {
        let p = char_pos_of(j);
        let c = s.get_char(p);
        match hex_val_of(c) {
            Some(d) => {
                nibs.push(d);
            },
            None => {
                assert(!is_uuid_str(s@)) by {
                    assert(!is_hyphen_pos(char_pos(j as int)));
                    assert(hex_val(s@[char_pos(j as int)]) == -1);
                }
                return None;
            },
        }
        j = j + 1;
    }
    let mut acc: u128 = 0;
    let mut k: usize = 0;
    proof {
        lemma_p16_values();
    }
    while k < 32
        invariant
            nibs@.len() == 32,
            forall|t: int| 0 <= t < 32 ==> nibs@[t] < 16,
            0 <= k <= 32,
            acc as nat == nib_val(nibs@.take(k as int)),
            (acc as nat) < p16(k as nat),
            p16(32) == 0x100000000000000000000000000000000,
        decreases 32 - k,
    {
        proof {
            lemma_p16_le((k + 1) as nat, 32);
            assert(nibs@.take(k + 1).drop_last() =~= nibs@.take(k as int));
            assert(p16((k + 1) as nat) == 16 * p16(k as nat));
            assert(acc * 16 + nibs@[k as int] < 16 * p16(k as nat)) by (nonlinear_arith)
                requires
                    acc as nat <= p16(k as nat) - 1,
                    nibs@[k as int] < 16,
            ;
        }
        acc = acc * 16 + (nibs[k] as u128);
        k = k + 1;
    }
    proof {
        assert(nibs@.take(32) =~= nibs@);
        assert forall|i: int| 0 <= i < 36 && !is_hyphen_pos(i) implies s@[i] == uuid_str_of(
            acc,
        )[i] by {
            let j2 = nib_index(i);
            assert(0 <= j2 < 32 && char_pos(j2) == i);
            lemma_nib_val_index(nibs@, j2);
            assert(nibs@[j2] == ((acc as nat) / p16((31 - j2) as nat)) % 16);
            assert(nibs@[j2] == nib_of(acc, j2));
            assert(hex_val(s@[i]) == nibs@[j2] as int);
            lemma_hex_canonical(s@[i]);
        }
        assert(s@ =~= uuid_str_of(acc));
    }
    Some(acc)
}

} // verus!
