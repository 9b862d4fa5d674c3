//! Text encodings used by the indexer: lowercase hex for 32-byte block
//! hashes (store entity keys and event display) and decimal for block
//! numbers, together with the hex parser for the `parent` field of a stored
//! block entity.

use vstd::prelude::*;
use vstd::string::StrSliceExecFns;
use vstd::string::StringExecFns;

use crate::types::BlockHash;

verus! {

/// The lowercase hex digit character for a value below 16.
pub open spec fn hex_digit_char(v: int) -> char {
    if v == 0 {
        '0'
    } else if v == 1 {
        '1'
    } else if v == 2 {
        '2'
    } else if v == 3 {
        '3'
    } else if v == 4 {
        '4'
    } else if v == 5 {
        '5'
    } else if v == 6 {
        '6'
    } else if v == 7 {
        '7'
    } else if v == 8 {
        '8'
    } else if v == 9 {
        '9'
    } else if v == 10 {
        'a'
    } else if v == 11 {
        'b'
    } else if v == 12 {
        'c'
    } else if v == 13 {
        'd'
    } else if v == 14 {
        'e'
    } else {
        'f'
    }
}

/// The value of a hex digit character, upper or lower case, or `-1` for any
/// other character.
pub open spec fn hex_char_value(c: char) -> int {
    if c == '0' {
        0
    } else if c == '1' {
        1
    } else if c == '2' {
        2
    } else if c == '3' {
        3
    } else if c == '4' {
        4
    } else if c == '5' {
        5
    } else if c == '6' {
        6
    } else if c == '7' {
        7
    } else if c == '8' {
        8
    } else if c == '9' {
        9
    } else if c == 'a' || c == 'A' {
        10
    } else if c == 'b' || c == 'B' {
        11
    } else if c == 'c' || c == 'C' {
        12
    } else if c == 'd' || c == 'D' {
        13
    } else if c == 'e' || c == 'E' {
        14
    } else if c == 'f' || c == 'F' {
        15
    } else {
        -1
    }
}

/// The last `count` hex digits of `n`, most significant first.
pub open spec fn hex_digits(n: int, count: nat) -> Seq<char>
    decreases count,
{
    if count == 0 {
        Seq::empty()
    } else {
        hex_digits(n / 16, (count - 1) as nat).push(hex_digit_char(n % 16))
    }
}

/// The 64 lowercase hex digits of a 32-byte hash, without a `0x` prefix.
pub open spec fn hash_hex(h: BlockHash) -> Seq<char> {
    hex_digits(h.w0 as int, 16) + hex_digits(h.w1 as int, 16) + hex_digits(h.w2 as int, 16)
        + hex_digits(h.w3 as int, 16)
}

/// The decimal digits of `n`, most significant first, without leading zeros
/// (a single `'0'` for zero).
pub open spec fn dec_digits(n: nat) -> Seq<char>
    decreases n,
{
    if n < 10 {
        seq![hex_digit_char(n as int)]
    } else {
        dec_digits(n / 10).push(hex_digit_char((n % 10) as int))
    }
}

/// `16^e`.
pub open spec fn pow16(e: nat) -> int
    decreases e,
{
    if e == 0 {
        1
    } else {
        16 * pow16((e - 1) as nat)
    }
}

pub proof fn lemma_pow16_positive(e: nat)
    ensures
        pow16(e) >= 1,
    decreases e,
{
    if e > 0 {
        lemma_pow16_positive((e - 1) as nat);
    }
}

pub proof fn lemma_pow16_16()
    ensures
        pow16(16) == 0x10000000000000000,
{
    reveal_with_fuel(pow16, 17);
}

pub proof fn lemma_pow16_increases(a: nat, b: nat)
    requires
        a <= b,
    ensures
        pow16(a) <= pow16(b),
    decreases b,
{
    lemma_pow16_positive(a);
    if a < b {
        lemma_pow16_increases(a, (b - 1) as nat);
        lemma_pow16_positive((b - 1) as nat);
    }
}

/// The single-character string for a hex digit value below 16.
fn hex_digit_str(v: u8) -> (r: &'static str)
    requires
        v < 16,
    ensures
        r@ == seq![hex_digit_char(v as int)],
{
    let r: &'static str = match v {
        0 => "0",
        1 => "1",
        2 => "2",
        3 => "3",
        4 => "4",
        5 => "5",
        6 => "6",
        7 => "7",
        8 => "8",
        9 => "9",
        10 => "a",
        11 => "b",
        12 => "c",
        13 => "d",
        14 => "e",
        _ => "f",
    };
    proof {
        reveal_strlit("0");
        reveal_strlit("1");
        reveal_strlit("2");
        reveal_strlit("3");
        reveal_strlit("4");
        reveal_strlit("5");
        reveal_strlit("6");
        reveal_strlit("7");
        reveal_strlit("8");
        reveal_strlit("9");
        reveal_strlit("a");
        reveal_strlit("b");
        reveal_strlit("c");
        reveal_strlit("d");
        reveal_strlit("e");
        reveal_strlit("f");
        assert(r@ =~= seq![hex_digit_char(v as int)]);
    }
    r
}

/// Appends the last `count` hex digits of `n` to `out`.
fn append_hex_digits(out: &mut String, n: u64, count: u8)
    requires
        count <= 16,
    ensures
        final(out)@ == old(out)@ + hex_digits(n as int, count as nat),
    decreases count,
{
    if count == 0 {
        proof {
            assert(final(out)@ =~= old(out)@ + hex_digits(n as int, 0));
        }
    } else {
        append_hex_digits(out, n / 16, count - 1);
        out.append(hex_digit_str((n % 16) as u8));
        proof {
            assert(final(out)@ =~= old(out)@ + hex_digits(n as int, count as nat));
        }
    }
}

/// Appends the decimal digits of `n` to `out`.
pub fn append_decimal(out: &mut String, n: u64)
    ensures
        final(out)@ == old(out)@ + dec_digits(n as nat),
    decreases n,
{
    if n < 10 {
        out.append(hex_digit_str(n as u8));
    } else {
        append_decimal(out, n / 10);
        out.append(hex_digit_str((n % 10) as u8));
        proof {
            assert(final(out)@ =~= old(out)@ + dec_digits(n as nat));
        }
    }
}

/// Appends the 64 lowercase hex digits of `h` to `out`.
pub fn append_hash_hex(out: &mut String, h: &BlockHash)
    ensures
        final(out)@ == old(out)@ + hash_hex(*h),
{
    append_hex_digits(out, h.w0, 16);
    append_hex_digits(out, h.w1, 16);
    append_hex_digits(out, h.w2, 16);
    append_hex_digits(out, h.w3, 16);
    proof {
        assert(final(out)@ =~= old(out)@ + hash_hex(*h));
    }
}

/// The 64-character lowercase hex form of a hash, as stored in the `parent`
/// field of a block entity and used in entity keys and event display.
pub fn hash_to_hex(h: &BlockHash) -> (r: String)
    ensures
        r@ == hash_hex(*h),
{
    let mut out = String::new();
    append_hash_hex(&mut out, h);
    proof {
        assert(out@ =~= hash_hex(*h));
    }
    out
}

/// Every character of `s` is a hex digit.
pub open spec fn all_hex(s: Seq<char>) -> bool {
    forall|i: int| 0 <= i < s.len() ==> hex_char_value(#[trigger] s[i]) >= 0
}

/// The big-endian value of a sequence of hex digit characters.
pub open spec fn hex_value(s: Seq<char>) -> int
    decreases s.len(),
{
    if s.len() == 0 {
        0
    } else {
        hex_value(s.drop_last()) * 16 + hex_char_value(s.last())
    }
}

/// What parsing a 32-byte hash from hex yields: a hash for exactly the
/// strings of 64 hex digits (either case), and nothing otherwise.
pub open spec fn spec_parse_hash(s: Seq<char>) -> Option<BlockHash> {
    if s.len() == 64 && all_hex(s) {
        Some(
            BlockHash {
                w0: hex_value(s.subrange(0, 16)) as u64,
                w1: hex_value(s.subrange(16, 32)) as u64,
                w2: hex_value(s.subrange(32, 48)) as u64,
                w3: hex_value(s.subrange(48, 64)) as u64,
            },
        )
    } else {
        None
    }
}

/// The value of a hex digit character, or `None` for any other character.
fn hex_char_val(c: char) -> (r: Option<u8>)
    ensures
        match r {
            Some(v) => hex_char_value(c) == v as int && v < 16,
            None => hex_char_value(c) < 0,
        },
{
    match c {
        '0' => Some(0),
        '1' => Some(1),
        '2' => Some(2),
        '3' => Some(3),
        '4' => Some(4),
        '5' => Some(5),
        '6' => Some(6),
        '7' => Some(7),
        '8' => Some(8),
        '9' => Some(9),
        'a' | 'A' => Some(10),
        'b' | 'B' => Some(11),
        'c' | 'C' => Some(12),
        'd' | 'D' => Some(13),
        'e' | 'E' => Some(14),
        'f' | 'F' => Some(15),
        _ => None,
    }
}

/// A hex digit sequence of length at most 16 has a value below `16^16`, so
/// it fits in a `u64`.
proof fn lemma_hex_value_bound(s: Seq<char>)
    requires
        all_hex(s),
    ensures
        0 <= hex_value(s) < pow16(s.len()),
    decreases s.len(),
{
    if s.len() > 0 {
        assert(all_hex(s.drop_last())) by {
            assert(forall|i: int|
                0 <= i < s.len() - 1 ==> #[trigger] s.drop_last()[i] == s[i]);
        }
        lemma_hex_value_bound(s.drop_last());
        assert(hex_char_value(s.last()) >= 0);
    }
}

/// Parses one 64-bit word from 16 hex digits of `s` starting at `start`.
fn parse_hex_word(s: &str, start: usize) -> (r: Option<u64>)
    requires
        start + 16 <= s@.len(),
        s@.len() <= usize::MAX,
    ensures
        match r {
            Some(v) => all_hex(s@.subrange(start as int, start + 16)) && v as int == hex_value(
                s@.subrange(start as int, start + 16),
            ),
            None => !all_hex(s@.subrange(start as int, start + 16)),
        },
{
    let mut acc: u64 = 0;
    let mut j: usize = 0;
    while j < 16
        invariant
            j <= 16,
            start + 16 <= s@.len(),
            s@.len() <= usize::MAX,
            all_hex(s@.subrange(start as int, start + j)),
            acc as int == hex_value(s@.subrange(start as int, start + j)),
            (acc as int) < pow16(j as nat),
        decreases 16 - j,
    {
        let c = s.get_char(start + j);
        let v = match hex_char_val(c) {
            Some(v) => v,
            None => {
                proof {
                    let sub = s@.subrange(start as int, start + 16);
                    assert(sub[j as int] == s@[start + j]);
                }
                return None;
            },
        };
        proof {
            lemma_pow16_increases(j as nat, 15);
            assert(pow16(15) * 16 == pow16(16)) by {
                assert(pow16(16) == 16 * pow16(15));
            }
            lemma_pow16_16();
            let pre = s@.subrange(start as int, start + j);
            let post = s@.subrange(start as int, start + j + 1);
            assert(post.drop_last() =~= pre);
            assert(post.last() == s@[start + j]);
            assert(forall|i: int|
                0 <= i < j ==> #[trigger] post[i] == pre[i]);
        }
        acc = acc * 16 + (v as u64);
        j = j + 1;
    }
    proof {
        assert(s@.subrange(start as int, start + 16) =~= s@.subrange(
            start as int,
            start + j,
        ));
    }
    Some(acc)
}

/// Parses a 32-byte hash from its hex form, upper or lower case, without a
/// `0x` prefix: exactly 64 hex digits, or the parse is refused.
pub fn parse_hash_hex(s: &str) -> (r: Option<BlockHash>)
    ensures
        r == spec_parse_hash(s@),
{
    let n = s.unicode_len();
    if n != 64 {
        return None;
    }
    let w0 = match parse_hex_word(s, 0) {
        Some(v) => v,
        None => {
            proof {
                hex_prefix_not_all(s@, 0);
            }
            return None;
        },
    };
    let w1 = match parse_hex_word(s, 16) {
        Some(v) => v,
        None => {
            proof {
                hex_prefix_not_all(s@, 16);
            }
            return None;
        },
    };
    let w2 = match parse_hex_word(s, 32) {
        Some(v) => v,
        None => {
            proof {
                hex_prefix_not_all(s@, 32);
            }
            return None;
        },
    };
    let w3 = match parse_hex_word(s, 48) {
        Some(v) => v,
        None => {
            proof {
                hex_prefix_not_all(s@, 48);
            }
            return None;
        },
    };
    proof {
        assert forall|i: int| 0 <= i < s@.len() implies hex_char_value(#[trigger] s@[i])
            >= 0 by {
            if i < 16 {
                assert(s@.subrange(0, 16)[i] == s@[i]);
            } else if i < 32 {
                assert(s@.subrange(16, 32)[i - 16] == s@[i]);
            } else if i < 48 {
                assert(s@.subrange(32, 48)[i - 32] == s@[i]);
            } else {
                assert(s@.subrange(48, 64)[i - 48] == s@[i]);
            }
        }
        assert(all_hex(s@));
        lemma_hex_value_bound(s@.subrange(0, 16));
        lemma_hex_value_bound(s@.subrange(16, 32));
        lemma_hex_value_bound(s@.subrange(32, 48));
        lemma_hex_value_bound(s@.subrange(48, 64));
    }
    Some(BlockHash { w0, w1, w2, w3 })
}

/// If a 16-character slice of `s` is not all hex digits, neither is `s`.
proof fn hex_prefix_not_all(s: Seq<char>, start: int)
    requires
        0 <= start,
        start + 16 <= s.len(),
        !all_hex(s.subrange(start, start + 16)),
    ensures
        !all_hex(s),
{
    let sub = s.subrange(start, start + 16);
    let i = choose|i: int| 0 <= i < sub.len() && hex_char_value(#[trigger] sub[i]) < 0;
    assert(sub[i] == s[start + i]);
}

/// Rendering a hash as hex and parsing the result round-trips: the hex form
/// of a hash identifies it exactly.
pub proof fn lemma_hash_hex_round_trip(h: BlockHash)
    ensures
        spec_parse_hash(hash_hex(h)) == Some(h),
{
    let s = hash_hex(h);
    lemma_hex_digits_all_hex(h.w0 as int, 16);
    lemma_hex_digits_all_hex(h.w1 as int, 16);
    lemma_hex_digits_all_hex(h.w2 as int, 16);
    lemma_hex_digits_all_hex(h.w3 as int, 16);
    assert(hex_digits(h.w0 as int, 16).len() == 16) by {
        lemma_hex_digits_len(h.w0 as int, 16);
    }
    lemma_hex_digits_len(h.w1 as int, 16);
    lemma_hex_digits_len(h.w2 as int, 16);
    lemma_hex_digits_len(h.w3 as int, 16);
    assert(s.subrange(0, 16) =~= hex_digits(h.w0 as int, 16));
    assert(s.subrange(16, 32) =~= hex_digits(h.w1 as int, 16));
    assert(s.subrange(32, 48) =~= hex_digits(h.w2 as int, 16));
    assert(s.subrange(48, 64) =~= hex_digits(h.w3 as int, 16));
    assert(all_hex(s));
    lemma_pow16_16();
    lemma_hex_digits_value(h.w0 as int, 16);
    lemma_hex_digits_value(h.w1 as int, 16);
    lemma_hex_digits_value(h.w2 as int, 16);
    lemma_hex_digits_value(h.w3 as int, 16);
    assert(spec_parse_hash(s)->0 == h);
}

proof fn lemma_hex_digits_len(n: int, count: nat)
    ensures
        hex_digits(n, count).len() == count,
    decreases count,
{
    if count > 0 {
        lemma_hex_digits_len(n / 16, (count - 1) as nat);
    }
}

proof fn lemma_hex_digits_all_hex(n: int, count: nat)
    requires
        n >= 0,
    ensures
        all_hex(hex_digits(n, count)),
    decreases count,
{
    if count > 0 {
        lemma_hex_digits_all_hex(n / 16, (count - 1) as nat);
        let s = hex_digits(n, count);
        let pre = hex_digits(n / 16, (count - 1) as nat);
        assert(forall|i: int| 0 <= i < pre.len() ==> s[i] == #[trigger] pre[i]);
        assert(hex_char_value(hex_digit_char(n % 16)) == n % 16);
        assert(s[s.len() - 1] == hex_digit_char(n % 16));
    }
}

/// For `n` below `16^count`, the hex digits of `n` evaluate back to `n`.
proof fn lemma_hex_digits_value(n: int, count: nat)
    requires
        0 <= n < pow16(count),
    ensures
        hex_value(hex_digits(n, count)) == n,
    decreases count,
{
    if count == 0 {
        assert(hex_digits(n, 0).len() == 0);
    } else {
        let pre = hex_digits(n / 16, (count - 1) as nat);
        let s = hex_digits(n, count);
        lemma_hex_digits_len(n / 16, (count - 1) as nat);
        assert(n / 16 < pow16((count - 1) as nat)) by {
            lemma_pow16_positive((count - 1) as nat);
            assert(pow16(count) == 16 * pow16((count - 1) as nat));
        }
        lemma_hex_digits_value(n / 16, (count - 1) as nat);
        assert(s.drop_last() =~= pre);
        assert(hex_char_value(hex_digit_char(n % 16)) == n % 16);
        assert(hex_value(s) == (n / 16) * 16 + n % 16);
        assert((n / 16) * 16 + n % 16 == n) by {
            vstd::arithmetic::div_mod::lemma_fundamental_div_mod(n, 16);
        }
    }
}

} // verus!
