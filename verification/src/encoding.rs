//! Byte- and text-level encodings shared by the key, address and transaction
//! types: little-endian 64-bit integers, lowercase hexadecimal, and canonical
//! decimal text.
use vstd::prelude::*;
use vstd::string::StrSliceExecFns;
use vstd::string::StringExecFns;

verus! {

/// Little-endian byte encoding of `n`, `k` bytes long.
pub open spec fn le_bytes(n: nat, k: nat) -> Seq<u8>
    decreases k,
{
    if k == 0 {
        Seq::empty()
    } else {
        seq![(n % 256) as u8] + le_bytes(n / 256, (k - 1) as nat)
    }
}

/// The value read back from a little-endian byte sequence.
pub open spec fn le_value(s: Seq<u8>) -> nat
    decreases s.len(),
{
    if s.len() == 0 {
        0
    } else {
        (s[0] + 256 * le_value(s.subrange(1, s.len() as int))) as nat
    }
}

pub open spec fn pow256(k: nat) -> nat
    decreases k,
{
    if k == 0 {
        1
    } else {
        256 * pow256((k - 1) as nat)
    }
}

pub proof fn lemma_le_bytes_len(n: nat, k: nat)
    ensures
        le_bytes(n, k).len() == k,
    decreases k,
{
    if k > 0 {
        lemma_le_bytes_len(n / 256, (k - 1) as nat);
    }
}

/// Reading back the little-endian encoding of `n < 256^k` recovers `n`.
pub proof fn lemma_le_round_trip(n: nat, k: nat)
    requires
        n < pow256(k),
    ensures
        le_value(le_bytes(n, k)) == n,
    decreases k,
{
    if k == 0 {
    } else {
        let s = le_bytes(n, k);
        let rest = le_bytes(n / 256, (k - 1) as nat);
        lemma_le_bytes_len(n / 256, (k - 1) as nat);
        assert(s.subrange(1, s.len() as int) =~= rest);
        lemma_le_round_trip(n / 256, (k - 1) as nat);
        assert(n == 256 * (n / 256) + n % 256) by (nonlinear_arith);
    }
}

proof fn lemma_pow256_64()
    ensures
        pow256(8) == 0x1_0000_0000_0000_0000,
{
    assert(pow256(0) == 1);
    assert(pow256(1) == 256);
    assert(pow256(2) == 0x1_0000);
    assert(pow256(3) == 0x100_0000);
    assert(pow256(4) == 0x1_0000_0000);
    assert(pow256(5) == 0x100_0000_0000);
    assert(pow256(6) == 0x1_0000_0000_0000);
    assert(pow256(7) == 0x100_0000_0000_0000);
    assert(pow256(8) == 0x1_0000_0000_0000_0000);
}

/// Little-endian encoding of a 64-bit value, eight bytes long.
pub open spec fn le64(n: u64) -> Seq<u8> {
    le_bytes(n as nat, 8)
}

pub proof fn lemma_le64_round_trip(n: u64)
    ensures
        le64(n).len() == 8,
        le_value(le64(n)) == n,
{
    lemma_pow256_64();
    lemma_le_bytes_len(n as nat, 8);
    lemma_le_round_trip(n as nat, 8);
}

/// Appends the eight little-endian bytes of `n` to `out`.
pub fn append_le64(out: &mut Vec<u8>, n: u64)
    ensures
        final(out)@ == old(out)@ + le64(n),
{
    let mut rem: u64 = n;
    let mut i: usize = 0;
    proof {
        assert(n as nat / 1 == n as nat);
    }
    while i < 8
        invariant
            i <= 8,
            out@ == old(out)@ + le_bytes(n as nat, i as nat),
            rem == n as nat / pow256(i as nat),
        decreases 8 - i,
    {
        proof {
            lemma_le_bytes_unfold_last(n as nat, i as nat);
        }
        out.push((rem % 256) as u8);
        rem = rem / 256;
        proof {
            assert(n as nat / pow256(i as nat) / 256 == n as nat / pow256((i + 1) as nat)) by {
                lemma_pow256_mono(0, i as nat);
                vstd::arithmetic::div_mod::lemma_div_denominator(
                    n as int,
                    pow256(i as nat) as int,
                    256,
                );
                lemma_pow256_step(i as nat);
            }
        }
        i = i + 1;
    }
    proof {
        lemma_le_bytes_len(n as nat, 8);
    }
}

proof fn lemma_pow256_step(k: nat)
    ensures
        pow256((k + 1) as nat) == pow256(k) * 256,
    decreases k,
{
    if k > 0 {
        lemma_pow256_step((k - 1) as nat);
        assert(256 * (pow256((k - 1) as nat) * 256) == (256 * pow256((k - 1) as nat)) * 256)
            by (nonlinear_arith);
    }
}

/// `le_bytes(n, k + 1)` is `le_bytes(n, k)` followed by byte `k`.
proof fn lemma_le_bytes_unfold_last(n: nat, k: nat)
    ensures
        le_bytes(n, (k + 1) as nat) =~= le_bytes(n, k) + seq![((n / pow256(k)) % 256) as u8],
    decreases k,
{
    if k == 0 {
        assert(le_bytes(n / 256, 0) =~= Seq::empty());
        assert(le_bytes(n, 0) =~= Seq::empty());
        assert(n / pow256(0) == n);
        assert(le_bytes(n, 1) =~= seq![(n % 256) as u8]);
    } else {
        lemma_le_bytes_unfold_last(n / 256, (k - 1) as nat);
        lemma_pow256_mono(0, (k - 1) as nat);
        vstd::arithmetic::div_mod::lemma_div_denominator(n as int, 256, pow256((k - 1) as nat) as int);
        lemma_pow256_step((k - 1) as nat);
        assert(256 * pow256((k - 1) as nat) == pow256((k - 1) as nat) * 256) by (nonlinear_arith);
        assert(le_bytes(n, (k + 1) as nat) =~= seq![(n % 256) as u8] + le_bytes(n / 256, k));
        assert(le_bytes(n, k) =~= seq![(n % 256) as u8] + le_bytes(n / 256, (k - 1) as nat));
    }
}

/// Reads a 64-bit value from eight little-endian bytes starting at `pos`.
pub fn read_le64(bytes: &[u8], pos: usize) -> (n: u64)
    requires
        pos + 8 <= bytes@.len(),
    ensures
        n == le_value(bytes@.subrange(pos as int, pos + 8)),
{
    let len: usize = bytes.len();
    let mut acc: u64 = 0;
    let mut i: usize = 8;
    while i > 0
        invariant
            i <= 8,
            pos + 8 <= bytes@.len(),
            bytes@.len() <= usize::MAX,
            acc == le_value(bytes@.subrange(pos + i, pos + 8)),
            acc < pow256((8 - i) as nat),
        decreases i,
    {
        i = i - 1;
        let b = bytes[pos + i];
        proof {
            let s = bytes@.subrange(pos + i, pos + 8);
            assert(s[0] == b);
            assert(s.subrange(1, s.len() as int) =~= bytes@.subrange(pos + i + 1, pos + 8));
            lemma_pow256_step((8 - i - 1) as nat);
            lemma_pow256_64();
            lemma_pow256_mono((8 - i) as nat, 8);
            assert(b + 256 * (acc as nat) < pow256((8 - i) as nat)) by (nonlinear_arith)
                requires
                    b < 256,
                    acc < pow256((8 - i - 1) as nat),
                    pow256((8 - i) as nat) == pow256((8 - i - 1) as nat) * 256,
            ;
        }
        acc = (b as u64) + 256 * acc;
    }
    proof {
        assert(bytes@.subrange(pos as int, pos + 8) =~= bytes@.subrange(pos + 0, pos + 8));
    }
    acc
}

proof fn lemma_pow256_mono(a: nat, b: nat)
    requires
        a <= b,
    ensures
        pow256(a) <= pow256(b),
    decreases b,
{
    if a < b && b > 0 {
        lemma_pow256_mono(a, (b - 1) as nat);
        assert(pow256((b - 1) as nat) <= 256 * pow256((b - 1) as nat)) by (nonlinear_arith)
            requires pow256((b - 1) as nat) >= 0,
        ;
    }
}


/// The lowercase hexadecimal digit for `d < 16`; also the decimal digit for `d < 10`.
pub open spec fn hex_digit(d: nat) -> char {
    if d == 0 { '0' } else if d == 1 { '1' } else if d == 2 { '2' } else if d == 3 { '3' }
    else if d == 4 { '4' } else if d == 5 { '5' } else if d == 6 { '6' } else if d == 7 { '7' }
    else if d == 8 { '8' } else if d == 9 { '9' } else if d == 10 { 'a' } else if d == 11 { 'b' }
    else if d == 12 { 'c' } else if d == 13 { 'd' } else if d == 14 { 'e' } else { 'f' }
}

pub open spec fn is_hex_char(c: char) -> bool {
    ('0' <= c && c <= '9') || ('a' <= c && c <= 'f')
}

/// The value of a hexadecimal digit character; meaningful only when `is_hex_char(c)`.
pub open spec fn hex_char_val(c: char) -> nat {
    if '0' <= c && c <= '9' {
        (c as nat - '0' as nat) as nat
    } else {
        (c as nat - 'a' as nat + 10) as nat
    }
}

pub proof fn lemma_hex_digit_inverse(d: nat)
    requires
        d < 16,
    ensures
        is_hex_char(hex_digit(d)),
        hex_char_val(hex_digit(d)) == d,
        d < 10 ==> '0' <= hex_digit(d) && hex_digit(d) <= '9',
{
}

/// Lowercase hexadecimal text of a byte sequence, two digits per byte.
pub open spec fn hex_of(s: Seq<u8>) -> Seq<char>
    decreases s.len(),
{
    if s.len() == 0 {
        Seq::empty()
    } else {
        seq![hex_digit(s[0] as nat / 16), hex_digit(s[0] as nat % 16)]
            + hex_of(s.subrange(1, s.len() as int))
    }
}

pub proof fn lemma_hex_of_len(s: Seq<u8>)
    ensures
        hex_of(s).len() == 2 * s.len(),
        forall|i: int| 0 <= i < hex_of(s).len() ==> is_hex_char(#[trigger] hex_of(s)[i]),
    decreases s.len(),
{
    if s.len() > 0 {
        lemma_hex_of_len(s.subrange(1, s.len() as int));
        lemma_hex_digit_inverse(s[0] as nat / 16);
        lemma_hex_digit_inverse(s[0] as nat % 16);
    }
}

pub proof fn lemma_hex_of_push(s: Seq<u8>, b: u8)
    ensures
        hex_of(s.push(b)) =~= hex_of(s) + seq![hex_digit(b as nat / 16), hex_digit(b as nat % 16)],
    decreases s.len(),
{
    if s.len() == 0 {
        assert(s.push(b).subrange(1, 1) =~= Seq::<u8>::empty());
        assert(s =~= Seq::<u8>::empty());
    } else {
        assert(s.push(b).subrange(1, s.len() as int + 1) =~= s.subrange(1, s.len() as int).push(b));
        lemma_hex_of_push(s.subrange(1, s.len() as int), b);
    }
}

/// Two distinct byte sequences never share a hexadecimal text.
pub proof fn lemma_hex_of_injective(a: Seq<u8>, b: Seq<u8>)
    requires
        hex_of(a) == hex_of(b),
    ensures
        a =~= b,
    decreases a.len(),
{
    lemma_hex_of_len(a);
    lemma_hex_of_len(b);
    if a.len() > 0 {
        lemma_hex_digit_inverse(a[0] as nat / 16);
        lemma_hex_digit_inverse(a[0] as nat % 16);
        lemma_hex_digit_inverse(b[0] as nat / 16);
        lemma_hex_digit_inverse(b[0] as nat % 16);
        assert(hex_of(a)[0] == hex_digit(a[0] as nat / 16));
        assert(hex_of(a)[1] == hex_digit(a[0] as nat % 16));
        assert(hex_of(b)[0] == hex_digit(b[0] as nat / 16));
        assert(hex_of(b)[1] == hex_digit(b[0] as nat % 16));
        assert(hex_of(a)[0] == hex_of(b)[0]);
        assert(hex_of(a)[1] == hex_of(b)[1]);
        assert(a[0] as nat / 16 == hex_char_val(hex_digit(a[0] as nat / 16)));
        assert(a[0] as nat / 16 == b[0] as nat / 16);
        assert(a[0] as nat % 16 == b[0] as nat % 16);
        assert(a[0] == b[0]);
        assert(hex_of(a.subrange(1, a.len() as int)) =~= hex_of(a).subrange(2, hex_of(a).len() as int));
        assert(hex_of(b.subrange(1, b.len() as int)) =~= hex_of(b).subrange(2, hex_of(b).len() as int));
        lemma_hex_of_injective(a.subrange(1, a.len() as int), b.subrange(1, b.len() as int));
        assert(a =~= seq![a[0]] + a.subrange(1, a.len() as int));
        assert(b =~= seq![b[0]] + b.subrange(1, b.len() as int));
    }
}

/// Appends the character for hexadecimal digit `d` to `out`.
pub fn append_digit_char(out: &mut String, d: u8)
    requires
        d < 16,
    ensures
        final(out)@ == old(out)@ + seq![hex_digit(d as nat)],
{
    match d {
        0 => { proof { reveal_strlit("0"); } out.append("0"); }
        1 => { proof { reveal_strlit("1"); } out.append("1"); }
        2 => { proof { reveal_strlit("2"); } out.append("2"); }
        3 => { proof { reveal_strlit("3"); } out.append("3"); }
        4 => { proof { reveal_strlit("4"); } out.append("4"); }
        5 => { proof { reveal_strlit("5"); } out.append("5"); }
        6 => { proof { reveal_strlit("6"); } out.append("6"); }
        7 => { proof { reveal_strlit("7"); } out.append("7"); }
        8 => { proof { reveal_strlit("8"); } out.append("8"); }
        9 => { proof { reveal_strlit("9"); } out.append("9"); }
        10 => { proof { reveal_strlit("a"); } out.append("a"); }
        11 => { proof { reveal_strlit("b"); } out.append("b"); }
        12 => { proof { reveal_strlit("c"); } out.append("c"); }
        13 => { proof { reveal_strlit("d"); } out.append("d"); }
        14 => { proof { reveal_strlit("e"); } out.append("e"); }
        _ => { proof { reveal_strlit("f"); } out.append("f"); }
    }
}

/// Appends the hexadecimal text of `bytes` to `out`.
pub fn append_hex(out: &mut String, bytes: &Vec<u8>)
    ensures
        final(out)@ == old(out)@ + hex_of(bytes@),
{
    let mut i: usize = 0;
    while i < bytes.len()
        invariant
            i <= bytes@.len(),
            out@ == old(out)@ + hex_of(bytes@.subrange(0, i as int)),
        decreases bytes@.len() - i,
    {
        let b = bytes[i];
        proof {
            assert(bytes@.subrange(0, i + 1) =~= bytes@.subrange(0, i as int).push(b));
            lemma_hex_of_push(bytes@.subrange(0, i as int), b);
        }
        append_digit_char(out, b / 16);
        append_digit_char(out, b % 16);
        i = i + 1;
    }
    proof {
        assert(bytes@.subrange(0, bytes@.len() as int) =~= bytes@);
    }
}

/// Reads the value of one hexadecimal digit character, if it is one.
pub fn hex_char_value(c: char) -> (r: Option<u8>)
    ensures
        match r {
            Some(d) => is_hex_char(c) && d < 16 && d as nat == hex_char_val(c),
            None => !is_hex_char(c),
        },
{
    if '0' <= c && c <= '9' {
        Some((c as u32 - '0' as u32) as u8)
    } else if 'a' <= c && c <= 'f' {
        Some((c as u32 - 'a' as u32 + 10) as u8)
    } else {
        None
    }
}

/// Decodes a full hexadecimal text into bytes. Returns the bytes exactly when
/// the text is the hexadecimal form of some byte sequence.
pub fn decode_hex(s: &str) -> (r: Option<Vec<u8>>)
    ensures
        match r {
            Some(v) => s@ == hex_of(v@),
            None => forall|b: Seq<u8>| s@ != hex_of(b),
        },
{
    let n = s.unicode_len();
    if n % 2 != 0 {
        proof {
            assert forall|b: Seq<u8>| s@ != hex_of(b) by {
                lemma_hex_of_len(b);
            }
        }
        return None;
    }
    let mut out: Vec<u8> = Vec::new();
    let mut i: usize = 0;
    while i < n
        invariant
            i <= n,
            i % 2 == 0,
            n % 2 == 0,
            n == s@.len(),
            out@.len() * 2 == i,
            s@.subrange(0, i as int) == hex_of(out@),
        decreases n - i,
    {
        let hi = match hex_char_value(s.get_char(i)) {
            Some(d) => d,
            None => {
                proof {
                    assert forall|b: Seq<u8>| s@ != hex_of(b) by {
                        lemma_hex_of_len(b);
                    }
                }
                return None;
            }
        };
        let lo = match hex_char_value(s.get_char(i + 1)) {
            Some(d) => d,
            None => {
                proof {
                    assert forall|b: Seq<u8>| s@ != hex_of(b) by {
                        lemma_hex_of_len(b);
                    }
                }
                return None;
            }
        };
        let b: u8 = hi * 16 + lo;
        proof {
            lemma_hex_of_push(out@, b);
            lemma_hex_digit_inverse(b as nat / 16);
            lemma_hex_digit_inverse(b as nat % 16);
            assert(b as nat / 16 == hi as nat);
            assert(b as nat % 16 == lo as nat);
            assert(hex_digit(b as nat / 16) == s@[i as int]) by {
                lemma_hex_digit_unique(b as nat / 16, s@[i as int]);
            }
            assert(hex_digit(b as nat % 16) == s@[i + 1]) by {
                lemma_hex_digit_unique(b as nat % 16, s@[i + 1]);
            }
            assert(s@.subrange(0, i + 2) =~= s@.subrange(0, i as int) + seq![s@[i as int], s@[i + 1]]);
        }
        out.push(b);
        i = i + 2;
    }
    proof {
        assert(s@.subrange(0, n as int) =~= s@);
    }
    Some(out)
}

/// A hexadecimal digit character names exactly one digit value.
proof fn lemma_hex_digit_unique(d: nat, c: char)
    requires
        d < 16,
        is_hex_char(c),
        hex_char_val(c) == d,
    ensures
        hex_digit(d) == c,
{
    lemma_hex_digit_inverse(d);
}

/// Canonical decimal text of `n`: no sign, no leading zeros.
pub open spec fn dec_text(n: nat) -> Seq<char>
    decreases n,
{
    if n < 10 {
        seq![hex_digit(n)]
    } else {
        dec_text(n / 10) + seq![hex_digit(n % 10)]
    }
}

pub open spec fn is_dec_char(c: char) -> bool {
    '0' <= c && c <= '9'
}

pub proof fn lemma_dec_text_len(n: nat)
    ensures
        dec_text(n).len() >= 1,
        forall|i: int| 0 <= i < dec_text(n).len() ==> is_dec_char(#[trigger] dec_text(n)[i]),
        dec_text(n)[0] == '0' <==> n == 0,
    decreases n,
{
    if n < 10 {
        lemma_hex_digit_inverse(n);
    } else {
        lemma_dec_text_len(n / 10);
        lemma_hex_digit_inverse(n % 10);
    }
}

/// The value read from left-folding decimal digits; digits beyond `'9'` never occur
/// in text this library accepts.
pub open spec fn dec_val(s: Seq<char>) -> nat
    decreases s.len(),
{
    if s.len() == 0 {
        0
    } else {
        (dec_val(s.drop_last()) * 10 + hex_char_val(s.last())) as nat
    }
}

pub proof fn lemma_dec_round_trip(n: nat)
    ensures
        dec_val(dec_text(n)) == n,
    decreases n,
{
    if n < 10 {
        lemma_hex_digit_inverse(n);
        let s = dec_text(n);
        assert(s =~= seq![hex_digit(n)]);
        assert(s.drop_last() =~= Seq::<char>::empty());
        assert(s.last() == hex_digit(n));
        assert(dec_val(s) == dec_val(s.drop_last()) * 10 + hex_char_val(s.last()));
        assert(dec_val(s.drop_last()) == 0);
    } else {
        lemma_dec_round_trip(n / 10);
        lemma_hex_digit_inverse(n % 10);
        let s = dec_text(n);
        assert(s.drop_last() =~= dec_text(n / 10));
        assert(s.last() == hex_digit(n % 10));
        assert(n == (n / 10) * 10 + n % 10) by (nonlinear_arith);
    }
}

/// Appends the decimal text of `n` to `out`.
pub fn append_dec(out: &mut String, n: u64)
    ensures
        final(out)@ == old(out)@ + dec_text(n as nat),
    decreases n,
{
    if n >= 10 {
        append_dec(out, n / 10);
    }
    append_digit_char(out, (n % 10) as u8);
}


/// Characters that may stand raw inside a quoted text field: anything but the
/// quote itself and the escape character, which this codec never emits.
pub open spec fn is_plain_char(c: char) -> bool {
    c != '"' && c != '\\'
}

pub open spec fn plain_text(s: Seq<char>) -> bool {
    forall|i: int| 0 <= i < s.len() ==> is_plain_char(#[trigger] s[i])
}

/// Whether two strings hold the same characters.
pub fn text_eq(a: &str, b: &str) -> (r: bool)
    ensures
        r == (a@ == b@),
{
    let na = a.unicode_len();
    let nb = b.unicode_len();
    if na != nb {
        return false;
    }
    let mut i: usize = 0;
    while i < na
        invariant
            i <= na,
            na == a@.len(),
            na == b@.len(),
            forall|k: int| 0 <= k < i ==> a@[k] == b@[k],
        decreases na - i,
    {
        if a.get_char(i) != b.get_char(i) {
            return false;
        }
        i = i + 1;
    }
    proof {
        assert(a@ =~= b@);
    }
    true
}

/// Whether `lit` occurs in `s` starting at `pos`.
pub fn expect_lit(s: &str, pos: usize, lit: &str) -> (r: bool)
    requires
        pos <= s@.len(),
    ensures
        r == (pos + lit@.len() <= s@.len() && s@.subrange(pos as int, pos + lit@.len()) == lit@),
{
    let n = s.unicode_len();
    let m = lit.unicode_len();
    if m > n - pos {
        proof {
            if pos + lit@.len() <= s@.len() {
                assert(false);
            }
        }
        return false;
    }
    let mut j: usize = 0;
    while j < m
        invariant
            j <= m,
            m == lit@.len(),
            n == s@.len(),
            pos + m <= n,
            forall|k: int| 0 <= k < j ==> s@[pos + k] == lit@[k],
        decreases m - j,
    {
        if s.get_char(pos + j) != lit.get_char(j) {
            proof {
                if s@.subrange(pos as int, pos + lit@.len()) == lit@ {
                    assert(s@.subrange(pos as int, pos + lit@.len())[j as int] == lit@[j as int]);
                    assert(false);
                }
            }
            return false;
        }
        j = j + 1;
    }
    proof {
        assert(s@.subrange(pos as int, pos + lit@.len()) =~= lit@);
    }
    true
}

/// Finds the closing quote of a text field starting at `pos`: the first `"`
/// at or after `pos`, provided everything before it is a plain character.
pub fn scan_plain(s: &str, pos: usize) -> (r: Option<usize>)
    requires
        pos <= s@.len(),
    ensures
        match r {
            Some(end) => pos <= end < s@.len() && s@[end as int] == '"' && (forall|k: int|
                pos <= k < end ==> is_plain_char(#[trigger] s@[k])),
            None => forall|e: int|
                pos <= e < s@.len() && s@[e] == '"' ==> !(forall|k: int|
                    pos <= k < e ==> is_plain_char(#[trigger] s@[k])),
        },
{
    let n = s.unicode_len();
    let mut i: usize = pos;
    while i < n
        invariant
            pos <= i <= n,
            n == s@.len(),
            forall|k: int| pos <= k < i ==> is_plain_char(#[trigger] s@[k]),
        decreases n - i,
    {
        let c = s.get_char(i);
        if c == '"' {
            return Some(i);
        }
        if c == '\\' {
            proof {
                assert forall|e: int|
                    pos <= e < s@.len() && s@[e] == '"' implies !(forall|k: int|
                    pos <= k < e ==> is_plain_char(#[trigger] s@[k])) by {
                    if forall|k: int| pos <= k < e ==> is_plain_char(#[trigger] s@[k]) {
                        assert(e != i);
                        if e < i {
                            assert(s@[e] == '"' && is_plain_char(s@[e]));
                        } else {
                            assert(is_plain_char(s@[i as int]));
                        }
                        assert(false);
                    }
                }
            }
            return None;
        }
        i = i + 1;
    }
    None
}

/// Reads a canonical decimal number starting at `pos`: one or more digits, no
/// leading zero, value fitting a machine word, ending at the first non-digit.
/// Exactly the spans `dec_text` produces are accepted.
#[verifier::loop_isolation(false)]
pub fn parse_dec(s: &str, pos: usize) -> (r: Option<(u64, usize)>)
    requires
        pos <= s@.len(),
    ensures
        match r {
            Some(ve) => pos < ve.1 <= s@.len() && s@.subrange(pos as int, ve.1 as int) == dec_text(
                ve.0 as nat,
            ) && (ve.1 == s@.len() || !is_dec_char(s@[ve.1 as int])),
            None => forall|v: u64, e: int|
                pos <= e <= s@.len() ==> !(s@.subrange(pos as int, e) == dec_text(v as nat) && (e
                    == s@.len() || !is_dec_char(s@[e]))),
        },
{
    let n = s.unicode_len();
    if pos >= n {
        proof {
            lemma_no_dec_here(s@, pos as int);
        }
        return None;
    }
    let first = s.get_char(pos);
    if !('0' <= first && first <= '9') {
        proof {
            lemma_no_dec_here(s@, pos as int);
        }
        return None;
    }
    if first == '0' && pos + 1 < n {
        let second = s.get_char(pos + 1);
        if '0' <= second && second <= '9' {
            proof {
                assert forall|v: u64, e: int|
                    pos <= e <= s@.len() implies !(s@.subrange(pos as int, e) == dec_text(
                    v as nat,
                ) && (e == s@.len() || !is_dec_char(s@[e]))) by {
                    if s@.subrange(pos as int, e) == dec_text(v as nat) && (e == s@.len()
                        || !is_dec_char(s@[e])) {
                        lemma_dec_text_len(v as nat);
                        assert(dec_text(v as nat)[0] == s@[pos as int]);
                        assert(v == 0);
                        assert(dec_text(0).len() == 1);
                        assert(e == pos + 1);
                        assert(is_dec_char(s@[e]));
                        assert(false);
                    }
                }
            }
            return None;
        }
    }
    let mut acc: u64 = 0;
    let mut i: usize = pos;
    while i < n
        invariant
            pos <= i <= n,
            acc == dec_val(s@.subrange(pos as int, i as int)),
            forall|k: int| pos <= k < i ==> is_dec_char(#[trigger] s@[k]),
        decreases n - i,
    {
        let c = s.get_char(i);
        if !('0' <= c && c <= '9') {
            break;
        }
        let d: u64 = (c as u32 - '0' as u32) as u64;
        proof {
            assert(s@.subrange(pos as int, i + 1).drop_last() =~= s@.subrange(pos as int, i as int));
            assert(s@.subrange(pos as int, i + 1).last() == s@[i as int]);
            assert(hex_char_val(s@[i as int]) == d);
        }
        if acc > (u64::MAX - d) / 10 {
            proof {
                lemma_dec_overflow(s@, pos as int, i as int, acc, d);
            }
            return None;
        }
        acc = acc * 10 + d;
        i = i + 1;
    }
    proof {
        let span = s@.subrange(pos as int, i as int);
        lemma_dec_canon(span, acc as nat);
        if i < n {
            assert(!is_dec_char(s@[i as int]));
        }
        assert forall|v: u64, e: int|
            pos <= e <= s@.len() && s@.subrange(pos as int, e) == dec_text(v as nat) && (e
                == s@.len() || !is_dec_char(s@[e])) implies v == acc && e == i by {
            lemma_dec_text_len(v as nat);
            if e < i {
                assert(is_dec_char(s@[e]));
                assert(false);
            }
            if e > i {
                assert(dec_text(v as nat)[i - pos] == s@[i as int]);
                assert(is_dec_char(s@[i as int]));
                assert(false);
            }
            assert(s@.subrange(pos as int, e) == span);
            lemma_dec_injective(span, v as nat, acc as nat);
        }
    }
    Some((acc, i))
}

/// No canonical decimal can start where there is no digit.
proof fn lemma_no_dec_here(s: Seq<char>, pos: int)
    requires
        0 <= pos <= s.len(),
        pos == s.len() || !is_dec_char(s[pos]),
    ensures
        forall|v: u64, e: int|
            pos <= e <= s.len() ==> !(s.subrange(pos, e) == dec_text(v as nat) && (e == s.len()
                || !is_dec_char(s[e]))),
{
    assert forall|v: u64, e: int|
        pos <= e <= s.len() && s.subrange(pos, e) == dec_text(v as nat) implies false by {
        lemma_dec_text_len(v as nat);
        assert(s.subrange(pos, e)[0] == s[pos]);
        assert(is_dec_char(s[pos]));
    }
}

/// Digit-sequence values only grow as more digits are read.
proof fn lemma_dec_val_take_le(d: Seq<char>, j: int)
    requires
        0 <= j <= d.len(),
    ensures
        dec_val(d.take(j)) <= dec_val(d),
    decreases d.len() - j,
{
    if j < d.len() {
        assert(d.take(j + 1).drop_last() =~= d.take(j));
        lemma_dec_val_take_le(d, j + 1);
    } else {
        assert(d.take(j) =~= d);
    }
}

/// If the accumulated value would overflow, no canonical decimal fits here.
proof fn lemma_dec_overflow(s: Seq<char>, pos: int, i: int, acc: u64, d: u64)
    requires
        0 <= pos <= i < s.len(),
        acc == dec_val(s.subrange(pos, i)),
        is_dec_char(s[i]),
        d < 10,
        hex_char_val(s[i]) == d,
        forall|k: int| pos <= k < i ==> is_dec_char(#[trigger] s[k]),
        acc * 10 + d > u64::MAX,
    ensures
        forall|v: u64, e: int|
            pos <= e <= s.len() ==> !(s.subrange(pos, e) == dec_text(v as nat) && (e == s.len()
                || !is_dec_char(s[e]))),
{
    assert forall|v: u64, e: int|
        pos <= e <= s.len() && s.subrange(pos, e) == dec_text(v as nat) && (e == s.len()
            || !is_dec_char(s[e])) implies false by {
        let dt = dec_text(v as nat);
        lemma_dec_text_len(v as nat);
        lemma_dec_round_trip(v as nat);
        if e <= i {
            assert(is_dec_char(s[e]) || e == s.len());
            assert(e < s.len() ==> is_dec_char(s[e]));
            assert(e <= i && i < s.len());
            if e < i {
                assert(is_dec_char(s[e]));
                assert(false);
            } else {
                assert(e == i);
                assert(is_dec_char(s[i]));
                assert(false);
            }
        } else {
            assert(s.subrange(pos, i + 1) =~= dt.take(i + 1 - pos));
            assert(dt.take(i + 1 - pos).drop_last() =~= dt.take(i - pos));
            assert(s.subrange(pos, i) =~= dt.take(i - pos));
            assert(dec_val(dt.take(i + 1 - pos)) == dec_val(dt.take(i - pos)) * 10 + hex_char_val(
                dt.take(i + 1 - pos).last(),
            ));
            assert(dt.take(i + 1 - pos).last() == s[i]);
            lemma_dec_val_take_le(dt, i + 1 - pos);
            assert(dec_val(dt.take(i + 1 - pos)) <= v);
            assert(acc * 10 + d <= v);
            assert(false);
        }
    }
}

/// A digit run with no leading zero is the canonical text of its value.
proof fn lemma_dec_canon(d: Seq<char>, n: nat)
    requires
        d.len() >= 1,
        forall|k: int| 0 <= k < d.len() ==> is_dec_char(#[trigger] d[k]),
        d.len() > 1 ==> d[0] != '0',
        dec_val(d) == n,
    ensures
        d =~= dec_text(n),
    decreases d.len(),
{
    if d.len() == 1 {
        assert(d.drop_last() =~= Seq::<char>::empty());
        assert(dec_val(d) == dec_val(d.drop_last()) * 10 + hex_char_val(d.last()));
        assert(dec_val(d.drop_last()) == 0);
        assert(d.last() == d[0]);
        assert(n == hex_char_val(d[0]));
        assert(n < 10);
        lemma_hex_digit_inverse(n);
        assert(hex_digit(n) == d[0]) by {
            lemma_dec_char_unique(n, d[0]);
        }
        assert(dec_text(n) =~= seq![hex_digit(n)]);
    } else {
        let front = d.drop_last();
        assert(front.len() >= 1);
        assert(forall|k: int| 0 <= k < front.len() ==> is_dec_char(#[trigger] front[k]));
        lemma_dec_lower_bound(front);
        let m = dec_val(front);
        assert(n == m * 10 + hex_char_val(d.last()));
        assert(hex_char_val(d.last()) < 10);
        assert(m >= 1);
        assert(n >= 10) by (nonlinear_arith)
            requires
                n == m * 10 + hex_char_val(d.last()),
                m >= 1,
                hex_char_val(d.last()) >= 0,
        ;
        assert(n / 10 == m && n % 10 == hex_char_val(d.last())) by (nonlinear_arith)
            requires
                n == m * 10 + hex_char_val(d.last()),
                hex_char_val(d.last()) < 10,
        ;
        lemma_dec_canon(front, m);
        lemma_hex_digit_inverse(n % 10);
        lemma_dec_char_unique(n % 10, d.last());
        assert(dec_text(n) =~= dec_text(n / 10) + seq![hex_digit(n % 10)]);
        assert(d =~= front.push(d.last()));
    }
}

/// A nonzero-leading digit run has value at least one.
proof fn lemma_dec_lower_bound(d: Seq<char>)
    requires
        d.len() >= 1,
        forall|k: int| 0 <= k < d.len() ==> is_dec_char(#[trigger] d[k]),
        d[0] != '0',
    ensures
        dec_val(d) >= 1,
    decreases d.len(),
{
    if d.len() == 1 {
        assert(hex_char_val(d[0]) >= 1);
    } else {
        let front = d.drop_last();
        lemma_dec_lower_bound(front);
        assert(dec_val(d) == dec_val(front) * 10 + hex_char_val(d.last()));
        assert(dec_val(front) * 10 >= 10) by (nonlinear_arith)
            requires
                dec_val(front) >= 1,
        ;
    }
}

/// A decimal digit character names exactly one value below ten.
proof fn lemma_dec_char_unique(v: nat, c: char)
    requires
        v < 10,
        is_dec_char(c),
        hex_char_val(c) == v,
    ensures
        hex_digit(v) == c,
{
    lemma_hex_digit_inverse(v);
}

/// Two digit runs with equal contents carry equal values; used to pin the
/// parsed value when a span matches a canonical decimal.
proof fn lemma_dec_injective(span: Seq<char>, v: nat, w: nat)
    requires
        span == dec_text(v),
        dec_val(span) == w,
    ensures
        v == w,
{
    lemma_dec_round_trip(v);
}

} // verus!
