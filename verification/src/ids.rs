//! Identifier generation.
//!
//! Issue ids are `<store-prefix>-<short_hash(title + created_at_ms)>`
//! (e.g. `demo-daffe9`). Comment ids are monotonic ULIDs.

use vstd::prelude::*;

use crate::text::push_char;

verus! {

/// The FNV-1a 64-bit offset basis.
pub const FNV_OFFSET: u64 = 0xcbf2_9ce4_8422_2325;

/// The FNV-1a 64-bit prime.
pub const FNV_PRIME: u64 = 0x0100_0000_01b3;

/// `a * b` modulo 2^64.
pub open spec fn mul_wrap(a: u64, b: u64) -> u64 {
    ((a as nat * b as nat) % 0x1_0000_0000_0000_0000nat) as u64
}

/// `a + b` modulo 2^64.
pub open spec fn add_wrap(a: u64, b: u64) -> u64 {
    ((a as nat + b as nat) % 0x1_0000_0000_0000_0000nat) as u64
}

/// FNV-1a 64 over `bytes`.
pub open spec fn fnv1a(bytes: Seq<u8>) -> u64
    decreases bytes.len(),
{
    if bytes.len() == 0 {
        FNV_OFFSET
    } else {
        mul_wrap(fnv1a(bytes.drop_last()) ^ (bytes.last() as u64), FNV_PRIME)
    }
}

/// The lowercase hex digit for `d` (`0 <= d < 16`).
pub open spec fn hex_char(d: nat) -> char {
    if d < 10 {
        (('0' as u32) + d) as char
    } else {
        (('a' as u32) + (d - 10)) as char
    }
}

/// `n` hex digits of `h`, least significant nibble first.
pub open spec fn hex_nibbles(h: nat, n: nat) -> Seq<char>
    decreases n,
{
    if n == 0 {
        Seq::empty()
    } else {
        seq![hex_char(h % 16)] + hex_nibbles(h / 16, (n - 1) as nat)
    }
}

/// The short hash of `bytes`: six lowercase hex characters of their FNV-1a
/// 64 hash, taken nibble-wise from the least significant end.
pub open spec fn short_hash_spec(bytes: Seq<u8>) -> Seq<char> {
    hex_nibbles(fnv1a(bytes) as nat, 6)
}

/// A lowercase hex digit.
pub open spec fn is_lower_hex(c: char) -> bool {
    ('0' as u32) <= (c as u32) <= ('9' as u32) || ('a' as u32) <= (c as u32) <= ('f' as u32)
}

fn hex_char_exec(d: u64) -> (c: char)
    requires
        d < 16,
    ensures
        c == hex_char(d as nat),
{
    let table: [char; 16] = [
        '0', '1', '2', '3', '4', '5', '6', '7', '8', '9', 'a', 'b', 'c', 'd', 'e', 'f',
    ];
    let c = table[d as usize];
    assert(c == hex_char(d as nat)) by {
        assert(table@[d as int] == hex_char(d as nat));
    }
    c
}

/// Six lowercase hex characters derived from an FNV-1a 64-bit hash of the
/// UTF-8 bytes of `content`, low nibble first (matching the ids in
/// existing stores).
pub fn short_hash(content: &str) -> (r: String)
    ensures
        r@ == short_hash_spec(vstd::utf8::encode_utf8(content@)),
{
    let bytes = content.as_bytes();
    let mut hash: u64 = FNV_OFFSET;
    let mut i: usize = 0;
    while i < bytes.len()
        invariant
            i <= bytes@.len(),
            bytes@ == vstd::utf8::encode_utf8(content@),
            hash == fnv1a(bytes@.take(i as int)),
        decreases bytes@.len() - i,
    {
        assert(bytes@.take(i + 1).drop_last() =~= bytes@.take(i as int));
        hash = (hash ^ (bytes[i] as u64)).wrapping_mul(FNV_PRIME);
        i = i + 1;
    }
    assert(bytes@.take(bytes@.len() as int) =~= bytes@);
    let ghost h0 = hash;
    let mut out = String::new();
    let mut k: u64 = 0;
    while k < 6
        invariant
            k <= 6,
            out@ + hex_nibbles(hash as nat, (6 - k) as nat) == hex_nibbles(h0 as nat, 6),
        decreases 6 - k,
    {
        let d = hash % 16;
        push_char(&mut out, hex_char_exec(d));
        assert(hex_nibbles(hash as nat, (6 - k) as nat) == seq![hex_char(d as nat)] + hex_nibbles(
            (hash / 16) as nat,
            (6 - k - 1) as nat,
        ));
        hash = hash / 16;
        k = k + 1;
        assert(out@ + hex_nibbles(hash as nat, (6 - k) as nat) =~= hex_nibbles(h0 as nat, 6));
    }
    assert(out@ =~= hex_nibbles(h0 as nat, 6));
    out
}

proof fn lemma_hex_nibbles_shape(h: nat, n: nat)
    ensures
        hex_nibbles(h, n).len() == n,
        forall|i: int| 0 <= i < n ==> is_lower_hex(#[trigger] hex_nibbles(h, n)[i]),
    decreases n,
{
    if n > 0 {
        lemma_hex_nibbles_shape(h / 16, (n - 1) as nat);
        let d = h % 16;
        assert(is_lower_hex(hex_char(d)));
        assert forall|i: int| 0 <= i < n implies is_lower_hex(#[trigger] hex_nibbles(h, n)[i]) by {
            if i > 0 {
                assert(hex_nibbles(h, n)[i] == hex_nibbles(h / 16, (n - 1) as nat)[i - 1]);
            }
        }
    }
}

/// Every short hash is exactly six lowercase hex characters.
pub proof fn lemma_short_hash_shape(bytes: Seq<u8>)
    ensures
        short_hash_spec(bytes).len() == 6,
        forall|i: int| 0 <= i < 6 ==> is_lower_hex(#[trigger] short_hash_spec(bytes)[i]),
{
    lemma_hex_nibbles_shape(fnv1a(bytes) as nat, 6);
}

// ---------------------------------------------------------------- ULIDs

/// 2^48: timestamps are kept modulo this.
pub const TS_MOD: u64 = 0x1_0000_0000_0000;

/// 2^80: the random tail is kept modulo this.
pub const RAND_MOD: u128 = 0x1_0000_0000_0000_0000_0000;

/// The state step of the generator's pseudo-random source.
pub open spec fn mix_state(s: u64) -> u64 {
    add_wrap(s, 0x9E37_79B9_7F4A_7C15)
}

/// The output of the generator's pseudo-random source for the stepped
/// state `z`.
pub open spec fn mix_output(z: u64) -> u64 {
    let a = mul_wrap(z ^ (z >> 30u64), 0xBF58_1CE4_E5B9);
    let b = mul_wrap(a ^ (a >> 27u64), 0x94D0_49BB_1331_11EB);
    b ^ (b >> 31u64)
}

/// The Crockford base32 digit for `d` (`0 <= d < 32`): the alphabet
/// `0123456789ABCDEFGHJKMNPQRSTVWXYZ`.
pub open spec fn crockford_char(d: nat) -> char {
    if d < 10 {
        (('0' as u32) + d) as char
    } else if d < 18 {
        (('A' as u32) + (d - 10)) as char
    } else if d < 20 {
        (('J' as u32) + (d - 18)) as char
    } else if d < 22 {
        (('M' as u32) + (d - 20)) as char
    } else if d < 27 {
        (('P' as u32) + (d - 22)) as char
    } else {
        (('V' as u32) + (d - 27)) as char
    }
}

/// A Crockford base32 digit.
pub open spec fn is_crockford(c: char) -> bool {
    exists|d: nat| d < 32 && crockford_char(d) == c
}

/// The last `n` base32 digits of `v`, most significant first.
pub open spec fn base32_digits(v: nat, n: nat) -> Seq<char>
    decreases n,
{
    if n == 0 {
        Seq::empty()
    } else {
        base32_digits(v / 32, (n - 1) as nat).push(crockford_char(v % 32))
    }
}

/// The 26-character ULID text of the 128-bit value `v`.
pub open spec fn ulid_text(v: nat) -> Seq<char> {
    base32_digits(v, 26)
}

/// The 128-bit value of a ULID with millisecond timestamp `ms` and random
/// tail `rand`.
pub open spec fn ulid_value(ms: nat, rand: nat) -> nat {
    ms * (RAND_MOD as nat) + rand
}

/// Monotonic ULID generator: 26 characters of Crockford base32, a 48-bit
/// millisecond timestamp prefix and an 80-bit tail.
pub struct UlidGenerator {
    state: u64,
    last_ms: u64,
    last_rand: u128,
}

/// The plain-value model of a [`UlidGenerator`].
pub struct UlidGeneratorView {
    pub state: u64,
    pub last_ms: nat,
    pub last_rand: nat,
}

impl View for UlidGenerator {
    type V = UlidGeneratorView;

    closed spec fn view(&self) -> UlidGeneratorView {
        UlidGeneratorView {
            state: self.state,
            last_ms: self.last_ms as nat,
            last_rand: self.last_rand as nat,
        }
    }
}

/// The tail the generator uses for timestamp `ts` (already reduced modulo
/// 2^48): fresh pseudo-random bits when time advanced, else the previous
/// tail plus one (modulo 2^80).
pub open spec fn next_rand(g: UlidGeneratorView, ts: nat) -> nat {
    if ts > g.last_ms {
        let s1 = mix_state(g.state);
        let s2 = mix_state(s1);
        (mix_output(s1) as nat) * 0x1_0000 + (mix_output(s2) as nat) % 0x1_0000
    } else {
        (g.last_rand + 1) % (RAND_MOD as nat)
    }
}

/// The generator state after issuing a ULID for timestamp `ts` (reduced).
pub open spec fn next_state(g: UlidGeneratorView, ts: nat) -> UlidGeneratorView {
    UlidGeneratorView {
        state: if ts > g.last_ms { mix_state(mix_state(g.state)) } else { g.state },
        last_ms: ts,
        last_rand: next_rand(g, ts),
    }
}

/// The ULID that the generator most recently issued (or would have, for a
/// fresh generator).
pub open spec fn last_ulid(g: UlidGeneratorView) -> Seq<char> {
    ulid_text(ulid_value(g.last_ms, g.last_rand))
}

/// Strict lexicographic order on character sequences (by code point).
pub open spec fn seq_lt(a: Seq<char>, b: Seq<char>) -> bool {
    exists|k: int|
        0 <= k <= a.len() && k <= b.len() && a.subrange(0, k) == b.subrange(0, k) && (k < a.len()
            && k < b.len() && (a[k] as u32) < (b[k] as u32) || k == a.len() && k < b.len())
}

impl UlidGenerator {
    /// The generator's bounds: a 48-bit timestamp and an 80-bit tail.
    pub closed spec fn wf(&self) -> bool {
        self.last_ms < TS_MOD && self.last_rand < RAND_MOD
    }

    /// A generator whose random tail is seeded deterministically; the same
    /// seed and timestamp sequence reproduce the same ULID sequence.
    pub fn from_seed(seed: u64) -> (r: Self)
        ensures
            r.wf(),
            r@ == (UlidGeneratorView { state: seed, last_ms: 0, last_rand: 0 }),
    {
        UlidGenerator { state: seed, last_ms: 0, last_rand: 0 }
    }

    fn next_u64(&mut self) -> (r: u64)
        ensures
            final(self).state == mix_state(old(self).state),
            r == mix_output(final(self).state),
            final(self).last_ms == old(self).last_ms,
            final(self).last_rand == old(self).last_rand,
    {
        self.state = self.state.wrapping_add(0x9E37_79B9_7F4A_7C15);
        let mut z = self.state;
        z = (z ^ (z >> 30)).wrapping_mul(0xBF58_1CE4_E5B9);
        z = (z ^ (z >> 27)).wrapping_mul(0x94D0_49BB_1331_11EB);
        z ^ (z >> 31)
    }

    /// The next ULID for the given millisecond timestamp.
    ///
    /// When `timestamp_ms` does not advance past the previous call, the
    /// 80-bit tail increments instead of re-randomizing, so ULIDs generated
    /// within one millisecond still sort strictly ascending.
    pub fn next(&mut self, timestamp_ms: u64) -> (r: String)
        requires
            old(self).wf(),
        ensures
            final(self).wf(),
            final(self)@ == next_state(old(self)@, (timestamp_ms % TS_MOD) as nat),
            r@ == last_ulid(final(self)@),
    {
        let ts = timestamp_ms % TS_MOD;
        let rand80: u128 = if ts > self.last_ms {
            let hi = self.next_u64() as u128;
            let lo = (self.next_u64() % 0x1_0000) as u128;
            hi * 0x1_0000 + lo
        } else {
            (self.last_rand + 1) % RAND_MOD
        };
        self.last_ms = ts;
        self.last_rand = rand80;
        let value: u128 = (ts as u128) * RAND_MOD + rand80;
        encode_base32_26(value)
    }
}

fn crockford_exec(d: u128) -> (c: char)
    requires
        d < 32,
    ensures
        c == crockford_char(d as nat),
{
    let table: [char; 32] = [
        '0', '1', '2', '3', '4', '5', '6', '7', '8', '9', 'A', 'B', 'C', 'D', 'E', 'F', 'G', 'H',
        'J', 'K', 'M', 'N', 'P', 'Q', 'R', 'S', 'T', 'V', 'W', 'X', 'Y', 'Z',
    ];
    table[d as usize]
}

fn encode_base32_26(value: u128) -> (r: String)
    ensures
        r@ == ulid_text(value as nat),
{
    let mut digits: Vec<char> = Vec::new();
    let mut cur: u128 = value;
    let mut k: usize = 0;
    while k < 26
        invariant
            k <= 26,
            digits@.len() == k,
            ulid_text(value as nat) == base32_digits(cur as nat, (26 - k) as nat) + digits@.reverse(),
        decreases 26 - k,
    {
        let c = crockford_exec(cur % 32);
        assert(base32_digits(cur as nat, (26 - k) as nat) == base32_digits(
            (cur / 32) as nat,
            (26 - k - 1) as nat,
        ).push(c));
        digits.push(c);
        assert(digits@.reverse() =~= seq![c] + digits@.drop_last().reverse());
        cur = cur / 32;
        k = k + 1;
    }
    let mut out = String::new();
    let mut j: usize = 26;
    while j > 0
        invariant
            j <= 26,
            digits@.len() == 26,
            out@ == digits@.reverse().take((26 - j) as int),
        decreases j,
    {
        j = j - 1;
        push_char(&mut out, digits[j]);
        assert(out@ =~= digits@.reverse().take((26 - j) as int));
    }
    assert(digits@.reverse().take(26) =~= digits@.reverse());
    out
}

/// 32 to the power `n`.
pub open spec fn pow32(n: nat) -> nat
    decreases n,
{
    if n == 0 {
        1
    } else {
        32 * pow32((n - 1) as nat)
    }
}

proof fn lemma_pow32_positive(n: nat)
    ensures
        pow32(n) >= 1,
    decreases n,
{
    if n > 0 {
        lemma_pow32_positive((n - 1) as nat);
    }
}

proof fn lemma_crockford_increasing(d1: nat, d2: nat)
    requires
        d1 < d2 < 32,
    ensures
        (crockford_char(d1) as u32) < (crockford_char(d2) as u32),
{
}

proof fn lemma_base32_digits_len(v: nat, n: nat)
    ensures
        base32_digits(v, n).len() == n,
    decreases n,
{
    if n > 0 {
        lemma_base32_digits_len(v / 32, (n - 1) as nat);
    }
}

/// Base32 rendering with a fixed number of digits preserves strict order.
proof fn lemma_base32_order(a: nat, b: nat, n: nat)
    requires
        a < b < pow32(n),
    ensures
        seq_lt(base32_digits(a, n), base32_digits(b, n)),
    decreases n,
{
    let sa = base32_digits(a, n);
    let sb = base32_digits(b, n);
    lemma_base32_digits_len(a, n);
    lemma_base32_digits_len(b, n);
    if n == 0 {
        assert(false);
    } else {
        let m = (n - 1) as nat;
        let pa = base32_digits(a / 32, m);
        let pb = base32_digits(b / 32, m);
        lemma_base32_digits_len(a / 32, m);
        lemma_base32_digits_len(b / 32, m);
        assert(sa == pa.push(crockford_char(a % 32)));
        assert(sb == pb.push(crockford_char(b % 32)));
        if a / 32 < b / 32 {
            assert(b / 32 < pow32(m)) by (nonlinear_arith)
                requires
                    b < pow32(n),
                    pow32(n) == 32 * pow32(m),
            ;
            lemma_base32_order(a / 32, b / 32, m);
            let k = choose|k: int|
                0 <= k <= pa.len() && k <= pb.len() && pa.subrange(0, k) == pb.subrange(0, k) && (k
                    < pa.len() && k < pb.len() && (pa[k] as u32) < (pb[k] as u32) || k == pa.len()
                    && k < pb.len());
            assert(sa.subrange(0, k) =~= pa.subrange(0, k));
            assert(sb.subrange(0, k) =~= pb.subrange(0, k));
            assert(sa[k] == pa[k] && sb[k] == pb[k]);
        } else {
            assert(a / 32 == b / 32);
            assert(a % 32 < b % 32);
            lemma_crockford_increasing(a % 32, b % 32);
            let k = m as int;
            assert(sa.subrange(0, k) =~= pa);
            assert(sb.subrange(0, k) =~= pb);
        }
    }
}

/// The first `m` of `m + n` digits of `v` are the digits of `v / 32^n`.
proof fn lemma_base32_prefix(v: nat, m: nat, n: nat)
    ensures
        base32_digits(v, m + n).subrange(0, m as int) == base32_digits(v / pow32(n), m),
    decreases n,
{
    lemma_base32_digits_len(v, m + n);
    if n == 0 {
        assert(pow32(0) == 1);
        assert(v / 1 == v);
        assert(base32_digits(v, m + n).subrange(0, m as int) =~= base32_digits(v, m));
    } else {
        let n1 = (n - 1) as nat;
        lemma_base32_prefix(v / 32, m, n1);
        assert(base32_digits(v, m + n) == base32_digits(v / 32, m + n1).push(
            crockford_char(v % 32),
        ));
        lemma_base32_digits_len(v / 32, m + n1);
        assert(base32_digits(v, m + n).subrange(0, m as int) =~= base32_digits(
            v / 32,
            m + n1,
        ).subrange(0, m as int));
        lemma_pow32_positive(n1);
        assert(v / 32 / pow32(n1) == v / pow32(n)) by (nonlinear_arith)
            requires
                pow32(n) == 32 * pow32(n1),
                pow32(n1) >= 1,
        {
            vstd::arithmetic::div_mod::lemma_div_denominator(v as int, 32, pow32(n1) as int);
        }
        assert(base32_digits(v / 32, m + n1).subrange(0, m as int) == base32_digits(
            v / 32 / pow32(n1),
            m,
        ));
    }
}

proof fn lemma_pow32_values()
    ensures
        pow32(16) == RAND_MOD as nat,
        pow32(10) == 0x4_0000_0000_0000,
        pow32(26) == 0x4_0000_0000_0000_0000_0000_0000_0000_0000,
{
    reveal_with_fuel(pow32, 27);
}

/// Within one millisecond, or when time moves forward, each ULID sorts
/// strictly after the previous one. (When the clock moves backwards, or
/// when the 80-bit tail wraps around within one millisecond, it does not.)
pub proof fn lemma_ulid_strictly_increasing(g: UlidGeneratorView, ts: nat)
    requires
        g.last_ms < TS_MOD,
        g.last_rand < RAND_MOD,
        ts < TS_MOD,
        ts >= g.last_ms,
        !(ts == g.last_ms && g.last_rand + 1 == RAND_MOD),
    ensures
        seq_lt(last_ulid(g), last_ulid(next_state(g, ts))),
{
    let g2 = next_state(g, ts);
    let v1 = ulid_value(g.last_ms, g.last_rand);
    let v2 = ulid_value(g2.last_ms, g2.last_rand);
    lemma_pow32_values();
    assert(g2.last_rand < RAND_MOD);
    assert(v1 < v2) by (nonlinear_arith)
        requires
            v1 == g.last_ms * (RAND_MOD as nat) + g.last_rand,
            v2 == ts * (RAND_MOD as nat) + g2.last_rand,
            g.last_rand < RAND_MOD,
            ts > g.last_ms || g2.last_rand == g.last_rand + 1,
            ts >= g.last_ms,
    ;
    assert(v2 < pow32(26)) by (nonlinear_arith)
        requires
            v2 == ts * (RAND_MOD as nat) + g2.last_rand,
            ts < TS_MOD,
            g2.last_rand < RAND_MOD,
            pow32(26) == 0x4_0000_0000_0000_0000_0000_0000_0000_0000,
    ;
    lemma_base32_order(v1, v2, 26);
}

/// The first ten characters of a ULID encode its 48-bit timestamp: ULIDs
/// for different milliseconds differ there.
pub proof fn lemma_ulid_timestamp_prefix(ms1: nat, r1: nat, ms2: nat, r2: nat)
    requires
        ms1 < TS_MOD,
        ms2 < TS_MOD,
        r1 < RAND_MOD,
        r2 < RAND_MOD,
        ms1 != ms2,
    ensures
        ulid_text(ulid_value(ms1, r1)).subrange(0, 10) != ulid_text(ulid_value(ms2, r2)).subrange(
            0,
            10,
        ),
{
    lemma_pow32_values();
    lemma_base32_prefix(ulid_value(ms1, r1), 10, 16);
    lemma_base32_prefix(ulid_value(ms2, r2), 10, 16);
    assert(ulid_value(ms1, r1) / pow32(16) == ms1) by (nonlinear_arith)
        requires
            pow32(16) == RAND_MOD as nat,
            r1 < RAND_MOD,
    {
        vstd::arithmetic::div_mod::lemma_fundamental_div_mod_converse(
            ulid_value(ms1, r1) as int,
            RAND_MOD as int,
            ms1 as int,
            r1 as int,
        );
    }
    assert(ulid_value(ms2, r2) / pow32(16) == ms2) by (nonlinear_arith)
        requires
            pow32(16) == RAND_MOD as nat,
            r2 < RAND_MOD,
    {
        vstd::arithmetic::div_mod::lemma_fundamental_div_mod_converse(
            ulid_value(ms2, r2) as int,
            RAND_MOD as int,
            ms2 as int,
            r2 as int,
        );
    }
    lemma_base32_digits_len(ms1, 10);
    lemma_base32_digits_len(ms2, 10);
    if ms1 < ms2 {
        lemma_base32_order(ms1, ms2, 10);
    } else {
        lemma_base32_order(ms2, ms1, 10);
    }
}

/// Every character of a ULID is a Crockford base32 digit, and there are 26.
pub proof fn lemma_ulid_shape(v: nat)
    ensures
        ulid_text(v).len() == 26,
        forall|i: int| 0 <= i < 26 ==> is_crockford(#[trigger] ulid_text(v)[i]),
{
    lemma_base32_digits_len(v, 26);
    lemma_base32_all_crockford(v, 26);
}

proof fn lemma_base32_all_crockford(v: nat, n: nat)
    ensures
        forall|i: int| 0 <= i < base32_digits(v, n).len() ==> is_crockford(#[trigger] base32_digits(v, n)[i]),
    decreases n,
{
    if n > 0 {
        lemma_base32_all_crockford(v / 32, (n - 1) as nat);
        let d = v % 32;
        assert(crockford_char(d) == crockford_char(d));
        assert forall|i: int| 0 <= i < base32_digits(v, n).len() implies is_crockford(#[trigger] base32_digits(v, n)[i]) by {
            lemma_base32_digits_len(v / 32, (n - 1) as nat);
            if i < n - 1 {
                assert(base32_digits(v, n)[i] == base32_digits(v / 32, (n - 1) as nat)[i]);
            } else {
                assert(base32_digits(v, n)[i] == crockford_char(d));
            }
        }
    }
}

/// The generator a seed gives (`UlidGenerator::from_seed`).
pub open spec fn seeded(seed: u64) -> UlidGeneratorView {
    UlidGeneratorView { state: seed, last_ms: 0, last_rand: 0 }
}

/// The ULIDs that `next` gives for the millisecond clock readings `ts`,
/// in turn, starting from `g` (each reading already taken modulo the
/// 48-bit range), and the generator afterwards.
pub open spec fn ulid_run(g: UlidGeneratorView, ts: Seq<nat>) -> (UlidGeneratorView, Seq<Seq<char>>)
    decreases ts.len(),
{
    if ts.len() == 0 {
        (g, Seq::empty())
    } else {
        let (g1, out) = ulid_run(g, ts.drop_last());
        let g2 = next_state(g1, ts.last());
        (g2, out.push(last_ulid(g2)))
    }
}

/// The same seed and the same clock readings reproduce the same ULIDs:
/// the `i`-th ULID of a run depends on the seed and the first `i + 1`
/// readings alone, whatever comes after.
pub proof fn lemma_ulid_run_reproducible(seed: u64, ts: Seq<nat>, more: Seq<nat>)
    ensures
        ulid_run(seeded(seed), ts + more).1.len() == ts.len() + more.len(),
        ulid_run(seeded(seed), ts + more).1.take(ts.len() as int) == ulid_run(seeded(seed), ts).1,
    decreases more.len(),
{
    lemma_ulid_run_len(seeded(seed), ts + more);
    lemma_ulid_run_len(seeded(seed), ts);
    if more.len() == 0 {
        assert(ts + more =~= ts);
    } else {
        lemma_ulid_run_reproducible(seed, ts, more.drop_last());
        assert((ts + more).drop_last() =~= ts + more.drop_last());
        let prev = ulid_run(seeded(seed), ts + more.drop_last()).1;
        let cur = ulid_run(seeded(seed), ts + more).1;
        assert(cur.take(ts.len() as int) =~= prev.take(ts.len() as int));
    }
}

proof fn lemma_ulid_run_len(g: UlidGeneratorView, ts: Seq<nat>)
    ensures
        ulid_run(g, ts).1.len() == ts.len(),
    decreases ts.len(),
{
    if ts.len() > 0 {
        lemma_ulid_run_len(g, ts.drop_last());
    }
}

} // verus!
