//! Raw and hex forms of a hash: 35 raw bytes, 36 with a color, their
//! upper-case hex digits, and the `T1` versioned form.
use vstd::prelude::*;

use vstd::string::StringSliceAdditionalSpecFns;
use vstd::utf8::{encode_utf8, is_ascii_chars, is_ascii_chars_encode_utf8};

use crate::hash::{ColoredTLSH, TLSH};

verus! {

/// Bytes of the code vector.
pub const BODY_SIZE: usize = 32;

/// Bytes of a raw uncolored hash.
pub const HASH_SIZE: usize = 35;

/// Hex digits of an uncolored hash.
pub const HEX_HASH_SIZE: usize = 70;

/// Characters of a versioned digest: `T1` and the hex digits.
pub const VERSIONED_HEX_HASH_SIZE: usize = 72;

/// Bytes of a raw colored hash.
pub const COLORED_HASH_SIZE: usize = 36;

/// Hex digits of a colored hash.
pub const HEX_COLORED_HASH_SIZE: usize = 72;

/// The byte `T` that starts a versioned digest.
pub const VERSION_MARK: u8 = 0x54;

/// The byte `1` of version 1.
pub const VERSION_ONE: u8 = 0x31;

#[derive(Clone, Copy, Debug, PartialEq, Eq, Structural)]
pub enum TLSHDigestError {
    InvalidLength,
    InvalidHex,
    InvalidVersion,
}

/// `x` with its two nibbles exchanged.
pub open spec fn swap_nibbles(x: u8) -> u8 {
    ((x % 16) * 16 + x / 16) as u8
}

/// The 35-byte raw form: checksum, length byte and quartile ratios with
/// their nibbles exchanged, then the code vector in reverse order.
pub open spec fn raw_of(h: TLSH) -> Seq<u8> {
    seq![swap_nibbles(h.checksum), swap_nibbles(h.lvalue), swap_nibbles(h.q_ratios)]
        + h.codes@.reverse()
}

/// The 36-byte raw form of a colored hash: the color, then the raw form.
pub open spec fn colored_raw_of(h: ColoredTLSH) -> Seq<u8> {
    seq![h.color] + raw_of(h.tlsh)
}

/// `r` is what reading the raw bytes `raw` as a hash gives.
pub open spec fn raw_result(raw: Seq<u8>, r: Result<TLSH, TLSHDigestError>) -> bool {
    match r {
        Ok(h) => raw.len() == HASH_SIZE && raw_of(h) == raw,
        Err(e) => raw.len() != HASH_SIZE && e == TLSHDigestError::InvalidLength,
    }
}

/// `r` is what reading the raw bytes `raw` as a colored hash gives.
pub open spec fn colored_raw_result(raw: Seq<u8>, r: Result<ColoredTLSH, TLSHDigestError>) -> bool {
    match r {
        Ok(h) => raw.len() == COLORED_HASH_SIZE && colored_raw_of(h) == raw,
        Err(e) => raw.len() != COLORED_HASH_SIZE && e == TLSHDigestError::InvalidLength,
    }
}

/// The upper-case hex digits, by value.
pub open spec fn hex_digits() -> Seq<char> {
    seq!['0', '1', '2', '3', '4', '5', '6', '7', '8', '9', 'A', 'B', 'C', 'D', 'E', 'F']
}

/// Two upper-case hex digits per byte, the high nibble first.
pub open spec fn hex_of(b: Seq<u8>) -> Seq<char> {
    Seq::new(
        2 * b.len(),
        |i: int|
            if i % 2 == 0 {
                hex_digits()[b[i / 2] as int / 16]
            } else {
                hex_digits()[b[i / 2] as int % 16]
            },
    )
}

/// Value of a hex digit of either case.
pub open spec fn hex_value(c: u8) -> Option<u8> {
    if 48 <= c <= 57 {
        Some((c - 48) as u8)
    } else if 65 <= c <= 70 {
        Some((c - 55) as u8)
    } else if 97 <= c <= 102 {
        Some((c - 87) as u8)
    } else {
        None
    }
}

/// `d` is an even number of hex digits.
pub open spec fn is_hex(d: Seq<u8>) -> bool {
    &&& d.len() % 2 == 0
    &&& forall|i: int| 0 <= i < d.len() ==> (#[trigger] hex_value(d[i])) is Some
}

/// The bytes that the hex digits `d` spell, two digits per byte.
pub open spec fn unhex(d: Seq<u8>) -> Seq<u8> {
    Seq::new(
        d.len() / 2,
        |i: int| (hex_value(d[2 * i])->Some_0 * 16 + hex_value(d[2 * i + 1])->Some_0) as u8,
    )
}

/// Where the hex digits of an uncolored digest are, found by its length in
/// bytes and its prefix: 70 digits, or `T1` and 70 digits.
pub open spec fn digest_body(b: Seq<u8>) -> Result<Seq<u8>, TLSHDigestError> {
    if b.len() == HEX_HASH_SIZE {
        Ok(b)
    } else if b.len() == VERSIONED_HEX_HASH_SIZE && b[0] == VERSION_MARK {
        if b[1] == VERSION_ONE {
            Ok(b.subrange(2, b.len() as int))
        } else {
            Err(TLSHDigestError::InvalidVersion)
        }
    } else {
        Err(TLSHDigestError::InvalidLength)
    }
}

/// `r` is what reading the digest with the bytes `b` as a hash gives.
pub open spec fn digest_result(b: Seq<u8>, r: Result<TLSH, TLSHDigestError>) -> bool {
    match digest_body(b) {
        Err(e) => r == Err::<TLSH, TLSHDigestError>(e),
        Ok(d) => match r {
            Ok(h) => is_hex(d) && raw_of(h) == unhex(d),
            Err(e) => !is_hex(d) && e == TLSHDigestError::InvalidHex,
        },
    }
}

/// The bytes `b` are a readable uncolored digest.
pub open spec fn digest_valid(b: Seq<u8>) -> bool {
    &&& digest_body(b) is Ok
    &&& is_hex(digest_body(b)->Ok_0)
}

/// The bytes `b` are read as an uncolored digest rather than a colored one.
pub open spec fn is_uncolored_form(b: Seq<u8>) -> bool {
    b.len() == HEX_HASH_SIZE || (b.len() == VERSIONED_HEX_HASH_SIZE && b[0] == VERSION_MARK)
}

/// `r` is what reading the digest with the bytes `b` as a colored hash
/// gives: an uncolored digest has color 0; 72 hex digits are the color and
/// the hash.
pub open spec fn colored_digest_result(b: Seq<u8>, r: Result<ColoredTLSH, TLSHDigestError>) -> bool {
    if is_uncolored_form(b) {
        match r {
            Ok(h) => h.color == 0 && digest_result(b, Ok(h.tlsh)),
            Err(e) => digest_result(b, Err(e)),
        }
    } else if b.len() == HEX_COLORED_HASH_SIZE {
        match r {
            Ok(h) => is_hex(b) && colored_raw_of(h) == unhex(b),
            Err(e) => !is_hex(b) && e == TLSHDigestError::InvalidHex,
        }
    } else {
        r == Err::<ColoredTLSH, TLSHDigestError>(TLSHDigestError::InvalidLength)
    }
}

/// The bytes `b` are a readable digest of a colored hash.
pub open spec fn colored_digest_valid(b: Seq<u8>) -> bool {
    if is_uncolored_form(b) {
        digest_valid(b)
    } else {
        b.len() == HEX_COLORED_HASH_SIZE && is_hex(b)
    }
}

/// The decimal digits of `n`.
pub open spec fn decimal_digits(n: nat) -> Seq<char>
    decreases n,
{
    if n < 10 {
        seq![hex_digits()[n as int]]
    } else {
        decimal_digits(n / 10).push(hex_digits()[(n % 10) as int])
    }
}

/// `v` in decimal, with a leading `-` when negative.
pub open spec fn decimal_chars(v: int) -> Seq<char> {
    if v < 0 {
        seq!['-'] + decimal_digits((-v) as nat)
    } else {
        decimal_digits(v as nat)
    }
}

/// Relies on the decimal `Display` of `i32`, through `to_string`.
#[verifier::external_body]
fn decimal(v: i32) -> (r: String)
    ensures
        r@ == decimal_chars(v as int),
{
    v.to_string()
}

/// The error type of hex::decode, carried only to be mapped to
/// `TLSHDigestError::InvalidHex`.
#[verifier::external_type_specification]
#[verifier::external_body]
pub struct ExFromHexError(hex::FromHexError);

/// Relies on hex::encode_upper: two upper-case digits per byte, the high
/// nibble first.
#[verifier::external_body]
fn encode_upper(bytes: &[u8]) -> (r: String)
    ensures
        r@ == hex_of(bytes@),
{
    hex::encode_upper(bytes)
}

/// Relies on hex::decode: the bytes spelled by an even number of hex digits
/// of either case, an error for any other input.
#[verifier::external_body]
fn decode(digits: &[u8]) -> (r: Result<Vec<u8>, hex::FromHexError>)
    ensures
        match r {
            Ok(v) => is_hex(digits@) && v@ == unhex(digits@),
            Err(_) => !is_hex(digits@),
        },
{
    hex::decode(digits)
}

#[inline(always)]
fn swap_byte(x: u8) -> (r: u8)
    ensures
        r == swap_nibbles(x),
{
    assert((x >> 4u8 | x << 4u8) == ((x % 16) * 16 + x / 16) as u8) by (bit_vector);
    x >> 4 | x << 4
}

proof fn lemma_swap_twice(x: u8)
    ensures
        swap_nibbles(swap_nibbles(x)) == x,
{
    assert(((((x % 16) * 16 + x / 16) as u8 % 16) * 16 + ((x % 16) * 16 + x / 16) as u8 / 16) as u8
        == x) by (bit_vector);
}

/// Two hashes with the same raw form are the same hash.
pub proof fn lemma_raw_injective(a: TLSH, b: TLSH)
    requires
        raw_of(a) == raw_of(b),
    ensures
        a == b,
{
    let ra = raw_of(a);
    let rb = raw_of(b);
    assert(ra[0] == rb[0] && ra[1] == rb[1] && ra[2] == rb[2]);
    lemma_swap_twice(a.checksum);
    lemma_swap_twice(b.checksum);
    lemma_swap_twice(a.lvalue);
    lemma_swap_twice(b.lvalue);
    lemma_swap_twice(a.q_ratios);
    lemma_swap_twice(b.q_ratios);
    assert forall|i: int| 0 <= i < 32 implies a.codes@[i] == b.codes@[i] by {
        assert(ra[34 - i] == a.codes@[i]);
        assert(rb[34 - i] == b.codes@[i]);
    }
    assert(a.codes@ =~= b.codes@);
    assert(a.codes == b.codes);
}

impl TLSH {
    /// Exports the hash object as its 35-byte raw representation
    pub fn to_raw(&self) -> (r: [u8; 35])
        ensures
            r@ == raw_of(*self),
    {
        let mut raw = [0u8; 35];
        raw[0] = swap_byte(self.checksum);
        raw[1] = swap_byte(self.lvalue);
        raw[2] = swap_byte(self.q_ratios);
        let mut i: usize = 0;
        while i < BODY_SIZE
            invariant
                i <= 32,
                raw@[0] == swap_nibbles(self.checksum),
                raw@[1] == swap_nibbles(self.lvalue),
                raw@[2] == swap_nibbles(self.q_ratios),
                forall|k: int| 0 <= k < i ==> raw@[34 - k] == self.codes@[k],
            decreases 32 - i,
        {
            raw[HASH_SIZE - 1 - i] = self.codes[i];
            i = i + 1;
        }
        assert(raw@ =~= raw_of(*self));
        raw
    }

    /// Imports a hash object from its 35-byte raw representation.
    pub fn from_raw(raw: &[u8]) -> (r: Self)
        requires
            raw@.len() == HASH_SIZE,
        ensures
            raw_of(r) == raw@,
    {
        Self::try_from_raw(raw).unwrap()
    }

    /// Tries to import a hash object from its raw 35-byte representation
    pub fn try_from_raw(raw: &[u8]) -> (r: Result<Self, TLSHDigestError>)
        ensures
            raw_result(raw@, r),
    {
        if raw.len() != HASH_SIZE {
            return Err(TLSHDigestError::InvalidLength);
        }
        let mut codes = [0u8; 32];
        let mut i: usize = 0;
        while i < BODY_SIZE
            invariant
                i <= 32,
                raw@.len() == 35,
                forall|k: int| 0 <= k < i ==> codes@[k] == raw@[34 - k],
            decreases 32 - i,
        {
            codes[i] = raw[HASH_SIZE - 1 - i];
            i = i + 1;
        }
        let h = TLSH {
            checksum: swap_byte(raw[0]),
            lvalue: swap_byte(raw[1]),
            q_ratios: swap_byte(raw[2]),
            codes,
        };
        proof {
            lemma_swap_twice(raw@[0]);
            lemma_swap_twice(raw@[1]);
            lemma_swap_twice(raw@[2]);
            assert(raw_of(h) =~= raw@);
        }
        Ok(h)
    }
}

impl ColoredTLSH {
    /// Exports the colored hash object to its 36-byte representation
    pub fn to_raw(&self) -> (r: [u8; 36])
        ensures
            r@ == colored_raw_of(*self),
    {
        let mut raw = [0u8; 36];
        raw[0] = self.color;
        let tlsh = self.tlsh.to_raw();
        let mut i: usize = 0;
        while i < HASH_SIZE
            invariant
                i <= 35,
                raw@[0] == self.color,
                tlsh@ == raw_of(self.tlsh),
                forall|k: int| 0 <= k < i ==> raw@[k + 1] == tlsh@[k],
            decreases 35 - i,
        {
            raw[i + 1] = tlsh[i];
            i = i + 1;
        }
        assert(raw@ =~= colored_raw_of(*self));
        raw
    }

    /// Tries to import a colored hash object from its raw 36-byte representation
    pub fn try_from_raw(raw: &[u8]) -> (r: Result<Self, TLSHDigestError>)
        ensures
            colored_raw_result(raw@, r),
    {
        if raw.len() != COLORED_HASH_SIZE {
            return Err(TLSHDigestError::InvalidLength);
        }
        let body = vstd::slice::slice_subrange(raw, 1, COLORED_HASH_SIZE);
        match TLSH::try_from_raw(body) {
            Ok(tlsh) => {
                let h = ColoredTLSH { color: raw[0], tlsh };
                assert(colored_raw_of(h) =~= raw@);
                Ok(h)
            },
            Err(e) => Err(e),
        }
    }

    /// Imports a colored hash object from its 36-byte raw representation.
    pub fn from_raw(raw: &[u8]) -> (r: Self)
        requires
            raw@.len() == COLORED_HASH_SIZE,
        ensures
            colored_raw_of(r) == raw@,
    {
        Self::try_from_raw(raw).unwrap()
    }

    /// Exports the hash object as a hex digest string
    pub fn to_digest(&self) -> (r: String)
        ensures
            r@ == hex_of(colored_raw_of(*self)),
    {
        let raw = self.to_raw();
        encode_upper(&raw)
    }

    /// Tries to import a colored hash object from a digest string
    ///
    /// It supports loading the standard 70, the T1 versioned and the 72 long
    /// colored TLSH digests
    pub fn try_from_digest(digest: &str) -> (r: Result<Self, TLSHDigestError>)
        ensures
            colored_digest_result(digest.spec_bytes(), r),
    {
        let bytes = digest.as_bytes();
        let n = bytes.len();
        if n == HEX_HASH_SIZE || (n == VERSIONED_HEX_HASH_SIZE && bytes[0] == VERSION_MARK) {
            match TLSH::try_from_digest(digest) {
                Ok(tlsh) => Ok(ColoredTLSH { color: 0, tlsh }),
                Err(e) => Err(e),
            }
        } else if n == HEX_COLORED_HASH_SIZE {
            match decode(bytes) {
                Ok(raw) => Self::try_from_raw(raw.as_slice()),
                Err(_) => Err(TLSHDigestError::InvalidHex),
            }
        } else {
            Err(TLSHDigestError::InvalidLength)
        }
    }

    /// Import a colored hash object from a digest string
    pub fn from_digest(digest: &str) -> (r: Self)
        requires
            colored_digest_valid(digest.spec_bytes()),
        ensures
            colored_digest_result(digest.spec_bytes(), Ok(r)),
    {
        Self::try_from_digest(digest).unwrap()
    }
}

impl TLSH {
    /// Exports the hash object as a hex digest string
    pub fn to_digest(&self) -> (r: String)
        ensures
            r@ == hex_of(raw_of(*self)),
    {
        let raw = self.to_raw();
        encode_upper(&raw)
    }

    /// Export the hash object as a versioned (`T1...`) hex digest
    pub fn to_digest_versioned(&self, version: i32) -> (r: String)
        ensures
            r@ == seq!['T'] + decimal_chars(version as int) + hex_of(raw_of(*self)),
    {
        let t = String::from_str("T");
        proof {
            reveal_strlit("T");
        }
        let v = decimal(version);
        let d = self.to_digest();
        let t = t.concat(v.as_str());
        t.concat(d.as_str())
    }

    /// Tries to import a hash object from a digest string: 70 hex digits,
    /// or `T1` and 70 hex digits
    pub fn try_from_digest(digest: &str) -> (r: Result<Self, TLSHDigestError>)
        ensures
            digest_result(digest.spec_bytes(), r),
    {
        let bytes = digest.as_bytes();
        let n = bytes.len();
        let body: &[u8] = if n == HEX_HASH_SIZE {
            bytes
        } else if n == VERSIONED_HEX_HASH_SIZE && bytes[0] == VERSION_MARK {
            if bytes[1] == VERSION_ONE {
                vstd::slice::slice_subrange(bytes, 2, n)
            } else {
                return Err(TLSHDigestError::InvalidVersion);
            }
        } else {
            return Err(TLSHDigestError::InvalidLength);
        };
        match decode(body) {
            Ok(raw) => Self::try_from_raw(raw.as_slice()),
            Err(_) => Err(TLSHDigestError::InvalidHex),
        }
    }

    /// Import a hash object from a digest string
    pub fn from_digest(digest: &str) -> (r: Self)
        requires
            digest_valid(digest.spec_bytes()),
        ensures
            digest_result(digest.spec_bytes(), Ok(r)),
    {
        Self::try_from_digest(digest).unwrap()
    }
}

/// Reading the raw form of a hash gives the hash back.
pub proof fn lemma_raw_round_trip(h: TLSH, r: Result<TLSH, TLSHDigestError>)
    requires
        raw_result(raw_of(h), r),
    ensures
        r == Ok::<TLSH, TLSHDigestError>(h),
{
    if let Ok(g) = r {
        lemma_raw_injective(g, h);
    }
}

/// Reading the raw form of a colored hash gives the colored hash back.
pub proof fn lemma_colored_raw_round_trip(h: ColoredTLSH, r: Result<ColoredTLSH, TLSHDigestError>)
    requires
        colored_raw_result(colored_raw_of(h), r),
    ensures
        r == Ok::<ColoredTLSH, TLSHDigestError>(h),
{
    if let Ok(g) = r {
        let rg = colored_raw_of(g);
        let rh = colored_raw_of(h);
        assert(rg.subrange(1, 36) =~= raw_of(g.tlsh));
        assert(rh.subrange(1, 36) =~= raw_of(h.tlsh));
        lemma_raw_injective(g.tlsh, h.tlsh);
        assert(rg[0] == g.color && rh[0] == h.color);
    }
}

proof fn lemma_hex_digit_value(n: int)
    requires
        0 <= n < 16,
    ensures
        hex_value(hex_digits()[n] as u8) == Some(n as u8),
        '\0' <= hex_digits()[n] <= '\u{7f}',
{
}

/// The hex digits of `b` are ASCII, spell `b` and read back as `b`.
proof fn lemma_hex_reads_back(b: Seq<u8>)
    ensures
        is_ascii_chars(hex_of(b)),
        encode_utf8(hex_of(b)).len() == 2 * b.len(),
        is_hex(encode_utf8(hex_of(b))),
        unhex(encode_utf8(hex_of(b))) == b,
{
    let c = hex_of(b);
    assert forall|i: int| 0 <= i < c.len() implies '\0' <= #[trigger] c[i] <= '\u{7f}' by {
        lemma_hex_digit_value(b[i / 2] as int / 16);
        lemma_hex_digit_value(b[i / 2] as int % 16);
    }
    is_ascii_chars_encode_utf8(c);
    let e = encode_utf8(c);
    assert forall|i: int| 0 <= i < e.len() implies (#[trigger] hex_value(e[i])) is Some by {
        assert(e[i] == c[i] as u8);
        lemma_hex_digit_value(b[i / 2] as int / 16);
        lemma_hex_digit_value(b[i / 2] as int % 16);
    }
    assert forall|i: int| 0 <= i < b.len() implies #[trigger] unhex(e)[i] == b[i] by {
        assert(e[2 * i] == c[2 * i] as u8);
        assert(e[2 * i + 1] == c[2 * i + 1] as u8);
        assert((2 * i) / 2 == i);
        assert((2 * i + 1) / 2 == i);
        assert((2 * i) % 2 == 0);
        assert((2 * i + 1) % 2 == 1);
        lemma_hex_digit_value(b[i] as int / 16);
        lemma_hex_digit_value(b[i] as int % 16);
    }
    assert(unhex(e) =~= b);
}

/// Reading the digest of a hash gives the hash back.
pub proof fn lemma_digest_round_trip(h: TLSH, r: Result<TLSH, TLSHDigestError>)
    requires
        digest_result(encode_utf8(hex_of(raw_of(h))), r),
    ensures
        r == Ok::<TLSH, TLSHDigestError>(h),
{
    lemma_hex_reads_back(raw_of(h));
    if let Ok(g) = r {
        lemma_raw_injective(g, h);
    }
}

/// Reading `T1` followed by the digest of a hash gives the hash back.
pub proof fn lemma_versioned_round_trip(h: TLSH, r: Result<TLSH, TLSHDigestError>)
    requires
        digest_result(encode_utf8(seq!['T', '1'] + hex_of(raw_of(h))), r),
    ensures
        r == Ok::<TLSH, TLSHDigestError>(h),
{
    let d = hex_of(raw_of(h));
    let c = seq!['T', '1'] + d;
    lemma_hex_reads_back(raw_of(h));
    assert(is_ascii_chars(c)) by {
        assert forall|i: int| 0 <= i < c.len() implies '\0' <= #[trigger] c[i] <= '\u{7f}' by {
            if i >= 2 {
                assert(c[i] == d[i - 2]);
            }
        }
    }
    is_ascii_chars_encode_utf8(c);
    is_ascii_chars_encode_utf8(d);
    let e = encode_utf8(c);
    assert(e.subrange(2, e.len() as int) =~= encode_utf8(d)) by {
        assert forall|i: int| 0 <= i < e.len() - 2 implies #[trigger] e.subrange(2, e.len() as int)[i]
            == encode_utf8(d)[i] by {
            assert(e[i + 2] == c[i + 2] as u8);
            assert(c[i + 2] == d[i]);
        }
    }
    assert(e[0] == VERSION_MARK && e[1] == VERSION_ONE);
    if let Ok(g) = r {
        lemma_raw_injective(g, h);
    }
}

/// Reading the digest of a colored hash gives the colored hash back.
pub proof fn lemma_colored_digest_round_trip(h: ColoredTLSH, r: Result<ColoredTLSH, TLSHDigestError>)
    requires
        colored_digest_result(encode_utf8(hex_of(colored_raw_of(h))), r),
    ensures
        r == Ok::<ColoredTLSH, TLSHDigestError>(h),
{
    let c = hex_of(colored_raw_of(h));
    lemma_hex_reads_back(colored_raw_of(h));
    is_ascii_chars_encode_utf8(c);
    lemma_hex_digit_value(h.color as int / 16);
    assert(encode_utf8(c)[0] == c[0] as u8);
    assert(encode_utf8(c)[0] != VERSION_MARK);
    if let Ok(g) = r {
        let rg = colored_raw_of(g);
        let rh = colored_raw_of(h);
        assert(rg.subrange(1, 36) =~= raw_of(g.tlsh));
        assert(rh.subrange(1, 36) =~= raw_of(h.tlsh));
        lemma_raw_injective(g.tlsh, h.tlsh);
        assert(rg[0] == g.color && rh[0] == h.color);
    }
}

} // verus!
