//! Run, worker and content identifiers.
//!
//! `RunId` and `WorkerId` carry the 128-bit value of a ULID; `ContentId` is
//! the 32-byte blake3 digest of some bytes.

use vstd::prelude::*;

verus! {

/// ULID-based identifier for a single run (the ULID's 128-bit value).
#[derive(Debug, Clone, Copy, PartialEq, Eq, Structural, Hash)]
pub struct RunId(pub u128);

/// ULID-based identifier for a worker process (the ULID's 128-bit value).
#[derive(Debug, Clone, Copy, PartialEq, Eq, Structural, Hash)]
pub struct WorkerId(pub u128);

/// blake3 content hash; equality implies content equality.
#[derive(Debug, Clone, Copy, PartialEq, Eq, Hash)]
pub struct ContentId(pub [u8; 32]);

/// The blake3 digest of `data`.
pub uninterp spec fn blake3_digest(data: Seq<u8>) -> Seq<u8>;

/// Calls `blake3::hash` and returns the 32 digest bytes. The contract claims
/// only that the digest is a function of the input bytes.
#[verifier::external_body]
fn blake3_hash(data: &[u8]) -> (out: [u8; 32])
    ensures
        out@ == blake3_digest(data@),
{
    *blake3::hash(data).as_bytes()
}

impl ContentId {
    /// Compute the blake3 hash of `data`.
    pub fn of(data: &[u8]) -> (id: ContentId)
        ensures
            id.0@ == blake3_digest(data@),
    {
        ContentId(blake3_hash(data))
    }

    /// Byte-wise equality of two content ids.
    pub fn same(&self, other: &ContentId) -> (r: bool)
        ensures
            r == (*self == *other),
    {
        let mut i: usize = 0;
        while i < 32
            invariant
                i <= 32,
                forall|k: int| 0 <= k < i ==> self.0@[k] == other.0@[k],
            decreases 32 - i,
        {
            if self.0[i] != other.0[i] {
                proof {
                    assert(self.0@[i as int] != other.0@[i as int]);
                }
                return false;
            }
            i = i + 1;
        }
        proof {
            broadcast use vstd::array::axiom_array_ext_equal;
            assert(self.0 =~= other.0);
        }
        true
    }
}


/// Lexicographic order on byte strings (a proper prefix sorts first).
pub open spec fn bytes_lt(a: Seq<u8>, b: Seq<u8>) -> bool
    decreases a.len(),
{
    if a.len() == 0 {
        b.len() > 0
    } else if b.len() == 0 {
        false
    } else if a[0] != b[0] {
        a[0] < b[0]
    } else {
        bytes_lt(a.drop_first(), b.drop_first())
    }
}

/// `bytes_lt` is irreflexive.
pub proof fn lemma_bytes_lt_irreflexive(a: Seq<u8>)
    ensures
        !bytes_lt(a, a),
    decreases a.len(),
{
    if a.len() > 0 {
        lemma_bytes_lt_irreflexive(a.drop_first());
    }
}

/// `bytes_lt` is transitive.
pub proof fn lemma_bytes_lt_transitive(a: Seq<u8>, b: Seq<u8>, c: Seq<u8>)
    requires
        bytes_lt(a, b),
        bytes_lt(b, c),
    ensures
        bytes_lt(a, c),
    decreases a.len(),
{
    if a.len() > 0 && b.len() > 0 && c.len() > 0 {
        if a[0] == b[0] && b[0] == c[0] {
            lemma_bytes_lt_transitive(a.drop_first(), b.drop_first(), c.drop_first());
        }
    }
}

/// Two distinct byte strings of the same length are ordered one way or the other.
pub proof fn lemma_bytes_lt_total(a: Seq<u8>, b: Seq<u8>)
    requires
        a.len() == b.len(),
        a != b,
    ensures
        bytes_lt(a, b) || bytes_lt(b, a),
    decreases a.len(),
{
    if a.len() == 0 {
        assert(a =~= b);
    } else if a[0] == b[0] {
        if a.drop_first() == b.drop_first() {
            assert(a =~= seq![a[0]] + a.drop_first());
            assert(b =~= seq![b[0]] + b.drop_first());
        }
        lemma_bytes_lt_total(a.drop_first(), b.drop_first());
    }
}

/// With equal first `i` bytes, the order is decided by what follows.
proof fn lemma_bytes_lt_skip(a: Seq<u8>, b: Seq<u8>, i: int)
    requires
        0 <= i <= a.len(),
        i <= b.len(),
        a.take(i) == b.take(i),
    ensures
        bytes_lt(a, b) == bytes_lt(a.skip(i), b.skip(i)),
    decreases i,
{
    if i > 0 {
        assert(a[0] == a.take(i)[0]);
        assert(b[0] == b.take(i)[0]);
        assert(a.drop_first().take(i - 1) =~= a.take(i).drop_first());
        assert(b.drop_first().take(i - 1) =~= b.take(i).drop_first());
        lemma_bytes_lt_skip(a.drop_first(), b.drop_first(), i - 1);
        assert(a.drop_first().skip(i - 1) =~= a.skip(i));
        assert(b.drop_first().skip(i - 1) =~= b.skip(i));
    } else {
        assert(a.skip(0) =~= a);
        assert(b.skip(0) =~= b);
    }
}

impl ContentId {
    /// Whether `self` sorts strictly before `other` (byte-wise lexicographic).
    pub fn sorts_before(&self, other: &ContentId) -> (r: bool)
        ensures
            r == bytes_lt(self.0@, other.0@),
    {
        let mut i: usize = 0;
        while i < 32
            invariant
                i <= 32,
                self.0@.len() == 32,
                other.0@.len() == 32,
                self.0@.take(i as int) == other.0@.take(i as int),
            decreases 32 - i,
        {
            if self.0[i] != other.0[i] {
                proof {
                    lemma_bytes_lt_skip(self.0@, other.0@, i as int);
                    assert(self.0@.skip(i as int)[0] == self.0@[i as int]);
                    assert(other.0@.skip(i as int)[0] == other.0@[i as int]);
                }
                return self.0[i] < other.0[i];
            }
            proof {
                assert(self.0@.take(i + 1) =~= self.0@.take(i as int).push(self.0@[i as int]));
                assert(other.0@.take(i + 1) =~= other.0@.take(i as int).push(other.0@[i as int]));
            }
            i = i + 1;
        }
        proof {
            lemma_bytes_lt_skip(self.0@, other.0@, 32);
        }
        false
    }
}


/// The 32 digits of ULID text (Crockford base 32: no I, L, O or U).
pub open spec fn crockford_digits() -> Seq<char> {
    seq![
        '0', '1', '2', '3', '4', '5', '6', '7', '8', '9', 'A', 'B', 'C', 'D', 'E', 'F',
        'G', 'H', 'J', 'K', 'M', 'N', 'P', 'Q', 'R', 'S', 'T', 'V', 'W', 'X', 'Y', 'Z',
    ]
}

/// The 5-bit digit of `value` at text position `j` (0 = most significant).
pub open spec fn ulid_digit(value: u128, j: int) -> u128 {
    (value >> ((125 - 5 * j) as u128)) & 31
}

/// ULID text of a 128-bit value: 26 Crockford digits, most significant first.
pub open spec fn ulid_text(value: u128) -> Seq<char> {
    Seq::new(26, |j: int| crockford_digits()[ulid_digit(value, j) as int])
}

/// Value of one ULID text character, either case.
pub open spec fn crockford_value(c: char) -> Option<u128> {
    if '0' <= c <= '9' {
        Some((c as u32 - '0' as u32) as u128)
    } else {
        let u = if 'a' <= c <= 'z' {
            (c as u32 - 32) as char
        } else {
            c
        };
        if 'A' <= u <= 'H' {
            Some((u as u32 - 'A' as u32 + 10) as u128)
        } else if u == 'J' {
            Some(18)
        } else if u == 'K' {
            Some(19)
        } else if u == 'M' {
            Some(20)
        } else if u == 'N' {
            Some(21)
        } else if 'P' <= u <= 'T' {
            Some((u as u32 - 'P' as u32 + 22) as u128)
        } else if 'V' <= u <= 'Z' {
            Some((u as u32 - 'V' as u32 + 27) as u128)
        } else {
            None
        }
    }
}

/// Digits of `t` folded most-significant first, keeping the low 128 bits.
pub open spec fn ulid_fold(t: Seq<char>) -> u128
    decreases t.len(),
{
    if t.len() == 0 {
        0
    } else {
        ((ulid_fold(t.drop_last()) * 32 + crockford_value(t.last())->0) % 0x1_0000_0000_0000_0000_0000_0000_0000_0000int) as u128
    }
}

/// The value ULID text decodes to: 26 Crockford characters, either case;
/// `None` for any other text.
pub open spec fn ulid_decode(t: Seq<char>) -> Option<u128> {
    if t.len() == 26 && forall|j: int| 0 <= j < 26 ==> (#[trigger] crockford_value(t[j])) is Some {
        Some(ulid_fold(t))
    } else {
        None
    }
}

/// A digit is below 32.
proof fn lemma_ulid_digit_bound(v: u128, j: int)
    ensures
        ulid_digit(v, j) < 32,
{
    let x: u128 = v >> ((125 - 5 * j) as u128);
    assert(x & 31 < 32) by (bit_vector);
}

/// Each digit reads back as its own value.
proof fn lemma_crockford_digit_value(d: u128)
    requires
        d < 32,
    ensures
        crockford_value(crockford_digits()[d as int]) == Some(d),
{
    let ds = crockford_digits();
    assert(ds[d as int] == ds[d as int]);
    assert(crockford_value(ds[d as int]) == Some(d)) by {
        if d < 10 {
        } else if d < 18 {
        } else if d < 22 {
        } else if d < 27 {
        } else {
        }
    }
}

/// Folding the first `k` digits of a value's text gives its top `5k` bits.
proof fn lemma_ulid_fold_prefix(v: u128, k: int)
    requires
        1 <= k <= 26,
    ensures
        ulid_fold(ulid_text(v).take(k)) == v >> ((130 - 5 * k) as u128),
    decreases k,
{
    let t = ulid_text(v).take(k);
    lemma_ulid_digit_bound(v, k - 1);
    lemma_crockford_digit_value(ulid_digit(v, k - 1));
    assert(t.last() == ulid_text(v)[k - 1]);
    let d = ulid_digit(v, k - 1);
    let s: u128 = (125 - 5 * (k - 1)) as u128;
    if k == 1 {
        assert(t.drop_last() =~= Seq::<char>::empty());
        assert(ulid_fold(t.drop_last()) == 0);
        assert(((v >> 125u128) & 31) == v >> 125u128) by (bit_vector);
    } else {
        lemma_ulid_fold_prefix(v, k - 1);
        assert(t.drop_last() =~= ulid_text(v).take(k - 1));
        assert(s + 5 == (130 - 5 * (k - 1)) as u128);
        assert(((v >> (s + 5)) * 32 + ((v >> s) & 31)) == v >> s) by (bit_vector)
            requires
                s <= 120,
        ;
    }
}

/// ULID text decodes back to the value it was made from.
pub proof fn lemma_ulid_round_trip(v: u128)
    ensures
        ulid_decode(ulid_text(v)) == Some(v),
{
    let t = ulid_text(v);
    assert forall|j: int| 0 <= j < 26 implies (#[trigger] crockford_value(t[j])) is Some by {
        lemma_ulid_digit_bound(v, j);
        lemma_crockford_digit_value(ulid_digit(v, j));
    }
    lemma_ulid_fold_prefix(v, 26);
    assert(t.take(26) =~= t);
    assert(v >> 0u128 == v) by (bit_vector);
}

/// Calls `ulid::Ulid::to_string` on `Ulid(value)`: the crate's base-32
/// encoder writes the 26 Crockford digits of the value, most significant
/// first.
#[verifier::external_body]
fn ulid_to_string(value: u128) -> (s: String)
    ensures
        s@ == ulid_text(value),
{
    ulid::Ulid(value).to_string()
}

/// Why a text is not ULID text (the variants of `ulid::DecodeError`).
#[derive(Debug, Clone, Copy, PartialEq, Eq, Structural)]
pub enum UlidDecodeError {
    /// The text is not 26 bytes long.
    InvalidLength,
    /// A byte is not a Crockford base-32 digit.
    InvalidChar,
}

/// The text `ulid::DecodeError` displays.
pub open spec fn ulid_error_text(e: UlidDecodeError) -> Seq<char> {
    match e {
        UlidDecodeError::InvalidLength => "invalid length"@,
        UlidDecodeError::InvalidChar => "invalid character"@,
    }
}

/// Calls `ulid::Ulid::from_string`: the crate's base-32 decoder refuses a
/// text whose UTF-8 length is not 26 bytes as an invalid length, refuses
/// one holding a byte outside the Crockford digits (either case) as an
/// invalid character, and otherwise shifts the digits into a `u128`.
#[verifier::external_body]
fn ulid_from_string(text: &str) -> (r: Result<u128, UlidDecodeError>)
    ensures
        match r {
            Ok(v) => ulid_decode(text@) == Some(v),
            Err(e) => ulid_decode(text@) is None && (e is InvalidLength <==> vstd::utf8::encode_utf8(text@).len()
                != 26),
        },
{
    match ulid::Ulid::from_string(text) {
        Ok(u) => Ok(u.0),
        Err(ulid::DecodeError::InvalidLength) => Err(UlidDecodeError::InvalidLength),
        Err(ulid::DecodeError::InvalidChar) => Err(UlidDecodeError::InvalidChar),
    }
}

/// The text of the error of a failed ULID parse.
fn ulid_error_message(e: UlidDecodeError) -> (s: &'static str)
    ensures
        s@ == ulid_error_text(e),
{
    proof {
        reveal_strlit("invalid length");
        reveal_strlit("invalid character");
    }
    match e {
        UlidDecodeError::InvalidLength => "invalid length",
        UlidDecodeError::InvalidChar => "invalid character",
    }
}

/// Parse the configured run id. A text that is not ULID text is refused
/// as `Fatal(ConfigInvalid)` with the message `"run_id is not a valid ULID:
/// "` and the decoder's reason: `"invalid length"` when the text is not 26
/// bytes long, `"invalid character"` otherwise.
pub fn parse_run_id(text: &str) -> (r: Result<RunId, crate::errors::CoreError>)
    ensures
        match ulid_decode(text@) {
            Some(v) => r matches Ok(id) && id == RunId(v),
            None => r matches Err(crate::errors::CoreError::Fatal(crate::errors::FatalError::ConfigInvalid { msg }))
                && msg@ == "run_id is not a valid ULID: "@ + if vstd::utf8::encode_utf8(text@).len() != 26 {
                "invalid length"@
            } else {
                "invalid character"@
            },
        },
{
    match ulid_from_string(text) {
        Ok(v) => Ok(RunId(v)),
        Err(e) => {
            let mut msg = String::new();
            crate::text::push_str(&mut msg, "run_id is not a valid ULID: ");
            crate::text::push_str(&mut msg, ulid_error_message(e));
            proof {
                reveal_strlit("run_id is not a valid ULID: ");
                reveal_strlit("invalid length");
                reveal_strlit("invalid character");
            }
            Err(crate::errors::CoreError::Fatal(crate::errors::FatalError::ConfigInvalid { msg }))
        },
    }
}

impl RunId {
    /// The 26-character Crockford base32 text of the run's ULID.
    pub fn to_text(&self) -> (s: String)
        ensures
            s@ == ulid_text(self.0),
            ulid_decode(s@) == Some(self.0),
    {
        proof {
            lemma_ulid_round_trip(self.0);
        }
        ulid_to_string(self.0)
    }

    /// Parse a ULID text; `None` if it is not a valid ULID.
    pub fn parse(text: &str) -> (r: Option<RunId>)
        ensures
            r == match ulid_decode(text@) {
                Some(v) => Some(RunId(v)),
                None => None::<RunId>,
            },
    {
        match ulid_from_string(text) {
            Ok(v) => Some(RunId(v)),
            Err(_) => None,
        }
    }
}

impl WorkerId {
    /// The 26-character Crockford base32 text of the worker's ULID.
    pub fn to_text(&self) -> (s: String)
        ensures
            s@ == ulid_text(self.0),
            ulid_decode(s@) == Some(self.0),
    {
        proof {
            lemma_ulid_round_trip(self.0);
        }
        ulid_to_string(self.0)
    }

    /// Parse a ULID text; `None` if it is not a valid ULID.
    pub fn parse(text: &str) -> (r: Option<WorkerId>)
        ensures
            r == match ulid_decode(text@) {
                Some(v) => Some(WorkerId(v)),
                None => None::<WorkerId>,
            },
    {
        match ulid_from_string(text) {
            Ok(v) => Some(WorkerId(v)),
            Err(_) => None,
        }
    }
}

impl ContentId {
    /// Lower-case hex rendering of the 32 digest bytes (64 characters).
    pub fn to_hex(&self) -> (s: String)
        ensures
            s@ == crate::text::hex_text(self.0@),
    {
        let mut s = String::new();
        crate::text::push_hex(&mut s, &self.0);
        s
    }

    /// Parse the 64-character hex rendering back into an id.
    ///
    /// The text's bytes are read in pairs, each as a base-16 byte value:
    /// two hex digits (either case), or `+` and one digit. A text that is
    /// not 64 bytes long is refused with its byte length; the first pair
    /// that is not a byte value is refused as an invalid digit.
    pub fn parse_hex(text: &str) -> (r: Result<ContentId, String>)
        requires
            !parse_hex_splits_char(vstd::utf8::encode_utf8(text@)),
        ensures
            match parse_hex_outcome(vstd::utf8::encode_utf8(text@)) {
                Ok(bytes) => r matches Ok(id) && id.0@ == bytes,
                Err(msg) => r matches Err(m) && m@ == msg,
            },
    {
        let b = text.as_bytes();
        proof {
            assert(b@ == vstd::utf8::encode_utf8(text@));
        }
        if b.len() != 64 {
            let mut msg = String::new();
            crate::text::push_str(&mut msg, "ContentId: expected 64 hex chars, got ");
            crate::text::push_decimal(&mut msg, b.len() as u64);
            proof {
                reveal_strlit("ContentId: expected 64 hex chars, got ");
            }
            return Err(msg);
        }
        let mut out: [u8; 32] = [0u8; 32];
        let mut i: usize = 0;
        while i < 32
            invariant
                b@ == vstd::utf8::encode_utf8(text@),
                b@.len() == 64,
                i <= 32,
                forall|j: int| 0 <= j < i ==> pair_ok(b@, j) && out@[j] == hex_pair_value(b@[2 * j], b@[2 * j + 1])->0,
            decreases 32 - i,
        {
            let k = i + i;
            match hex_pair(b[k], b[k + 1]) {
                Some(v) => {
                    out[i] = v;
                },
                None => {
                    proof {
                        assert(!pair_ok(b@, i as int));
                        assert(!(forall|j: int| 0 <= j < 32 ==> pair_ok(b@, j)));
                        reveal_strlit("invalid digit found in string");
                    }
                    return Err("invalid digit found in string".to_owned());
                },
            }
            i = i + 1;
        }
        proof {
            assert(out@ =~= Seq::new(32, |j: int| hex_pair_value(b@[2 * j], b@[2 * j + 1])->0));
        }
        Ok(ContentId(out))
    }
}

/// Value of an ASCII hexadecimal digit byte, either case.
pub open spec fn hex_digit_value(b: u8) -> Option<u8> {
    if 0x30 <= b <= 0x39 {
        Some((b - 0x30) as u8)
    } else if 0x61 <= b <= 0x66 {
        Some((b - 0x61 + 10) as u8)
    } else if 0x41 <= b <= 0x46 {
        Some((b - 0x41 + 10) as u8)
    } else {
        None
    }
}

/// A two-byte chunk read as a base-16 byte: two hex digits, or the sign
/// `+` followed by one.
pub open spec fn hex_pair_value(b0: u8, b1: u8) -> Option<u8> {
    if b0 == 0x2b {
        hex_digit_value(b1)
    } else {
        match (hex_digit_value(b0), hex_digit_value(b1)) {
            (Some(h), Some(l)) => Some((h * 16 + l) as u8),
            _ => None,
        }
    }
}

/// Whether the `j`-th byte pair of `b` reads as a byte value.
pub open spec fn pair_ok(b: Seq<u8>, j: int) -> bool {
    hex_pair_value(b[2 * j], b[2 * j + 1]) is Some
}

/// What parsing the hex text with bytes `b` yields: the 32 byte values, or
/// the refusal message.
pub open spec fn parse_hex_outcome(b: Seq<u8>) -> Result<Seq<u8>, Seq<char>> {
    if b.len() != 64 {
        Err("ContentId: expected 64 hex chars, got "@ + crate::text::dec_text(b.len()))
    } else if forall|j: int| 0 <= j < 32 ==> pair_ok(b, j) {
        Ok(Seq::new(32, |j: int| hex_pair_value(b[2 * j], b[2 * j + 1])->0))
    } else {
        Err("invalid digit found in string"@)
    }
}

/// Whether reading the pairs of `b` in order reaches a pair that ends
/// inside a multi-byte character: the text cannot be cut there.
pub open spec fn parse_hex_splits_char(b: Seq<u8>) -> bool {
    &&& b.len() == 64
    &&& exists|k: int|
        0 <= k < 31 && (forall|j: int| 0 <= j < k ==> pair_ok(b, j)) && !pair_ok(b, k)
            && vstd::utf8::is_continuation_byte(#[trigger] b[2 * k + 2])
}

/// Exec reading of one hex digit byte.
fn hex_digit(b: u8) -> (r: Option<u8>)
    ensures
        r == hex_digit_value(b),
{
    if 0x30 <= b && b <= 0x39 {
        Some(b - 0x30)
    } else if 0x61 <= b && b <= 0x66 {
        Some(b - 0x61 + 10)
    } else if 0x41 <= b && b <= 0x46 {
        Some(b - 0x41 + 10)
    } else {
        None
    }
}

/// Exec reading of one byte pair.
fn hex_pair(b0: u8, b1: u8) -> (r: Option<u8>)
    ensures
        r == hex_pair_value(b0, b1),
{
    if b0 == 0x2b {
        hex_digit(b1)
    } else {
        match (hex_digit(b0), hex_digit(b1)) {
            (Some(h), Some(l)) => Some(h * 16 + l),
            _ => None,
        }
    }
}

} // verus!
