//! Block hashes and their hexadecimal text.

use vstd::prelude::*;
use vstd::std_specs::cmp::PartialEqSpecImpl;

verus! {

/// The hash that identifies a block: 32 bytes.
#[derive(Debug, Clone, Copy, Eq, Hash)]
pub struct BlockHash {
    pub bytes: [u8; 32],
}

impl View for BlockHash {
    type V = Seq<u8>;

    open spec fn view(&self) -> Seq<u8> {
        self.bytes@
    }
}

impl PartialEq for BlockHash {
    fn eq(&self, other: &BlockHash) -> (r: bool) {
        let mut i: usize = 0;
        while i < 32
            invariant
                i <= 32,
                forall|k: int| 0 <= k < i ==> self.bytes@[k] == other.bytes@[k],
            decreases 32 - i,
        {
            if self.bytes[i] != other.bytes[i] {
                return false;
            }
            i += 1;
        }
        assert(self.bytes@ =~= other.bytes@);
        true
    }
}

impl PartialEqSpecImpl for BlockHash {
    open spec fn obeys_eq_spec() -> bool {
        true
    }

    open spec fn eq_spec(&self, other: &BlockHash) -> bool {
        self@ == other@
    }
}

/// Why a text is no block hash.
#[derive(Debug, Clone, Copy, PartialEq, Eq, Structural)]
pub enum HashError {
    /// The text, past its prefix, is not an even number of hexadecimal
    /// digits.
    NotHex,
    /// The text writes this many bytes, and not 32.
    WrongLength(usize),
}

pub open spec fn is_hex_digit(c: char) -> bool {
    ('0' <= c && c <= '9') || ('a' <= c && c <= 'f') || ('A' <= c && c <= 'F')
}

pub open spec fn hex_digit_value(c: char) -> int {
    if '0' <= c && c <= '9' {
        c as int - '0' as int
    } else if 'a' <= c && c <= 'f' {
        c as int - 'a' as int + 10
    } else {
        c as int - 'A' as int + 10
    }
}

/// Whether a text writes bytes in hexadecimal: two digits, of either case,
/// for each byte.
pub open spec fn is_hex(s: Seq<char>) -> bool {
    &&& s.len() % 2 == 0
    &&& forall|i: int| 0 <= i < s.len() ==> is_hex_digit(#[trigger] s[i])
}

/// The bytes that a hexadecimal text writes.
pub open spec fn hex_bytes(s: Seq<char>) -> Seq<u8> {
    Seq::new(
        s.len() / 2,
        |i: int| (16 * hex_digit_value(s[2 * i]) + hex_digit_value(s[2 * i + 1])) as u8,
    )
}

/// The sixteen hexadecimal digits, in lower case.
pub open spec fn lower_hex_digits() -> Seq<char> {
    seq!['0', '1', '2', '3', '4', '5', '6', '7', '8', '9', 'a', 'b', 'c', 'd', 'e', 'f']
}

/// The hexadecimal text of bytes, in lower case and without prefix.
pub open spec fn hex_text(b: Seq<u8>) -> Seq<char> {
    Seq::new(
        2 * b.len(),
        |i: int|
            if i % 2 == 0 {
                lower_hex_digits()[b[i / 2] as int / 16]
            } else {
                lower_hex_digits()[b[i / 2] as int % 16]
            },
    )
}

/// A text without its `0x` prefix, where it has one.
pub open spec fn without_prefix(s: Seq<char>) -> Seq<char> {
    if s.len() >= 2 && s[0] == '0' && s[1] == 'x' {
        s.subrange(2, s.len() as int)
    } else {
        s
    }
}

/// The hash that a text writes: 64 hexadecimal digits, with or without the
/// prefix `0x`.
pub open spec fn parse_hash(s: Seq<char>) -> Result<Seq<u8>, HashError> {
    let body = without_prefix(s);
    if !is_hex(body) {
        Err(HashError::NotHex)
    } else if body.len() != 64 {
        Err(HashError::WrongLength((body.len() / 2) as usize))
    } else {
        Ok(hex_bytes(body))
    }
}

/// Each of the sixteen digits is a hexadecimal digit and is worth its place
/// among them.
pub proof fn lemma_lower_hex_digit(k: int)
    requires
        0 <= k < 16,
    ensures
        is_hex_digit(lower_hex_digits()[k]),
        hex_digit_value(lower_hex_digits()[k]) == k,
{
    let d = lower_hex_digits();
    assert(d[0] == '0' && d[1] == '1' && d[2] == '2' && d[3] == '3');
    assert(d[4] == '4' && d[5] == '5' && d[6] == '6' && d[7] == '7');
    assert(d[8] == '8' && d[9] == '9' && d[10] == 'a' && d[11] == 'b');
    assert(d[12] == 'c' && d[13] == 'd' && d[14] == 'e' && d[15] == 'f');
}

/// The text of bytes is hexadecimal, and writes those bytes.
pub proof fn lemma_hex_text_writes(b: Seq<u8>)
    ensures
        is_hex(hex_text(b)),
        hex_bytes(hex_text(b)) == b,
{
    let t = hex_text(b);
    assert forall|i: int| 0 <= i < t.len() implies is_hex_digit(#[trigger] t[i]) by {
        lemma_lower_hex_digit(b[i / 2] as int / 16);
        lemma_lower_hex_digit(b[i / 2] as int % 16);
    }
    assert forall|i: int| 0 <= i < b.len() implies #[trigger] hex_bytes(t)[i] == b[i] by {
        lemma_lower_hex_digit(b[i] as int / 16);
        lemma_lower_hex_digit(b[i] as int % 16);
        assert(t[2 * i] == lower_hex_digits()[b[i] as int / 16]);
        assert(t[2 * i + 1] == lower_hex_digits()[b[i] as int % 16]);
    }
    assert(hex_bytes(t) =~= b);
}

/// Writing a hash out and reading it back gives the same hash, with the
/// prefix `0x` before the text and without it.
pub proof fn lemma_hash_text_round_trip(b: Seq<u8>)
    requires
        b.len() == 32,
    ensures
        parse_hash(hex_text(b)) == Ok::<Seq<u8>, HashError>(b),
        parse_hash(seq!['0', 'x'] + hex_text(b)) == Ok::<Seq<u8>, HashError>(b),
{
    let t = hex_text(b);
    lemma_hex_text_writes(b);
    assert(is_hex_digit(t[1]));
    assert(without_prefix(t) == t);
    let prefixed = seq!['0', 'x'] + t;
    assert(prefixed[0] == '0' && prefixed[1] == 'x');
    assert(without_prefix(prefixed) =~= t);
}

/// Every text that writes a hash, in digits of either case and with or
/// without the prefix, reads back from the canonical text of that hash as
/// the same hash.
pub proof fn lemma_parse_round_trip(text: Seq<char>)
    requires
        parse_hash(text) is Ok,
    ensures
        parse_hash(hex_text(parse_hash(text)->Ok_0)) == parse_hash(text),
{
    lemma_hash_text_round_trip(parse_hash(text)->Ok_0);
}

/// The error of `hex::decode`, of which nothing is read.
#[verifier::external_type_specification]
#[verifier::external_body]
pub struct ExFromHexError(hex::FromHexError);

/// Calls `hex::decode`. It fails on a text of odd length and on one that
/// holds anything but the digits `0-9`, `a-f` and `A-F`; of any other text
/// it gives one byte for each two digits, the first digit being the upper
/// half of the byte. (It reads the text byte by byte: a character that
/// takes several bytes is no digit, so the text is refused whatever its
/// length.)
#[verifier::external_body]
fn hex_decode(text: &str) -> (r: Result<Vec<u8>, hex::FromHexError>)
    ensures
        r is Ok <==> is_hex(text@),
        r matches Ok(v) ==> v@ == hex_bytes(text@),
{
    hex::decode(text)
}

/// Calls `hex::encode`, which writes each byte as two digits from
/// `0123456789abcdef`, the upper half of the byte first.
#[verifier::external_body]
fn hex_encode(bytes: &[u8; 32]) -> (r: String)
    ensures
        r@ == hex_text(bytes@),
{
    hex::encode(bytes)
}

impl BlockHash {
    /// Reads a hash from its hexadecimal text.
    pub fn parse(text: &str) -> (r: Result<BlockHash, HashError>)
        ensures
            match r {
                Ok(hash) => parse_hash(text@) == Ok::<Seq<u8>, HashError>(hash@),
                Err(e) => parse_hash(text@) == Err::<Seq<u8>, HashError>(e),
            },
    {
        let n = text.unicode_len();
        let prefixed = n >= 2 && text.get_char(0) == '0' && text.get_char(1) == 'x';
        let body = if prefixed { text.substring_char(2, n) } else { text };
        match hex_decode(body) {
            Err(_) => Err(HashError::NotHex),
            Ok(decoded) => {
                if decoded.len() != 32 {
                    return Err(HashError::WrongLength(decoded.len()));
                }
                let mut bytes: [u8; 32] = [0u8; 32];
                let mut i: usize = 0;
                while i < 32
                    invariant
                        i <= 32,
                        decoded.len() == 32,
                        forall|k: int| 0 <= k < i ==> bytes@[k] == decoded@[k],
                    decreases 32 - i,
                {
                    bytes[i] = decoded[i];
                    i += 1;
                }
                assert(bytes@ =~= decoded@);
                Ok(BlockHash { bytes })
            },
        }
    }

    /// The hexadecimal text of the hash: 64 digits in lower case, without
    /// prefix.
    pub fn to_hex(&self) -> (r: String)
        ensures
            r@ == hex_text(self@),
            parse_hash(r@) == Ok::<Seq<u8>, HashError>(self@),
    {
        proof {
            lemma_hash_text_round_trip(self@);
        }
        hex_encode(&self.bytes)
    }
}

} // verus!
