use vstd::prelude::*;
use sha2::Digest;
use vstd::string::StringSliceAdditionalSpecFns;

verus! {

/// The SHA-256 digest of `data`, as the `sha2` crate computes it.
pub uninterp spec fn sha256_spec(data: Seq<u8>) -> Seq<u8>;

/// Calls `sha2::Sha256::digest` (through the `Digest` trait). The contract claims only
/// that the 32 bytes returned are the SHA-256 digest of `data`, named by `sha256_spec`.
#[verifier::external_body]
fn sha256_digest(data: &[u8]) -> (out: [u8; 32])
    ensures
        out@ == sha256_spec(data@),
{
    sha2::Sha256::digest(data).into()
}

/// Calls `String::push`: the character is appended at the end.
#[verifier::external_body]
pub(crate) fn string_push(s: &mut String, c: char)
    ensures
        final(s)@ == old(s)@.push(c),
{
    s.push(c)
}

/// A 32-byte SHA-256 hash.
#[derive(Debug, Clone, Copy, Eq, Hash)]
pub struct Hash([u8; 32]);

impl View for Hash {
    type V = Seq<u8>;

    closed spec fn view(&self) -> Seq<u8> {
        self.0@
    }
}

impl PartialEq for Hash {
    fn eq(&self, other: &Self) -> (r: bool) {
        bytes_equal(&self.0, &other.0)
    }
}

impl vstd::std_specs::cmp::PartialEqSpecImpl for Hash {
    open spec fn obeys_eq_spec() -> bool {
        true
    }

    open spec fn eq_spec(&self, other: &Self) -> bool {
        self@ == other@
    }
}

/// Byte-wise equality of two 32-byte arrays.
fn bytes_equal(a: &[u8; 32], b: &[u8; 32]) -> (r: bool)
    ensures
        r == (a@ == b@),
{
    let mut i: usize = 0;
    while i < 32
        invariant
            0 <= i <= 32,
            a@.len() == 32,
            b@.len() == 32,
            forall|j: int| 0 <= j < i ==> a@[j] == b@[j],
        decreases 32 - i,
    {
        if a[i] != b[i] {
            assert(a@[i as int] != b@[i as int]);
            return false;
        }
        i = i + 1;
    }
    assert(a@ =~= b@);
    true
}

/// Lexicographic `<=` on byte strings of equal length, as `<=` on arrays compares them.
pub open spec fn bytes_le_spec(a: Seq<u8>, b: Seq<u8>) -> bool
    decreases a.len(),
{
    if a.len() == 0 || b.len() == 0 {
        a.len() <= b.len()
    } else if a[0] != b[0] {
        a[0] < b[0]
    } else {
        bytes_le_spec(a.drop_first(), b.drop_first())
    }
}

/// `a <= b` on 32-byte arrays (lexicographic order).
pub fn bytes_le(a: &[u8; 32], b: &[u8; 32]) -> (r: bool)
    ensures
        r == bytes_le_spec(a@, b@),
{
    let mut i: usize = 0;
    assert(a@.skip(0) =~= a@);
    assert(b@.skip(0) =~= b@);
    while i < 32
        invariant
            0 <= i <= 32,
            a@.len() == 32,
            b@.len() == 32,
            forall|j: int| 0 <= j < i ==> a@[j] == b@[j],
            bytes_le_spec(a@, b@) == bytes_le_spec(a@.skip(i as int), b@.skip(i as int)),
        decreases 32 - i,
    {
        assert(a@.skip(i as int).drop_first() =~= a@.skip(i + 1));
        assert(b@.skip(i as int).drop_first() =~= b@.skip(i + 1));
        if a[i] != b[i] {
            return a[i] < b[i];
        }
        i = i + 1;
    }
    assert(a@.skip(32).len() == 0);
    true
}

/// The lowercase ASCII hex digit of a value below 16.
pub open spec fn hex_digit_spec(n: u8) -> u8 {
    if n < 10 {
        (48 + n) as u8
    } else {
        (87 + n) as u8
    }
}

/// Lowercase hex encoding: two ASCII digits per byte, high nibble first.
pub open spec fn hex_encode_spec(b: Seq<u8>) -> Seq<u8> {
    Seq::new(
        2 * b.len(),
        |i: int|
            if i % 2 == 0 {
                hex_digit_spec(b[i / 2] / 16)
            } else {
                hex_digit_spec(b[i / 2] % 16)
            },
    )
}

/// The value of one hex digit (`0-9`, `a-f`, `A-F`), or `None` for any other byte.
pub open spec fn hex_value_spec(c: u8) -> Option<u8> {
    if 48 <= c <= 57 {
        Some((c - 48) as u8)
    } else if 97 <= c <= 102 {
        Some((c - 87) as u8)
    } else if 65 <= c <= 70 {
        Some((c - 55) as u8)
    } else {
        None
    }
}

/// The first index at or after `from` that does not hold a hex digit, or `b.len()`.
pub open spec fn first_non_hex(b: Seq<u8>, from: int) -> int
    decreases b.len() - from,
{
    if from >= b.len() {
        b.len() as int
    } else if hex_value_spec(b[from]) is None {
        from
    } else {
        first_non_hex(b, from + 1)
    }
}

/// Why a hex string could not be decoded.
#[derive(Debug, Clone, Copy, PartialEq, Eq, Structural)]
pub enum HexError {
    InvalidHexCharacter { c: char, index: usize },
    OddLength,
    InvalidStringLength,
}

/// The bytes a valid hex string stands for.
pub open spec fn hex_bytes_spec(b: Seq<u8>) -> Seq<u8> {
    Seq::new(
        b.len() / 2,
        |j: int|
            (hex_value_spec(b[2 * j]).unwrap() * 16 + hex_value_spec(b[2 * j + 1]).unwrap()) as u8,
    )
}

/// Hex decoding: odd length first, then the first byte that is not a hex digit.
pub open spec fn hex_decode_spec(b: Seq<u8>) -> Result<Seq<u8>, HexError> {
    if b.len() % 2 != 0 {
        Err(HexError::OddLength)
    } else if first_non_hex(b, 0) < b.len() {
        let k = first_non_hex(b, 0);
        Err(HexError::InvalidHexCharacter { c: b[k] as char, index: k as usize })
    } else {
        Ok(hex_bytes_spec(b))
    }
}

/// Parsing a hash from hex: the decoding must succeed and give exactly 32 bytes.
pub open spec fn hash_from_hex_spec(b: Seq<u8>) -> Result<Seq<u8>, HexError> {
    match hex_decode_spec(b) {
        Err(e) => Err(e),
        Ok(v) => if v.len() == 32 {
            Ok(v)
        } else {
            Err(HexError::InvalidStringLength)
        },
    }
}

proof fn lemma_first_non_hex_bounds(b: Seq<u8>, from: int)
    requires
        0 <= from <= b.len(),
    ensures
        from <= first_non_hex(b, from) <= b.len(),
        first_non_hex(b, from) < b.len() ==> hex_value_spec(b[first_non_hex(b, from)]) is None,
        forall|j: int| from <= j < first_non_hex(b, from) ==> hex_value_spec(#[trigger] b[j]) is Some,
    decreases b.len() - from,
{
    if from < b.len() && hex_value_spec(b[from]) is Some {
        lemma_first_non_hex_bounds(b, from + 1);
    }
}

proof fn lemma_first_non_hex_skip(b: Seq<u8>, from: int)
    requires
        0 <= from <= b.len(),
        forall|j: int| 0 <= j < from ==> hex_value_spec(#[trigger] b[j]) is Some,
    ensures
        first_non_hex(b, 0) == first_non_hex(b, from),
    decreases from,
{
    if from > 0 {
        lemma_first_non_hex_skip(b, from - 1);
    }
}

fn hex_digit(n: u8) -> (c: char)
    requires
        n < 16,
    ensures
        c as u8 == hex_digit_spec(n),
        c == hex_digit_spec(n) as char,
{
    if n < 10 {
        (48 + n) as char
    } else {
        (87 + n) as char
    }
}

fn hex_value(c: u8) -> (r: Option<u8>)
    ensures
        r == hex_value_spec(c),
{
    if 48 <= c && c <= 57 {
        Some(c - 48)
    } else if 97 <= c && c <= 102 {
        Some(c - 87)
    } else if 65 <= c && c <= 70 {
        Some(c - 55)
    } else {
        None
    }
}

/// Decode a hex string given by its bytes.
pub fn hex_decode(b: &[u8]) -> (r: Result<Vec<u8>, HexError>)
    ensures
        match r {
            Ok(v) => hex_decode_spec(b@) == Ok::<Seq<u8>, HexError>(v@),
            Err(e) => hex_decode_spec(b@) == Err::<Seq<u8>, HexError>(e),
        },
{
    let n = b.len();
    if n % 2 != 0 {
        return Err(HexError::OddLength);
    }
    let mut out: Vec<u8> = Vec::new();
    let mut j: usize = 0;
    while j < n / 2
        invariant
            n == b@.len(),
            n % 2 == 0,
            0 <= j <= n / 2,
            out@.len() == j,
            forall|k: int| 0 <= k < 2 * j ==> hex_value_spec(#[trigger] b@[k]) is Some,
            forall|k: int| 0 <= k < j ==> #[trigger] out@[k] == hex_bytes_spec(b@)[k],
        decreases n / 2 - j,
    {
        let hi = hex_value(b[2 * j]);
        match hi {
            None => {
                proof {
                    lemma_first_non_hex_skip(b@, 2 * j as int);
                }
                return Err(HexError::InvalidHexCharacter { c: b[2 * j] as char, index: 2 * j });
            },
            Some(h) => {
                let lo = hex_value(b[2 * j + 1]);
                match lo {
                    None => {
                        proof {
                            assert forall|k: int| 0 <= k < 2 * j + 1 implies hex_value_spec(
                                #[trigger] b@[k],
                            ) is Some by {
                                if k == 2 * j {
                                } else {
                                }
                            }
                            lemma_first_non_hex_skip(b@, 2 * j + 1);
                        }
                        return Err(
                            HexError::InvalidHexCharacter {
                                c: b[2 * j + 1] as char,
                                index: 2 * j + 1,
                            },
                        );
                    },
                    Some(l) => {
                        out.push(h * 16 + l);
                        proof {
                            assert forall|k: int| 0 <= k < 2 * (j + 1) implies hex_value_spec(
                                #[trigger] b@[k],
                            ) is Some by {
                                if k == 2 * j {
                                } else if k == 2 * j + 1 {
                                } else {
                                }
                            }
                        }
                    },
                }
            },
        }
        j = j + 1;
    }
    proof {
        lemma_first_non_hex_skip(b@, n as int);
        assert(out@ =~= hex_bytes_spec(b@));
    }
    Ok(out)
}

/// Decoding the encoding of any bytes gives them back.
pub proof fn lemma_hex_roundtrip(b: Seq<u8>)
    ensures
        hex_decode_spec(hex_encode_spec(b)) == Ok::<Seq<u8>, HexError>(b),
{
    let e = hex_encode_spec(b);
    assert forall|k: int| 0 <= k < e.len() implies hex_value_spec(#[trigger] e[k]) is Some by {
        let x = b[k / 2];
        assert(x / 16 < 16);
        assert(x % 16 < 16);
    }
    lemma_first_non_hex_skip(e, e.len() as int);
    assert forall|j: int| 0 <= j < b.len() implies #[trigger] hex_bytes_spec(e)[j] == b[j] by {
        let x = b[j];
        assert(e[2 * j] == hex_digit_spec(x / 16));
        assert(e[2 * j + 1] == hex_digit_spec(x % 16));
        assert(hex_value_spec(hex_digit_spec(x / 16)) == Some((x / 16) as u8));
        assert(hex_value_spec(hex_digit_spec(x % 16)) == Some((x % 16) as u8));
        assert((x / 16) * 16 + x % 16 == x);
    }
    assert(hex_bytes_spec(e) =~= b);
}

impl Hash {
    /// Hash `data` with SHA-256.
    pub fn new(data: &[u8]) -> (h: Hash)
        ensures
            h@ == sha256_spec(data@),
    {
        Hash(sha256_digest(data))
    }

    pub fn from_bytes(bytes: [u8; 32]) -> (h: Hash)
        ensures
            h@ == bytes@,
    {
        Hash(bytes)
    }

    pub fn as_bytes(&self) -> (r: &[u8; 32])
        ensures
            r@ == self@,
    {
        &self.0
    }

    /// The all-zero hash, which `Default` gives.
    pub open spec fn zero_spec() -> Seq<u8> {
        Seq::new(32, |i: int| 0u8)
    }

    /// The lowercase hex encoding of the 32 bytes (64 characters).
    pub fn to_string(&self) -> (s: String)
        ensures
            s@ == hex_encode_spec(self@).map_values(|c: u8| c as char),
    {
        let mut s = String::new();
        let ghost want = hex_encode_spec(self@).map_values(|c: u8| c as char);
        let mut i: usize = 0;
        while i < 32
            invariant
                0 <= i <= 32,
                self.0@.len() == 32,
                want == hex_encode_spec(self@).map_values(|c: u8| c as char),
                self@ == self.0@,
                s@ =~= want.subrange(0, 2 * i as int),
            decreases 32 - i,
        {
            let x = self.0[i];
            let hi = hex_digit(x / 16);
            let lo = hex_digit(x % 16);
            string_push(&mut s, hi);
            string_push(&mut s, lo);
            assert(want[2 * i as int] == hi);
            assert(want[2 * i + 1] == lo);
            assert(s@ =~= want.subrange(0, 2 * (i + 1) as int));
            i = i + 1;
        }
        s
    }

    /// Parse a hash from its hex string; the string must decode to exactly 32 bytes.
    pub fn from_string(s: &str) -> (r: Result<Hash, HexError>)
        ensures
            match r {
                Ok(h) => hash_from_hex_spec(s.spec_bytes()) == Ok::<Seq<u8>, HexError>(h@),
                Err(e) => hash_from_hex_spec(s.spec_bytes()) == Err::<Seq<u8>, HexError>(e),
            },
    {
        let bytes = s.as_bytes();
        let decoded = hex_decode(bytes);
        match decoded {
            Err(e) => Err(e),
            Ok(v) => {
                if v.len() != 32 {
                    return Err(HexError::InvalidStringLength);
                }
                let mut out = [0u8; 32];
                let mut i: usize = 0;
                while i < 32
                    invariant
                        0 <= i <= 32,
                        v@.len() == 32,
                        out@.len() == 32,
                        forall|k: int| 0 <= k < i ==> out@[k] == v@[k],
                    decreases 32 - i,
                {
                    out[i] = v[i];
                    i = i + 1;
                }
                assert(out@ =~= v@);
                Ok(Hash(out))
            },
        }
    }
}

impl Default for Hash {
    fn default() -> (h: Hash)
        ensures
            h@ == Hash::zero_spec(),
    {
        let h = Hash([0u8; 32]);
        assert(h@ =~= Hash::zero_spec());
        h
    }
}

/// Accumulates bytes and hashes them with SHA-256 on `finalize`.
pub struct Hasher {
    buffer: Vec<u8>,
}

impl View for Hasher {
    type V = Seq<u8>;

    closed spec fn view(&self) -> Seq<u8> {
        self.buffer@
    }
}

impl Hasher {
    pub fn new() -> (h: Hasher)
        ensures
            h@ == Seq::<u8>::empty(),
    {
        Hasher { buffer: Vec::new() }
    }

    pub fn update(&mut self, data: &[u8])
        ensures
            final(self)@ == old(self)@ + data@,
    {
        let mut i: usize = 0;
        while i < data.len()
            invariant
                0 <= i <= data@.len(),
                self.buffer@ =~= old(self)@ + data@.subrange(0, i as int),
            decreases data.len() - i,
        {
            self.buffer.push(data[i]);
            i = i + 1;
        }
        assert(data@.subrange(0, data@.len() as int) =~= data@);
    }

    /// The SHA-256 hash of everything fed so far.
    pub fn finalize(self) -> (h: Hash)
        ensures
            h@ == sha256_spec(self@),
    {
        Hash::new(self.buffer.as_slice())
    }
}

impl Default for Hasher {
    fn default() -> (h: Hasher)
        ensures
            h@ == Seq::<u8>::empty(),
    {
        Hasher::new()
    }
}

} // verus!
