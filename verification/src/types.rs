use vstd::prelude::*;
use vstd::bytes::{spec_u64_to_le_bytes, u64_to_le_bytes};
use vstd::string::StringSliceAdditionalSpecFns;

verus! {

/// A rollup transaction.
#[derive(Debug, Clone, PartialEq, Eq)]
pub struct Transaction {
    pub from: String,
    pub to: Option<String>,
    pub value: u64,
    pub data: Vec<u8>,
    pub nonce: u64,
    pub gas_limit: u64,
    pub max_fee_per_gas: u64,
}

/// The UTF-8 bytes of a string.
pub open spec fn utf8_spec(s: Seq<char>) -> Seq<u8> {
    vstd::utf8::encode_utf8(s)
}

/// A string in the binary layout: its byte length as a little-endian `u64`, then its bytes.
pub open spec fn encode_str_spec(s: Seq<char>) -> Seq<u8> {
    spec_u64_to_le_bytes(utf8_spec(s).len() as u64) + utf8_spec(s)
}

/// A byte vector in the binary layout: its length as a little-endian `u64`, then its bytes.
pub open spec fn encode_bytes_spec(b: Seq<u8>) -> Seq<u8> {
    spec_u64_to_le_bytes(b.len() as u64) + b
}

/// An optional string: a `0` byte for `None`, or a `1` byte followed by the string.
pub open spec fn encode_opt_str_spec(o: Option<Seq<char>>) -> Seq<u8> {
    match o {
        None => seq![0u8],
        Some(s) => seq![1u8] + encode_str_spec(s),
    }
}

/// The views of a transaction's optional recipient.
pub open spec fn opt_string_view(o: Option<String>) -> Option<Seq<char>> {
    match o {
        None => None,
        Some(s) => Some(s@),
    }
}

impl Transaction {
    /// The binary layout of a transaction: its fields in order, fixed-width little-endian
    /// integers, length-prefixed strings and bytes, and a tag byte for the optional recipient
    /// (the layout `bincode` gives the same struct).
    pub open spec fn encoding_spec(&self) -> Seq<u8> {
        encode_str_spec(self.from@) + encode_opt_str_spec(opt_string_view(self.to))
            + spec_u64_to_le_bytes(self.value) + encode_bytes_spec(self.data@)
            + spec_u64_to_le_bytes(self.nonce) + spec_u64_to_le_bytes(self.gas_limit)
            + spec_u64_to_le_bytes(self.max_fee_per_gas)
    }

    /// The transaction's hash: SHA-256 of its binary layout.
    pub open spec fn hash_spec(&self) -> Seq<u8> {
        crate::hash_utils::sha256_spec(self.encoding_spec())
    }

    /// The binary layout of the transaction (see `encoding_spec`).
    pub fn encode(&self) -> (out: Vec<u8>)
        ensures
            out@ == self.encoding_spec(),
    {
        let mut out: Vec<u8> = Vec::new();
        append_str(&mut out, self.from.as_str());
        match &self.to {
            None => {
                out.push(0u8);
            },
            Some(t) => {
                out.push(1u8);
                append_str(&mut out, t.as_str());
            },
        }
        append_u64(&mut out, self.value);
        append_u64(&mut out, self.data.len() as u64);
        append_bytes(&mut out, self.data.as_slice());
        append_u64(&mut out, self.nonce);
        append_u64(&mut out, self.gas_limit);
        append_u64(&mut out, self.max_fee_per_gas);
        proof {
            let f = encode_str_spec(self.from@);
            let o = encode_opt_str_spec(opt_string_view(self.to));
            assert(out@ =~= f + o + spec_u64_to_le_bytes(self.value) + encode_bytes_spec(
                self.data@,
            ) + spec_u64_to_le_bytes(self.nonce) + spec_u64_to_le_bytes(self.gas_limit)
                + spec_u64_to_le_bytes(self.max_fee_per_gas));
        }
        out
    }

    /// The transaction's hash (see `hash_spec`).
    pub fn hash(&self) -> (h: crate::hash_utils::Hash)
        ensures
            h@ == self.hash_spec(),
    {
        let bytes = self.encode();
        crate::hash_utils::Hash::new(bytes.as_slice())
    }
}

/// What a transaction holds.
pub struct TransactionModel {
    pub from: Seq<char>,
    pub to: Option<Seq<char>>,
    pub value: u64,
    pub data: Seq<u8>,
    pub nonce: u64,
    pub gas_limit: u64,
    pub max_fee_per_gas: u64,
}

impl View for Transaction {
    type V = TransactionModel;

    open spec fn view(&self) -> TransactionModel {
        TransactionModel {
            from: self.from@,
            to: opt_string_view(self.to),
            value: self.value,
            data: self.data@,
            nonce: self.nonce,
            gas_limit: self.gas_limit,
            max_fee_per_gas: self.max_fee_per_gas,
        }
    }
}

impl Transaction {
    /// A field-by-field copy.
    pub fn duplicate(&self) -> (r: Transaction)
        ensures
            r@ == self@,
            r.encoding_spec() == self.encoding_spec(),
    {
        Transaction {
            from: self.from.clone(),
            to: crate::util::copy_opt_string(&self.to),
            value: self.value,
            data: crate::util::copy_vec(&self.data),
            nonce: self.nonce,
            gas_limit: self.gas_limit,
            max_fee_per_gas: self.max_fee_per_gas,
        }
    }
}

/// Append a length-prefixed byte vector (see `encode_bytes_spec`).
pub(crate) fn append_prefixed_bytes(out: &mut Vec<u8>, b: &[u8])
    ensures
        final(out)@ == old(out)@ + encode_bytes_spec(b@),
{
    append_u64(out, b.len() as u64);
    append_bytes(out, b);
    assert(final(out)@ =~= old(out)@ + encode_bytes_spec(b@));
}

pub(crate) fn append_bytes(out: &mut Vec<u8>, b: &[u8])
    ensures
        final(out)@ == old(out)@ + b@,
{
    let mut i: usize = 0;
    while i < b.len()
        invariant
            0 <= i <= b@.len(),
            out@ =~= old(out)@ + b@.subrange(0, i as int),
        decreases b@.len() - i,
    {
        out.push(b[i]);
        i = i + 1;
    }
    assert(b@.subrange(0, b@.len() as int) =~= b@);
}

pub(crate) fn append_u64(out: &mut Vec<u8>, x: u64)
    ensures
        final(out)@ == old(out)@ + spec_u64_to_le_bytes(x),
{
    let b = u64_to_le_bytes(x);
    append_bytes(out, b.as_slice());
}

pub(crate) fn append_str(out: &mut Vec<u8>, s: &str)
    ensures
        final(out)@ == old(out)@ + encode_str_spec(s@),
{
    let b = s.as_bytes();
    append_u64(out, b.len() as u64);
    append_bytes(out, b);
    assert(final(out)@ =~= old(out)@ + encode_str_spec(s@));
}

/// A 32-byte hash as it is written to and read from the wire: as its bytes.
#[derive(Debug, Clone, Copy)]
pub struct SerializableHash(pub crate::hash_utils::Hash);

impl SerializableHash {
    pub fn new(hash: crate::hash_utils::Hash) -> (r: Self)
        ensures
            r.0 == hash,
    {
        SerializableHash(hash)
    }

    /// The all-zero hash.
    pub fn default_hash() -> (r: Self)
        ensures
            r.0@ == crate::hash_utils::Hash::zero_spec(),
    {
        SerializableHash(crate::hash_utils::Hash::default())
    }

    /// The wrapped hash.
    pub fn inner(&self) -> (r: &crate::hash_utils::Hash)
        ensures
            *r == self.0,
    {
        &self.0
    }

    /// The hash whose bytes were read, refused unless there are exactly 32 of them.
    pub fn from_wire_bytes(bytes: &[u8]) -> (r: Option<Self>)
        ensures
            match r {
                Some(h) => bytes@.len() == 32 && h.0@ == bytes@,
                None => bytes@.len() != 32,
            },
    {
        if bytes.len() != 32 {
            return None;
        }
        let mut arr = [0u8; 32];
        let mut i: usize = 0;
        while i < 32
            invariant
                bytes@.len() == 32,
                0 <= i <= 32,
                forall|j: int| 0 <= j < i ==> arr@[j] == bytes@[j],
            decreases 32 - i,
        {
            arr.set(i, bytes[i]);
            i = i + 1;
        }
        assert(arr@ =~= bytes@);
        Some(SerializableHash(crate::hash_utils::Hash::from_bytes(arr)))
    }
}

impl Default for SerializableHash {
    fn default() -> (r: Self)
        ensures
            r.0@ == crate::hash_utils::Hash::zero_spec(),
    {
        Self::default_hash()
    }
}

} // verus!
