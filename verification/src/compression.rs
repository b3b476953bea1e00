use vstd::prelude::*;
use std::io::{Read, Write};

verus! {

/// Ratios are given in millionths (500_000 is one half).
pub const RATIO_SCALE: u64 = 1_000_000;

/// The gzip stream that `flate2` writes for `data` at `level`.
pub uninterp spec fn gzip_spec(data: Seq<u8>, level: u32) -> Seq<u8>;

/// What `flate2` reads out of a gzip stream: the data, or `None` when it cannot.
pub uninterp spec fn gunzip_spec(data: Seq<u8>) -> Option<Seq<u8>>;

/// The zlib stream that `flate2` writes for `data` at `level`.
pub uninterp spec fn zlib_spec(data: Seq<u8>, level: u32) -> Seq<u8>;

/// What `flate2` reads out of a zlib stream: the data, or `None` when it cannot.
pub uninterp spec fn unzlib_spec(data: Seq<u8>) -> Option<Seq<u8>>;

/// Compresses into memory with `flate2::write::GzEncoder` at `level`. The encoder writes
/// into a `Vec`, which takes every write, so the stream always comes back: it is
/// `gzip_spec(data, level)`, and the gzip decoder reads `data` back from it.
#[verifier::external_body]
pub(crate) fn gzip_compress(data: &[u8], level: u32) -> (r: Option<Vec<u8>>)
    requires
        level <= 9,
    ensures
        r is Some,
        r matches Some(v) ==> v@ == gzip_spec(data@, level) && gunzip_spec(v@) == Some(data@),
{
    let mut e = flate2::write::GzEncoder::new(Vec::new(), flate2::Compression::new(level));
    if e.write_all(data).is_err() {
        return None;
    }
    e.finish().ok()
}

/// Decompresses a gzip stream with `flate2::read::GzDecoder`: `gunzip_spec(data)`.
#[verifier::external_body]
pub(crate) fn gzip_decompress(data: &[u8]) -> (r: Option<Vec<u8>>)
    ensures
        match r {
            Some(v) => gunzip_spec(data@) == Some(v@),
            None => gunzip_spec(data@) is None,
        },
{
    let mut out = Vec::new();
    match flate2::read::GzDecoder::new(data).read_to_end(&mut out) {
        Ok(_) => Some(out),
        Err(_) => None,
    }
}

/// Compresses into memory with `flate2::write::ZlibEncoder` at `level`. The encoder writes
/// into a `Vec`, which takes every write, so the stream always comes back: it is
/// `zlib_spec(data, level)`, and the zlib decoder reads `data` back from it.
#[verifier::external_body]
fn zlib_compress(data: &[u8], level: u32) -> (r: Option<Vec<u8>>)
    requires
        level <= 9,
    ensures
        r is Some,
        r matches Some(v) ==> v@ == zlib_spec(data@, level) && unzlib_spec(v@) == Some(data@),
{
    let mut e = flate2::write::ZlibEncoder::new(Vec::new(), flate2::Compression::new(level));
    if e.write_all(data).is_err() {
        return None;
    }
    e.finish().ok()
}

/// Decompresses a zlib stream with `flate2::read::ZlibDecoder`: `unzlib_spec(data)`.
#[verifier::external_body]
fn zlib_decompress(data: &[u8]) -> (r: Option<Vec<u8>>)
    ensures
        match r {
            Some(v) => unzlib_spec(data@) == Some(v@),
            None => unzlib_spec(data@) is None,
        },
{
    let mut out = Vec::new();
    match flate2::read::ZlibDecoder::new(data).read_to_end(&mut out) {
        Ok(_) => Some(out),
        Err(_) => None,
    }
}

/// Compression algorithms.
#[derive(Debug, Clone, Copy, PartialEq, Eq, Structural)]
pub enum CompressionAlgorithm {
    Uncompressed,
    Gzip,
    Zlib,
}

/// Compressed data with its sizes.
#[derive(Debug, Clone)]
pub struct CompressedData {
    pub algorithm: CompressionAlgorithm,
    pub original_size: usize,
    pub compressed_size: usize,
    pub data: Vec<u8>,
    /// Compressed size over original size, in millionths.
    pub compression_ratio: u64,
}

/// Why compression or decompression failed.
#[derive(Debug, Clone, Copy, PartialEq, Eq, Structural)]
pub enum CompressionError {
    /// The encoder or decoder reported an I/O error.
    Io,
    /// The decompressed data has another size than recorded.
    SizeMismatch { expected: usize, got: usize },
    NoAlgorithms,
}

/// `compressed / original` in millionths, rounded down (1.0 for empty input, at most
/// `u64::MAX`).
pub open spec fn ratio_spec(compressed: int, original: int) -> u64 {
    if original > 0 {
        if compressed * RATIO_SCALE / original > u64::MAX {
            u64::MAX
        } else {
            (compressed * RATIO_SCALE / original) as u64
        }
    } else {
        RATIO_SCALE
    }
}

/// The compressed form of `data` under `algorithm` at `level`.
pub open spec fn encode_spec(data: Seq<u8>, algorithm: CompressionAlgorithm, level: u32) -> Seq<u8> {
    match algorithm {
        CompressionAlgorithm::Uncompressed => data,
        CompressionAlgorithm::Gzip => gzip_spec(data, level),
        CompressionAlgorithm::Zlib => zlib_spec(data, level),
    }
}

/// `c` holds `x`: the decoder of its algorithm reads `x` back from its bytes, and `x` has the
/// recorded original size.
pub open spec fn decodes_to(c: CompressedData, x: Seq<u8>) -> bool {
    &&& c.original_size == x.len()
    &&& match c.algorithm {
        CompressionAlgorithm::Uncompressed => c.data@ == x,
        CompressionAlgorithm::Gzip => gunzip_spec(c.data@) == Some(x),
        CompressionAlgorithm::Zlib => unzlib_spec(c.data@) == Some(x),
    }
}

/// What `decompress` gives for `c`.
pub open spec fn decompress_spec(c: CompressedData) -> Result<Seq<u8>, CompressionError> {
    let decoded = match c.algorithm {
        CompressionAlgorithm::Uncompressed => Some(c.data@),
        CompressionAlgorithm::Gzip => gunzip_spec(c.data@),
        CompressionAlgorithm::Zlib => unzlib_spec(c.data@),
    };
    match decoded {
        None => Err(CompressionError::Io),
        Some(x) => if c.algorithm == CompressionAlgorithm::Uncompressed || x.len() == c.original_size {
            Ok(x)
        } else {
            Err(CompressionError::SizeMismatch { expected: c.original_size, got: x.len() as usize })
        },
    }
}

/// What compression gives, decompression gives back.
pub proof fn lemma_roundtrip(c: CompressedData, x: Seq<u8>)
    requires
        decodes_to(c, x),
    ensures
        decompress_spec(c) == Ok::<Seq<u8>, CompressionError>(x),
{
}

impl CompressedData {
    /// Compressed data of `original_size` bytes under `algorithm`, with its ratio.
    pub fn new(data: Vec<u8>, original_size: usize, algorithm: CompressionAlgorithm) -> (c: Self)
        ensures
            c.data@ == data@,
            c.original_size == original_size,
            c.algorithm == algorithm,
            c.compressed_size == data@.len(),
            c.compression_ratio == ratio_spec(data@.len() as int, original_size as int),
    {
        let compressed_size = data.len();
        let compression_ratio = ratio(compressed_size, original_size);
        CompressedData { algorithm, original_size, compressed_size, data, compression_ratio }
    }
}

fn ratio(compressed: usize, original: usize) -> (r: u64)
    ensures
        r == ratio_spec(compressed as int, original as int),
{
    if original > 0 {
        let wide = crate::util::mul_wide(compressed as u64, RATIO_SCALE) / (original as u128);
        if wide > u64::MAX as u128 {
            u64::MAX
        } else {
            wide as u64
        }
    } else {
        RATIO_SCALE
    }
}

#[derive(Debug, Clone)]
pub struct CompressionStats {
    pub original_size: usize,
    pub algorithms: Vec<AlgorithmStats>,
}

#[derive(Debug, Clone, Copy, PartialEq, Eq, Structural)]
pub struct AlgorithmStats {
    pub algorithm: CompressionAlgorithm,
    pub compressed_size: usize,
    /// In millionths.
    pub compression_ratio: u64,
    pub space_saved: usize,
}

#[derive(Debug, Clone, Copy, PartialEq, Eq, Structural)]
pub struct CompressionSavings {
    pub original_size: usize,
    pub best_compressed_size: usize,
    pub best_algorithm: CompressionAlgorithm,
    pub space_saved_bytes: usize,
    pub space_saved_percent: u32,
}

/// Compresses batch data.
pub struct CompressionEngine {
    default_algorithm: CompressionAlgorithm,
    compression_level: u32,
}

impl CompressionEngine {
    pub closed spec fn algorithm(&self) -> CompressionAlgorithm {
        self.default_algorithm
    }

    /// The compression level, 0 to 9.
    pub closed spec fn level(&self) -> u32 {
        self.compression_level
    }

    pub closed spec fn wf(&self) -> bool {
        self.compression_level <= 9
    }

    /// An engine using `algorithm` at `level`, capped at 9.
    pub fn new(algorithm: CompressionAlgorithm, level: u32) -> (e: Self)
        ensures
            e.wf(),
            e.algorithm() == algorithm,
            e.level() == (if level > 9 { 9 } else { level }),
    {
        CompressionEngine { default_algorithm: algorithm, compression_level: if level > 9 { 9 } else { level } }
    }

    /// Compress with the default algorithm (see `compress_with_algorithm`).
    pub fn compress(&self, data: &[u8]) -> (r: Result<CompressedData, CompressionError>)
        requires
            self.wf(),
        ensures
            r matches Ok(c) && c.algorithm == self.algorithm() && c.data@ == encode_spec(data@, self.algorithm(), self.level())
                && decodes_to(c, data@) && decompress_spec(c) == Ok::<Seq<u8>, CompressionError>(data@)
                && c.compressed_size == c.data@.len()
                && c.compression_ratio == ratio_spec(c.data@.len() as int, data@.len() as int),
    {
        self.compress_with_algorithm(data, self.default_algorithm)
    }

    /// Compress with `algorithm` at the engine's level; `None` copies the data. The result
    /// records the sizes and the ratio, and decompresses back to `data`.
    pub fn compress_with_algorithm(&self, data: &[u8], algorithm: CompressionAlgorithm) -> (r: Result<CompressedData, CompressionError>)
        requires
            self.wf(),
        ensures
            r matches Ok(c) && c.algorithm == algorithm && c.data@ == encode_spec(data@, algorithm, self.level())
                && decodes_to(c, data@) && decompress_spec(c) == Ok::<Seq<u8>, CompressionError>(data@)
                && c.compressed_size == c.data@.len()
                && c.compression_ratio == ratio_spec(c.data@.len() as int, data@.len() as int),
    {
        let original_size = data.len();
        let compressed = match algorithm {
            CompressionAlgorithm::Uncompressed => {
                let mut v: Vec<u8> = Vec::new();
                crate::types::append_bytes(&mut v, data);
                v
            },
            CompressionAlgorithm::Gzip => match gzip_compress(data, self.compression_level) {
                Some(v) => v,
                None => return Err(CompressionError::Io),
            },
            CompressionAlgorithm::Zlib => match zlib_compress(data, self.compression_level) {
                Some(v) => v,
                None => return Err(CompressionError::Io),
            },
        };
        Ok(CompressedData::new(compressed, original_size, algorithm))
    }

    /// Decompress (see `decompress_spec`): the decoder of the recorded algorithm, checked
    /// against the recorded size.
    pub fn decompress(&self, compressed: &CompressedData) -> (r: Result<Vec<u8>, CompressionError>)
        ensures
            match decompress_spec(*compressed) {
                Ok(x) => r matches Ok(v) && v@ == x,
                Err(e) => r == Err::<Vec<u8>, CompressionError>(e),
            },
    {
        let decoded = match compressed.algorithm {
            CompressionAlgorithm::Uncompressed => return Ok(crate::util::copy_vec(&compressed.data)),
            CompressionAlgorithm::Gzip => gzip_decompress(compressed.data.as_slice()),
            CompressionAlgorithm::Zlib => zlib_decompress(compressed.data.as_slice()),
        };
        match decoded {
            None => Err(CompressionError::Io),
            Some(v) => {
                if v.len() != compressed.original_size {
                    Err(CompressionError::SizeMismatch { expected: compressed.original_size, got: v.len() })
                } else {
                    Ok(v)
                }
            },
        }
    }

    /// The smallest encoding of `data`: gzip, then zlib, each taken only when smaller than
    /// the best so far, starting from the data itself uncompressed.
    pub fn find_best_compression(&self, data: &[u8]) -> (r: Result<CompressedData, CompressionError>)
        requires
            self.wf(),
        ensures
            r matches Ok(c) && decodes_to(c, data@) && decompress_spec(c) == Ok::<Seq<u8>, CompressionError>(data@)
                && c.compressed_size == c.data@.len()
                && c.compression_ratio == ratio_spec(c.data@.len() as int, data@.len() as int)
                && c.data@ == encode_spec(data@, c.algorithm, self.level())
                && c.data@.len() <= data@.len()
                && best_choice(data@, self.level(), c.algorithm),
    {
        let mut best = CompressedData::new(slice_to_vec(data), data.len(), CompressionAlgorithm::Uncompressed);
        let g = self.compress_with_algorithm(data, CompressionAlgorithm::Gzip)?;
        if g.compressed_size < best.compressed_size {
            best = g;
        }
        let z = self.compress_with_algorithm(data, CompressionAlgorithm::Zlib)?;
        if z.compressed_size < best.compressed_size {
            best = z;
        }
        Ok(best)
    }

    /// Compress the transactions' bytes, one after another, with the default algorithm.
    pub fn compress_batch(&self, transactions: &Vec<Vec<u8>>) -> (r: Result<CompressedData, CompressionError>)
        requires
            self.wf(),
        ensures
            r matches Ok(c) && c.algorithm == self.algorithm() && c.data@ == encode_spec(
                transactions@.map_values(|t: Vec<u8>| t@).flatten(),
                self.algorithm(),
                self.level(),
            ) && decodes_to(c, transactions@.map_values(|t: Vec<u8>| t@).flatten()),
    {
        let mut combined: Vec<u8> = Vec::new();
        let mut i: usize = 0;
        while i < transactions.len()
            invariant
                0 <= i <= transactions@.len(),
                combined@ == transactions@.take(i as int).map_values(|t: Vec<u8>| t@).flatten(),
            decreases transactions@.len() - i,
        {
            crate::types::append_bytes(&mut combined, transactions[i].as_slice());
            proof {
                let s = transactions@.take(i as int).map_values(|t: Vec<u8>| t@);
                assert(transactions@.take(i + 1).map_values(|t: Vec<u8>| t@) =~= s.push(transactions@[i as int]@));
                s.lemma_flatten_push(transactions@[i as int]@);
            }
            i = i + 1;
        }
        assert(transactions@.take(i as int) =~= transactions@);
        self.compress(combined.as_slice())
    }

    /// How gzip and zlib do on `data`: sizes, ratios and bytes saved (none when larger).
    pub fn get_compression_stats(&self, data: &[u8]) -> (r: Result<CompressionStats, CompressionError>)
        requires
            self.wf(),
        ensures
            r matches Ok(st) && st.original_size == data@.len() && st.algorithms@.len() == 2 && st.algorithms@[0]
                == algo_stats(data@, CompressionAlgorithm::Gzip, self.level()) && st.algorithms@[1] == algo_stats(
                data@,
                CompressionAlgorithm::Zlib,
                self.level(),
            ),
    {
        let original_size = data.len();
        let mut algorithms: Vec<AlgorithmStats> = Vec::new();
        let g = self.compress_with_algorithm(data, CompressionAlgorithm::Gzip)?;
        algorithms.push(
            AlgorithmStats {
                algorithm: CompressionAlgorithm::Gzip,
                compressed_size: g.compressed_size,
                compression_ratio: g.compression_ratio,
                space_saved: original_size.saturating_sub(g.compressed_size),
            },
        );
        let z = self.compress_with_algorithm(data, CompressionAlgorithm::Zlib)?;
        algorithms.push(
            AlgorithmStats {
                algorithm: CompressionAlgorithm::Zlib,
                compressed_size: z.compressed_size,
                compression_ratio: z.compression_ratio,
                space_saved: original_size.saturating_sub(z.compressed_size),
            },
        );
        Ok(CompressionStats { original_size, algorithms })
    }
}

/// How `algorithm` does on `data` at `level`.
pub open spec fn algo_stats(data: Seq<u8>, algorithm: CompressionAlgorithm, level: u32) -> AlgorithmStats {
    let size = encode_spec(data, algorithm, level).len();
    AlgorithmStats {
        algorithm,
        compressed_size: size as usize,
        compression_ratio: ratio_spec(size as int, data.len() as int),
        space_saved: if data.len() >= size { (data.len() - size) as usize } else { 0 },
    }
}

/// `a` is what the search for the smallest encoding settles on.
pub open spec fn best_choice(data: Seq<u8>, level: u32, a: CompressionAlgorithm) -> bool {
    let n = data.len();
    let g = gzip_spec(data, level).len();
    let z = zlib_spec(data, level).len();
    let after_g = if g < n { g } else { n };
    a == (if z < after_g {
        CompressionAlgorithm::Zlib
    } else if g < n {
        CompressionAlgorithm::Gzip
    } else {
        CompressionAlgorithm::Uncompressed
    })
}

fn slice_to_vec(data: &[u8]) -> (v: Vec<u8>)
    ensures
        v@ == data@,
{
    let mut v: Vec<u8> = Vec::new();
    crate::types::append_bytes(&mut v, data);
    v
}

impl Default for CompressionEngine {
    /// Gzip at level 6.
    fn default() -> (e: Self)
        ensures
            e.wf(),
            e.algorithm() == CompressionAlgorithm::Gzip,
            e.level() == 6,
    {
        Self::new(CompressionAlgorithm::Gzip, 6)
    }
}

/// Compresses batch data, optionally picking the smallest encoding.
pub struct BatchCompressor {
    engine: CompressionEngine,
    use_adaptive_compression: bool,
}

impl BatchCompressor {
    pub closed spec fn adaptive(&self) -> bool {
        self.use_adaptive_compression
    }

    pub closed spec fn engine(&self) -> CompressionEngine {
        self.engine
    }

    pub closed spec fn wf(&self) -> bool {
        self.engine.wf()
    }

    /// A compressor over the default engine (gzip, level 6).
    pub fn new(use_adaptive_compression: bool) -> (c: Self)
        ensures
            c.wf(),
            c.adaptive() == use_adaptive_compression,
            c.engine().algorithm() == CompressionAlgorithm::Gzip,
            c.engine().level() == 6,
    {
        BatchCompressor { engine: CompressionEngine::default(), use_adaptive_compression }
    }

    /// Compress batch data: the smallest encoding when adaptive, else the default one.
    pub fn compress_batch_data(&self, data: &[u8]) -> (r: Result<CompressedData, CompressionError>)
        requires
            self.wf(),
        ensures
            r matches Ok(c) && decodes_to(c, data@) && decompress_spec(c) == Ok::<Seq<u8>, CompressionError>(data@)
                && c.data@ == encode_spec(data@, c.algorithm, self.engine().level())
                && (self.adaptive() ==> best_choice(data@, self.engine().level(), c.algorithm))
                && (!self.adaptive() ==> c.algorithm == self.engine().algorithm()),
    {
        if self.use_adaptive_compression {
            self.engine.find_best_compression(data)
        } else {
            self.engine.compress(data)
        }
    }

    /// Decompress batch data (see `CompressionEngine::decompress`).
    pub fn decompress_batch_data(&self, compressed: &CompressedData) -> (r: Result<Vec<u8>, CompressionError>)
        ensures
            match decompress_spec(*compressed) {
                Ok(x) => r matches Ok(v) && v@ == x,
                Err(e) => r == Err::<Vec<u8>, CompressionError>(e),
            },
    {
        self.engine.decompress(compressed)
    }

    /// The savings of the better of gzip and zlib (gzip on a tie): its size, the bytes saved
    /// and the percentage saved, rounded down (0 for empty data).
    pub fn calculate_savings(&self, data: &[u8]) -> (r: Result<CompressionSavings, CompressionError>)
        requires
            self.wf(),
        ensures
            r matches Ok(sv) && {
                let g = algo_stats(data@, CompressionAlgorithm::Gzip, self.engine().level());
                let z = algo_stats(data@, CompressionAlgorithm::Zlib, self.engine().level());
                let best = if z.compressed_size < g.compressed_size { z } else { g };
                &&& sv.original_size == data@.len()
                &&& sv.best_compressed_size == best.compressed_size
                &&& sv.best_algorithm == best.algorithm
                &&& sv.space_saved_bytes == best.space_saved
                &&& sv.space_saved_percent == (if data@.len() == 0 {
                    0
                } else {
                    best.space_saved * 100 / (data@.len() as int)
                })
            },
    {
        let stats = self.engine.get_compression_stats(data)?;
        if stats.algorithms.len() == 0 {
            return Err(CompressionError::NoAlgorithms);
        }
        let mut best = stats.algorithms[0];
        if stats.algorithms[1].compressed_size < best.compressed_size {
            best = stats.algorithms[1];
        }
        let percent: u32 = if stats.original_size == 0 {
            0
        } else {
            assert(best.space_saved <= stats.original_size);
            let q = (best.space_saved as u128) * 100 / (stats.original_size as u128);
            assert(q <= 100) by (nonlinear_arith)
                requires
                    q == (best.space_saved as int) * 100 / (stats.original_size as int),
                    best.space_saved <= stats.original_size,
                    stats.original_size > 0,
            ;
            q as u32
        };
        Ok(
            CompressionSavings {
                original_size: stats.original_size,
                best_compressed_size: best.compressed_size,
                best_algorithm: best.algorithm,
                space_saved_bytes: best.space_saved,
                space_saved_percent: percent,
            },
        )
    }
}

/// The search settles on the smallest encoding: what it picks is no longer than the data
/// itself, than its gzip encoding or than its zlib encoding.
pub proof fn lemma_best_is_smallest(data: Seq<u8>, level: u32, a: CompressionAlgorithm)
    requires
        best_choice(data, level, a),
    ensures
        encode_spec(data, a, level).len() <= data.len(),
        encode_spec(data, a, level).len() <= gzip_spec(data, level).len(),
        encode_spec(data, a, level).len() <= zlib_spec(data, level).len(),
{
}

/// A compression ratio is the compressed size over the original one in millionths, rounded
/// down: the largest `r` with `r * original <= compressed * 1_000_000` (within 64 bits);
/// 1.0 for empty input.
pub proof fn lemma_ratio_floor(compressed: int, original: int)
    requires
        compressed >= 0,
        original >= 0,
    ensures
        original == 0 ==> ratio_spec(compressed, original) == 1_000_000,
        original > 0 && compressed * 1_000_000 / original <= u64::MAX ==> ratio_spec(compressed, original) * original
            <= compressed * 1_000_000 < (ratio_spec(compressed, original) + 1) * original,
        original > 0 && compressed <= original ==> ratio_spec(compressed, original) <= 1_000_000,
{
    if original > 0 {
        assert(compressed * 1_000_000 >= 0) by (nonlinear_arith)
            requires
                compressed >= 0,
        ;
        crate::util::lemma_floor_div(compressed * 1_000_000, original);
        if compressed <= original {
            assert(compressed * 1_000_000 / original <= 1_000_000) by (nonlinear_arith)
                requires
                    compressed <= original,
                    original > 0,
                    compressed >= 0,
            ;
        }
    }
}

} // verus!
