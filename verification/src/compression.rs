//! Adaptive compression of bundles for the Mars–Earth link. The strategy
//! is chosen from the capacity of a contact and the kind of content; the
//! sizes that the strategies reach are estimates. Ratios, qualities and
//! fractions are in thousandths, bandwidth in bits per second.

use vstd::prelude::*;
use crate::clock::now_millis;

verus! {

/// Kind of content.
#[derive(Debug, Clone, Copy, PartialEq, Eq, Structural)]
pub enum ContentType {
    /// Critical binary data (commands, configurations).
    Binary,
    /// Structured text (JSON, XML, CSV).
    Text,
    /// Raw scientific image.
    ScientificImage,
    /// Panorama or colour photograph.
    Photo,
    /// Video.
    Video,
    /// Telemetry time series.
    Telemetry,
    /// Crew audio.
    Audio,
}

/// How to compress.
#[derive(Debug, Clone, Copy, PartialEq, Eq, Structural)]
pub enum CompressionStrategy {
    /// Send as is.
    NoCompression,
    /// Lossless compression.
    Lossless,
    /// Bounded error, in thousandths.
    NearLossless { max_error_milli: u16 },
    /// Lossy outside a region of interest; quality and share of the region
    /// in thousandths.
    LossyWithRoi { quality_milli: u16, roi_milli: u16 },
    /// Features only.
    Semantic { feature_count: u16 },
}

/// Errors of compression.
#[derive(Debug, PartialEq, Eq)]
pub enum CompressionError {
    InvalidInputSize(usize),
    UnsupportedAlgorithm(String),
    /// Ratio reached and ratio asked for, in thousandths.
    InsufficientCompression(u64, u64),
    DecompressionCorruption,
}

/// Result of a compression.
pub type CompressionResult<T> = Result<T, CompressionError>;

/// The outcome of a compression.
#[derive(Debug)]
pub struct CompressionResult2 {
    pub original_size: u64,
    pub compressed_size: u64,
    /// Original size over compressed size, in thousandths (rounded down).
    pub ratio_milli: u128,
    pub strategy: CompressionStrategy,
    pub algorithm: String,
    pub compression_time_ms: u64,
    /// Share of the information kept, in thousandths.
    pub quality_milli: i32,
}

/// The link available for a transfer.
#[derive(Debug, Clone, Copy)]
pub struct BandwidthContext {
    pub available_bps: u64,
    pub latency_minutes: u32,
    pub contact_duration_secs: u32,
    pub content_type: ContentType,
    pub original_size_bytes: u64,
}

/// Summary of the compressions.
#[derive(Debug, Clone, Copy, PartialEq, Eq, Structural)]
pub struct CompressionStatsSummary {
    pub total_bundles_compressed: u64,
    pub total_bytes_saved: u64,
    /// Average ratio in thousandths.
    pub average_compression_ratio_milli: u128,
}

/// The compressor.
pub struct AiCompressor {
    min_ratio_milli: u64,
    max_bundle_size: u64,
    total_compressed: u64,
    total_original: u64,
}

/// Bits that a contact can carry.
pub open spec fn capacity_bits(ctx: BandwidthContext) -> int {
    ctx.available_bps * ctx.contact_duration_secs
}

/// The content fits in the contact without compression.
pub open spec fn fits_in_contact(ctx: BandwidthContext) -> bool {
    8 * ctx.original_size_bytes <= capacity_bits(ctx)
}

/// The ratio needed (size over capacity) is below `k`.
pub open spec fn ratio_needed_below(ctx: BandwidthContext, k: int) -> bool {
    8 * ctx.original_size_bytes < k * capacity_bits(ctx)
}

/// The strategy for a transfer: none when the content fits in the contact;
/// else by kind of content, and for images and audio by the ratio needed.
pub open spec fn strategy_for(ctx: BandwidthContext) -> CompressionStrategy {
    if fits_in_contact(ctx) {
        CompressionStrategy::NoCompression
    } else {
        match ctx.content_type {
            ContentType::Binary | ContentType::Text | ContentType::Telemetry => CompressionStrategy::Lossless,
            ContentType::ScientificImage => if ratio_needed_below(ctx, 3) {
                CompressionStrategy::NearLossless { max_error_milli: 10 }
            } else {
                CompressionStrategy::LossyWithRoi { quality_milli: 700, roi_milli: 300 }
            },
            ContentType::Photo => CompressionStrategy::LossyWithRoi { quality_milli: 500, roi_milli: 200 },
            ContentType::Video => CompressionStrategy::Semantic { feature_count: 256 },
            ContentType::Audio => if ratio_needed_below(ctx, 4) {
                CompressionStrategy::NearLossless { max_error_milli: 50 }
            } else {
                CompressionStrategy::LossyWithRoi { quality_milli: 600, roi_milli: 800 }
            },
        }
    }
}

/// Binary, text and telemetry content is never compressed lossily: it is
/// sent as is when it fits in the contact, else compressed losslessly. A
/// lossy or semantic strategy is only ever chosen for images, photos,
/// video and audio, and only when the content does not fit.
pub proof fn lemma_exact_content_stays_exact(ctx: BandwidthContext)
    ensures
        (ctx.content_type == ContentType::Binary || ctx.content_type == ContentType::Text
            || ctx.content_type == ContentType::Telemetry) ==> strategy_for(ctx) == (if fits_in_contact(ctx) {
            CompressionStrategy::NoCompression
        } else {
            CompressionStrategy::Lossless
        }),
        (strategy_for(ctx) is LossyWithRoi || strategy_for(ctx) is Semantic) ==> !fits_in_contact(ctx) && (
            ctx.content_type == ContentType::ScientificImage || ctx.content_type == ContentType::Photo
                || ctx.content_type == ContentType::Video || ctx.content_type == ContentType::Audio),
        fits_in_contact(ctx) ==> strategy_for(ctx) == CompressionStrategy::NoCompression,
{
}

/// Ratio of the lossy strategy in thousandths: 15 × (1 + 3 × (1 − roi)).
pub open spec fn lossy_ratio_milli(roi_milli: int) -> int {
    15 * (4000 - 3 * roi_milli)
}

/// Estimated size of `n` bytes under a strategy: 2.5:1 lossless above a
/// kilobyte and 1.8:1 below; 5:1 near-lossless; the lossy ratio (nothing
/// left when it is not positive, and at most `u64::MAX`); 32 bytes per
/// feature, at most `n`.
pub open spec fn estimated_size(n: nat, strategy: CompressionStrategy) -> nat {
    match strategy {
        CompressionStrategy::NoCompression => n,
        CompressionStrategy::Lossless => if n > 1000 { (2 * n / 5) as nat } else { (5 * n / 9) as nat },
        CompressionStrategy::NearLossless { .. } => n / 5,
        CompressionStrategy::LossyWithRoi { roi_milli, .. } => if lossy_ratio_milli(roi_milli as int) > 0 {
            let q = ((1000 * n) as int) / lossy_ratio_milli(roi_milli as int);
            if q > u64::MAX { u64::MAX as nat } else { q as nat }
        } else {
            0
        },
        CompressionStrategy::Semantic { feature_count } => if 32 * feature_count < n {
            (32 * feature_count) as nat
        } else {
            n
        },
    }
}

/// Name of the algorithm of a strategy.
pub open spec fn algorithm_name(strategy: CompressionStrategy) -> Seq<char> {
    match strategy {
        CompressionStrategy::NoCompression => "none"@,
        CompressionStrategy::Lossless => "zstd"@,
        CompressionStrategy::NearLossless { .. } => "near_lossless"@,
        CompressionStrategy::LossyWithRoi { .. } => "lossy_roi"@,
        CompressionStrategy::Semantic { .. } => "semantic"@,
    }
}

/// Quality kept by a strategy, in thousandths.
pub open spec fn quality_of(strategy: CompressionStrategy) -> int {
    match strategy {
        CompressionStrategy::NoCompression | CompressionStrategy::Lossless => 1000,
        CompressionStrategy::NearLossless { max_error_milli } => 1000 - max_error_milli,
        CompressionStrategy::LossyWithRoi { quality_milli, .. } => quality_milli as int,
        CompressionStrategy::Semantic { .. } => 850,
    }
}

/// Original size over compressed size in thousandths; the original size
/// itself when nothing is left.
pub open spec fn ratio_of(original: nat, compressed: nat) -> nat {
    if compressed > 0 {
        (1000 * original) / compressed
    } else {
        1000 * original
    }
}

/// No strategy makes the estimate larger than the data, as long as the
/// region of interest is a share of the whole (at most 1000 thousandths).
pub proof fn lemma_estimate_never_grows(n: nat, strategy: CompressionStrategy)
    requires
        strategy matches CompressionStrategy::LossyWithRoi { roi_milli, .. } ==> roi_milli <= 1000,
    ensures
        estimated_size(n, strategy) <= n,
{
    if let CompressionStrategy::LossyWithRoi { roi_milli, .. } = strategy {
        let d = lossy_ratio_milli(roi_milli as int);
        assert(d >= 15000);
        assert(((1000 * n) as int) / d <= n) by (nonlinear_arith)
            requires
                d >= 15000,
                n >= 0,
        ;
    }
}

impl AiCompressor {
    pub closed spec fn min_ratio_spec(&self) -> u64 {
        self.min_ratio_milli
    }

    pub closed spec fn max_bundle_size_spec(&self) -> u64 {
        self.max_bundle_size
    }

    /// Bytes after compression, counted.
    pub closed spec fn total_compressed(&self) -> u64 {
        self.total_compressed
    }

    /// Bytes before compression, counted.
    pub closed spec fn total_original(&self) -> u64 {
        self.total_original
    }

    /// A compressor asking for at least 1.5:1, with bundles up to 1 MiB.
    pub fn new() -> (c: Self)
        ensures
            c.min_ratio_spec() == 1500,
            c.max_bundle_size_spec() == 1024 * 1024,
            c.total_compressed() == 0,
            c.total_original() == 0,
    {
        AiCompressor { min_ratio_milli: 1500, max_bundle_size: 1024 * 1024, total_compressed: 0, total_original: 0 }
    }

    /// A compressor with its own limits.
    pub fn with_config(min_ratio_milli: u64, max_bundle_size: u64) -> (c: Self)
        ensures
            c.min_ratio_spec() == min_ratio_milli,
            c.max_bundle_size_spec() == max_bundle_size,
            c.total_compressed() == 0,
            c.total_original() == 0,
    {
        AiCompressor { min_ratio_milli, max_bundle_size, total_compressed: 0, total_original: 0 }
    }

    /// The smallest ratio asked for, in thousandths.
    pub fn min_ratio_milli(&self) -> (r: u64)
        ensures
            r == self.min_ratio_spec(),
    {
        self.min_ratio_milli
    }

    /// The largest bundle.
    pub fn max_bundle_size(&self) -> (r: u64)
        ensures
            r == self.max_bundle_size_spec(),
    {
        self.max_bundle_size
    }

    /// The strategy for a transfer.
    pub fn select_strategy(&self, context: &BandwidthContext) -> (s: CompressionStrategy)
        ensures
            s == strategy_for(*context),
    {
        let bps: u128 = context.available_bps as u128;
        let secs: u128 = context.contact_duration_secs as u128;
        assert(bps * secs <= u64::MAX * u32::MAX) by (nonlinear_arith)
            requires
                bps <= u64::MAX,
                secs <= u32::MAX,
        ;
        let capacity: u128 = bps * secs;
        let needed: u128 = 8 * (context.original_size_bytes as u128);
        if needed <= capacity {
            return CompressionStrategy::NoCompression;
        }
        match context.content_type {
            ContentType::Binary | ContentType::Text | ContentType::Telemetry => CompressionStrategy::Lossless,
            ContentType::ScientificImage => {
                if needed < 3 * capacity {
                    CompressionStrategy::NearLossless { max_error_milli: 10 }
                } else {
                    CompressionStrategy::LossyWithRoi { quality_milli: 700, roi_milli: 300 }
                }
            },
            ContentType::Photo => CompressionStrategy::LossyWithRoi { quality_milli: 500, roi_milli: 200 },
            ContentType::Video => CompressionStrategy::Semantic { feature_count: 256 },
            ContentType::Audio => {
                if needed < 4 * capacity {
                    CompressionStrategy::NearLossless { max_error_milli: 50 }
                } else {
                    CompressionStrategy::LossyWithRoi { quality_milli: 600, roi_milli: 800 }
                }
            },
        }
    }

    /// Estimates the compression of `data` by a strategy, reporting
    /// `elapsed_ms` as the time it took; empty data is refused.
    pub fn compress_timed(&self, data: &[u8], strategy: &CompressionStrategy, elapsed_ms: u64) -> (r:
        CompressionResult<CompressionResult2>)
        ensures
            data@.len() == 0 <==> r == Err::<CompressionResult2, CompressionError>(
                CompressionError::InvalidInputSize(0),
            ),
            data@.len() > 0 ==> (r matches Ok(res) && {
                &&& res.original_size == data@.len()
                &&& res.compressed_size == estimated_size(data@.len(), *strategy)
                &&& res.ratio_milli == ratio_of(data@.len(), estimated_size(data@.len(), *strategy))
                &&& res.strategy == *strategy
                &&& res.algorithm@ == algorithm_name(*strategy)
                &&& res.compression_time_ms == elapsed_ms
                &&& res.quality_milli == quality_of(*strategy)
            }),
    {
        let n: u64 = data.len() as u64;
        if n == 0 {
            return Err(CompressionError::InvalidInputSize(0));
        }
        let wide: u128 = n as u128;
        let (compressed, algorithm, quality): (u64, String, i32) = match strategy {
            CompressionStrategy::NoCompression => (n, "none".to_string(), 1000),
            CompressionStrategy::Lossless => {
                let size: u128 = if n > 1000 { 2 * wide / 5 } else { 5 * wide / 9 };
                (size as u64, "zstd".to_string(), 1000)
            },
            CompressionStrategy::NearLossless { max_error_milli } => {
                (n / 5, "near_lossless".to_string(), 1000 - (*max_error_milli as i32))
            },
            CompressionStrategy::LossyWithRoi { quality_milli, roi_milli } => {
                let share: u128 = 3 * (*roi_milli as u128);
                let size: u128 = if share < 4000 { (1000 * wide) / (15 * (4000 - share)) } else { 0 };
                let capped: u64 = if size > u64::MAX as u128 { u64::MAX } else { size as u64 };
                (capped, "lossy_roi".to_string(), *quality_milli as i32)
            },
            CompressionStrategy::Semantic { feature_count } => {
                let features: u64 = 32 * (*feature_count as u64);
                (if features < n { features } else { n }, "semantic".to_string(), 850)
            },
        };
        let ratio: u128 = if compressed > 0 { (1000 * wide) / (compressed as u128) } else { 1000 * wide };
        Ok(CompressionResult2 {
            original_size: n,
            compressed_size: compressed,
            ratio_milli: ratio,
            strategy: *strategy,
            algorithm,
            compression_time_ms: elapsed_ms,
            quality_milli: quality,
        })
    }

    /// Estimates the compression of `data` by a strategy, timing the work
    /// on the wall clock (0 if the clock went back); empty data is refused.
    pub fn compress(&self, data: &[u8], strategy: &CompressionStrategy) -> (r: CompressionResult<
        CompressionResult2,
    >)
        ensures
            data@.len() == 0 <==> r == Err::<CompressionResult2, CompressionError>(
                CompressionError::InvalidInputSize(0),
            ),
            data@.len() > 0 ==> (r matches Ok(res) && {
                &&& res.original_size == data@.len()
                &&& res.compressed_size == estimated_size(data@.len(), *strategy)
                &&& res.ratio_milli == ratio_of(data@.len(), estimated_size(data@.len(), *strategy))
                &&& res.strategy == *strategy
                &&& res.algorithm@ == algorithm_name(*strategy)
                &&& res.quality_milli == quality_of(*strategy)
            }),
    {
        let start = now_millis();
        let end = now_millis();
        let elapsed: u64 = if end >= start { (end - start) as u64 } else { 0 };
        self.compress_timed(data, strategy, elapsed)
    }

    /// Totals of the compressions counted: bytes after compression, bytes
    /// saved, and the average ratio (1:1 when nothing was counted or
    /// nothing was left).
    pub fn statistics(&self) -> (s: CompressionStatsSummary)
        ensures
            s.total_bundles_compressed == self.total_compressed(),
            s.total_bytes_saved == (if self.total_original() > self.total_compressed() {
                self.total_original() - self.total_compressed()
            } else {
                0
            }),
            s.average_compression_ratio_milli == (if self.total_original() > 0 && self.total_compressed() > 0 {
                (1000 * self.total_original()) / (self.total_compressed() as int)
            } else {
                1000
            }),
    {
        let saved: u64 = self.total_original.saturating_sub(self.total_compressed);
        let average: u128 = if self.total_original > 0 && self.total_compressed > 0 {
            (1000 * (self.total_original as u128)) / (self.total_compressed as u128)
        } else {
            1000
        };
        CompressionStatsSummary {
            total_bundles_compressed: self.total_compressed,
            total_bytes_saved: saved,
            average_compression_ratio_milli: average,
        }
    }
}

} // verus!
