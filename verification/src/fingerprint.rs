//! Content fingerprints with a size-dependent sampling strategy.

use vstd::prelude::*;
use vstd::bytes::*;
use vstd::slice::*;
use crate::hex::{hex16, to_hex16};

verus! {

/// Files up to this many bytes are hashed in one pass.
pub const SMALL_FILE: u64 = 1048576;

/// Files above this many bytes are only sampled.
pub const THRESHOLD: u64 = 10485760;

/// Length in bytes of each sampled window.
pub const SAMPLE_SIZE: usize = 1048576;

/// The 64-bit XXH3 hash of a byte string, as `xxhash_rust::xxh3::xxh3_64` computes it.
pub uninterp spec fn xxh3_64_value(input: Seq<u8>) -> u64;

/// `xxhash_rust::xxh3::xxh3_64`: the one-shot hash is a function of the input bytes alone.
#[verifier::external_body]
fn xxh3_oneshot(input: &[u8]) -> (h: u64)
    ensures
        h == xxh3_64_value(input@),
{
    xxhash_rust::xxh3::xxh3_64(input)
}

/// `Xxh3::new`, one `Xxh3::update` and `Xxh3::digest`: a fresh hasher with the
/// default seed and secret, fed the input, reports the one-shot hash of the
/// input.
#[verifier::external_body]
fn xxh3_streamed(input: &[u8]) -> (h: u64)
    ensures
        h == xxh3_64_value(input@),
{
    let mut hasher = xxhash_rust::xxh3::Xxh3::new();
    hasher.update(input);
    hasher.digest()
}

/// `Xxh3::new`, four times `Xxh3::update` and `Xxh3::digest`: a fresh hasher
/// with the default seed and secret, fed the four parts in order, reports the
/// one-shot hash of the parts joined in that order.
#[verifier::external_body]
fn xxh3_streamed_parts(first: &[u8], second: &[u8], third: &[u8], fourth: &[u8]) -> (h: u64)
    ensures
        h == xxh3_64_value(first@ + second@ + third@ + fourth@),
{
    let mut hasher = xxhash_rust::xxh3::Xxh3::new();
    hasher.update(first);
    hasher.update(second);
    hasher.update(third);
    hasher.update(fourth);
    hasher.digest()
}

/// Which of the three strategies applies to a file of the given size.
pub enum Strategy {
    /// Hash of the whole content, computed in one shot.
    WholeOneShot,
    /// Hash of the whole content, computed by the streaming hasher.
    WholeStreamed,
    /// Hash of three windows and the size.
    Sampled,
}

/// The strategy for a file of `size` bytes.
pub open spec fn strategy_for(size: u64) -> Strategy {
    if size <= SMALL_FILE {
        Strategy::WholeOneShot
    } else if size <= THRESHOLD {
        Strategy::WholeStreamed
    } else {
        Strategy::Sampled
    }
}

/// Start of the window centred on the midpoint of `len` bytes.
pub open spec fn middle_start(len: int) -> int {
    len / 2 - SAMPLE_SIZE as int / 2
}

/// First window of a sampled file: its first `SAMPLE_SIZE` bytes.
pub open spec fn head_window(data: Seq<u8>) -> Seq<u8> {
    data.subrange(0, SAMPLE_SIZE as int)
}

/// Second window: `SAMPLE_SIZE` bytes centred on the midpoint.
pub open spec fn middle_window(data: Seq<u8>) -> Seq<u8> {
    data.subrange(middle_start(data.len() as int), middle_start(data.len() as int) + SAMPLE_SIZE as int)
}

/// Third window: the last `SAMPLE_SIZE` bytes.
pub open spec fn tail_window(data: Seq<u8>) -> Seq<u8> {
    data.subrange(data.len() - SAMPLE_SIZE as int, data.len() as int)
}

/// The bytes that a sampled fingerprint hashes: head, middle, tail, then the
/// eight little-endian bytes of the size.
pub open spec fn sampled_bytes(data: Seq<u8>, size: u64) -> Seq<u8> {
    head_window(data) + middle_window(data) + tail_window(data) + spec_u64_to_le_bytes(size)
}

/// The 64-bit fingerprint of content `data` for a file recorded with `size` bytes.
pub open spec fn fingerprint_value(data: Seq<u8>, size: u64) -> u64 {
    match strategy_for(size) {
        Strategy::WholeOneShot => xxh3_64_value(data),
        Strategy::WholeStreamed => xxh3_64_value(data),
        Strategy::Sampled => xxh3_64_value(sampled_bytes(data, size)),
    }
}

/// The fingerprint as text: sixteen lowercase hexadecimal digits.
pub open spec fn fingerprint_text(data: Seq<u8>, size: u64) -> Seq<char> {
    hex16(fingerprint_value(data, size))
}

/// Whether content of this length can be fingerprinted under the recorded size:
/// a sampled file must hold at least one full window.
pub open spec fn can_fingerprint(data: Seq<u8>, size: u64) -> bool {
    size > THRESHOLD ==> data.len() >= SAMPLE_SIZE
}

/// Fingerprints mapped content recorded with `size` bytes.
///
/// Content above `THRESHOLD` is only sampled: two large files that agree on the
/// three windows and on the size get the same fingerprint whatever lies between.
pub fn calculate_fast_hash(data: &[u8], size: u64) -> (hash: String)
    requires
        can_fingerprint(data@, size),
    ensures
        hash@ == fingerprint_text(data@, size),
        hash@.len() == 16,
{
    if size <= SMALL_FILE {
        return to_hex16(xxh3_oneshot(data));
    }
    if size <= THRESHOLD {
        return to_hex16(xxh3_streamed(data));
    }
    let len = data.len();
    let mid = len / 2 - SAMPLE_SIZE / 2;
    let size_bytes = u64_to_le_bytes(size);
    let hash = xxh3_streamed_parts(
        slice_subrange(data, 0, SAMPLE_SIZE),
        slice_subrange(data, mid, mid + SAMPLE_SIZE),
        slice_subrange(data, len - SAMPLE_SIZE, len),
        size_bytes.as_slice(),
    );
    to_hex16(hash)
}

/// Fingerprinting is deterministic: the same content recorded with the same
/// size has the same fingerprint, whenever it is computed.
pub proof fn lemma_fingerprint_is_deterministic(a: Seq<u8>, b: Seq<u8>, size_a: u64, size_b: u64)
    requires
        a == b,
        size_a == size_b,
    ensures
        fingerprint_text(a, size_a) == fingerprint_text(b, size_b),
{
}

/// Two sampled files with the same recorded size that agree on the three windows
/// have the same fingerprint, however they differ elsewhere.
pub proof fn lemma_sampled_fingerprint_ignores_unsampled_bytes(a: Seq<u8>, b: Seq<u8>, size: u64)
    requires
        size > THRESHOLD,
        head_window(a) == head_window(b),
        middle_window(a) == middle_window(b),
        tail_window(a) == tail_window(b),
    ensures
        fingerprint_text(a, size) == fingerprint_text(b, size),
{
}

/// Files at or below `THRESHOLD` are fingerprinted over their whole content and
/// nothing else, small and medium files by the same function of the content:
/// the recorded size does not enter.
pub proof fn lemma_whole_content_fingerprint(data: Seq<u8>, size: u64)
    requires
        size <= THRESHOLD,
    ensures
        fingerprint_value(data, size) == xxh3_64_value(data),
        fingerprint_text(data, size) == hex16(xxh3_64_value(data)),
{
}

/// Files above `THRESHOLD` are fingerprinted over the three windows followed by
/// the eight little-endian bytes of the recorded size.
pub proof fn lemma_sampled_fingerprint(data: Seq<u8>, size: u64)
    requires
        size > THRESHOLD,
    ensures
        fingerprint_value(data, size) == xxh3_64_value(
            head_window(data) + middle_window(data) + tail_window(data) + spec_u64_to_le_bytes(size),
        ),
{
}

} // verus!
