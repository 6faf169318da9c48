//! Compression of messages, and deltas between states.
use lz4_flex::{compress_prepend_size, decompress_size_prepended};
use vstd::prelude::*;

use crate::bytes::{
    le_bytes, le_value, lemma_byte_ranges, lemma_le_len, lemma_le_prefix,
    lemma_le_round_trip, read_u32, to_vec,
};
use crate::scalar::Scalar;
use crate::text::join;

verus! {

/// What can go wrong with compressed data. The texts are those of the decoders.
#[derive(Debug, PartialEq, Eq)]
pub enum CompressionError {
    /// The data is not a compressed block.
    Decompression(String),
    /// A delta could not be encoded.
    Serialization(String),
    /// The data is not an encoded delta.
    Deserialization(String),
    /// A delta speaks of a position that no state can have.
    PositionOutOfRange(usize),
}

/// The outcome of an operation that may fail with a [`CompressionError`].
pub type Result<T> = std::result::Result<T, CompressionError>;

impl CompressionError {
    /// The error as a line of text.
    pub fn message(&self) -> (result: String)
        ensures
            result@ == (match *self {
                CompressionError::Decompression(text) => "Decompression failed: "@ + text@,
                CompressionError::Serialization(text) => "Delta serialization failed: "@ + text@,
                CompressionError::Deserialization(text) => "Delta deserialization failed: "@ + text@,
                CompressionError::PositionOutOfRange(position) => "Delta position out of range: "@
                    + crate::text::decimal(position as nat),
            }),
    {
        match self {
            CompressionError::Decompression(text) => join("Decompression failed: ", text.as_str()),
            CompressionError::Serialization(text) => join(
                "Delta serialization failed: ",
                text.as_str(),
            ),
            CompressionError::Deserialization(text) => join(
                "Delta deserialization failed: ",
                text.as_str(),
            ),
            CompressionError::PositionOutOfRange(position) => {
                let digits: String = crate::text::decimal_u64(*position as u64);
                join("Delta position out of range: ", digits.as_str())
            },
        }
    }
}

/// The outcome of reading data: the bytes, or the reader's complaint.
pub open spec fn outcome_view(result: std::result::Result<Vec<u8>, String>) -> std::result::Result<
    Seq<u8>,
    Seq<char>,
> {
    match result {
        Ok(bytes) => Ok(bytes@),
        Err(text) => Err(text@),
    }
}

/// The outcome of reading data that can be read.
pub open spec fn good(bytes: Seq<u8>) -> std::result::Result<Seq<u8>, Seq<char>> {
    Ok(bytes)
}

/// The outcome of reading data that cannot be read.
pub open spec fn bad(text: Seq<char>) -> std::result::Result<Seq<u8>, Seq<char>> {
    Err(text)
}

/// The LZ4 block of `data`, with the length of `data` in four bytes before it.
pub uninterp spec fn lz4_block(data: Seq<u8>) -> Seq<u8>;

/// What an LZ4 block with its length before it decompresses to, or why it does
/// not.
pub uninterp spec fn lz4_contents(block: Seq<u8>) -> std::result::Result<Seq<u8>, Seq<char>>;

/// The complaint of the decoder about bytes that are not an encoded delta.
pub uninterp spec fn delta_complaint(bytes: Seq<u8>) -> Seq<char>;

/// Whether data of this length can be compressed: its length fits in the block's
/// header, and the size of the output buffer can be computed.
pub open spec fn is_compressible(len: nat) -> bool {
    len <= u32::MAX && len * 110 <= usize::MAX
}

/// How many bytes from `i` on have the value 255.
pub open spec fn run_at(block: Seq<u8>, i: int) -> nat
    decreases block.len() - i,
{
    if 0 <= i < block.len() && block[i] == 255 {
        1 + run_at(block, i + 1)
    } else {
        0
    }
}

/// Whether a length that starts with so many bytes of the value 255 can be added up: on
/// its own, and to a position in the output.
pub open spec fn run_fits(run: nat) -> bool {
    255 * run + 254 <= u32::MAX && 255 * run + 273 + isize::MAX <= usize::MAX
}

/// The length that the four bits `part` of a sequence's first byte stand for. Where they
/// are all set, bytes are added from `i` on, up to the first whose value is not 255.
pub open spec fn length_at(block: Seq<u8>, i: int, part: int) -> int {
    if part == 15 {
        15 + 255 * run_at(block, i) + block[i + run_at(block, i)]
    } else {
        part
    }
}

/// The position after the bytes that are added to a length.
pub open spec fn length_end(block: Seq<u8>, i: int, part: int) -> int {
    if part == 15 {
        i + run_at(block, i) + 1
    } else {
        i
    }
}

/// Whether all lengths in the sequences from `i` on can be added up. A sequence is a byte
/// with the first parts of two lengths, the rest of the first length, as many bytes as it
/// says, two bytes, and the rest of the second length.
pub open spec fn lengths_fit(block: Seq<u8>, i: int) -> bool
    decreases block.len() - i,
{
    if i < 0 || i >= block.len() {
        true
    } else {
        let first = block[i] as int / 16;
        let second = block[i] as int % 16;
        let start = length_end(block, i + 1, first);
        let end = start + length_at(block, i + 1, first);
        let next = length_end(block, end + 2, second);
        &&& first == 15 ==> run_fits(run_at(block, i + 1))
        &&& start <= block.len() && end < block.len() ==> {
            &&& second == 15 ==> run_fits(run_at(block, end + 2))
            &&& i < next < block.len() ==> lengths_fit(block, next)
        }
    }
}

/// Whether data can be read as a block: the length before it is one that memory can have,
/// and all lengths in it can be added up.
pub open spec fn is_readable(block: Seq<u8>) -> bool {
    block.len() >= 4 ==> le_value(block.take(4)) <= isize::MAX && lengths_fit(block, 4)
}

fn count_run(block: &[u8], i: usize) -> (result: usize)
    requires
        i <= block@.len(),
    ensures
        result == run_at(block@, i as int),
        i + result <= block@.len(),
{
    let mut j: usize = i;
    while j < block.len() && block[j] == 255
        invariant
            i <= j <= block@.len(),
            run_at(block@, i as int) == j - i + run_at(block@, j as int),
        decreases block@.len() - j,
    {
        j += 1;
    }
    j - i
}

fn fitting_run(run: usize) -> (result: bool)
    ensures
        result == run_fits(run as nat),
{
    if run > 16_843_008 {
        return false;
    }
    let most: u128 = 255 * (run as u128) + 273;
    most + (isize::MAX as u128) <= (usize::MAX as u128)
}

fn fitting_lengths(block: &[u8]) -> (result: bool)
    requires
        block@.len() >= 4,
    ensures
        result == lengths_fit(block@, 4),
{
    let mut i: usize = 4;
    while i < block.len()
        invariant
            4 <= i <= block@.len(),
            lengths_fit(block@, 4) == lengths_fit(block@, i as int),
        decreases block@.len() - i,
    {
        let first: u8 = block[i] / 16;
        let second: u8 = block[i] % 16;
        let mut start: usize = i + 1;
        let mut length: u64 = first as u64;
        if first == 15 {
            let run: usize = count_run(block, start);
            if !fitting_run(run) {
                return false;
            }
            if start + run >= block.len() {
                return true;
            }
            length = 15 + 255 * (run as u64) + (block[start + run] as u64);
            start = start + run + 1;
        }
        if length >= (block.len() - start) as u64 {
            return true;
        }
        let end: usize = start + length as usize;
        if block.len() - end <= 2 {
            assert(run_at(block@, end + 2) == 0);
            return true;
        }
        i = end + 2;
        if second == 15 {
            let run: usize = count_run(block, i);
            if !fitting_run(run) {
                return false;
            }
            if i + run >= block.len() {
                return true;
            }
            i = i + run + 1;
        }
    }
    true
}

/// `lz4_flex::compress_prepend_size`: the compressed block of `data`. It starts
/// with the length of `data`, every length in it counts bytes of `data`, and
/// `decompress_size_prepended` gives `data` back.
#[verifier::external_body]
fn lz4_compress(data: &[u8]) -> (result: Vec<u8>)
    requires
        is_compressible(data@.len()),
    ensures
        result@ == lz4_block(data@),
        result@.len() >= 4,
        le_value(result@.take(4)) == data@.len(),
        is_readable(result@),
        lz4_contents(result@) == good(data@),
{
    compress_prepend_size(data)
}

/// `lz4_flex::decompress_size_prepended`: what a block decompresses to, or the
/// text of the error. It adds lengths up without a check, so they have to fit.
/// Nothing is claimed of which data are blocks.
#[verifier::external_body]
fn lz4_decompress(block: &[u8]) -> (result: std::result::Result<Vec<u8>, String>)
    requires
        is_readable(block@),
    ensures
        outcome_view(result) == lz4_contents(block@),
{
    decompress_size_prepended(block).map_err(|error| error.to_string())
}

/// `bincode::serialize` on a list of changes: their number in eight bytes, then
/// each position in eight bytes and the new byte. It does not fail on such a list.
#[verifier::external_body]
fn encode_changes(changes: &Vec<(usize, u8)>) -> (result: std::result::Result<Vec<u8>, String>)
    ensures
        outcome_view(result) == good(encoded(changes@)),
{
    bincode::serialize(changes).map_err(|error| error.to_string())
}

/// `bincode::deserialize` to a list of changes: reads what `bincode::serialize`
/// writes and passes over bytes that follow. It fails where the bytes end early or
/// a position does not fit; of the error only that its text depends on the bytes
/// alone is claimed.
#[verifier::external_body]
fn decode_changes(bytes: &[u8]) -> (result: std::result::Result<Vec<(usize, u8)>, String>)
    ensures
        match result {
            Ok(changes) => is_encoding(bytes@) && changes@ == decoded(bytes@),
            Err(text) => !is_encoding(bytes@) && text@ == delta_complaint(bytes@),
        },
{
    bincode::deserialize(bytes).map_err(|error| error.to_string())
}

/// The encoding of a list of changes.
pub open spec fn encoded(changes: Seq<(usize, u8)>) -> Seq<u8> {
    le_bytes(changes.len(), 8) + encoded_items(changes)
}

/// The encodings of the changes one after the other.
pub open spec fn encoded_items(changes: Seq<(usize, u8)>) -> Seq<u8>
    decreases changes.len(),
{
    if changes.len() == 0 {
        Seq::empty()
    } else {
        encoded_items(changes.drop_last()) + le_bytes(changes.last().0 as nat, 8) + seq![
            changes.last().1,
        ]
    }
}

/// The number of changes that the bytes announce.
pub open spec fn announced(bytes: Seq<u8>) -> nat {
    le_value(bytes.take(8))
}

/// The position of change `i`.
pub open spec fn position_at(bytes: Seq<u8>, i: int) -> nat {
    le_value(bytes.subrange(8 + 9 * i, 16 + 9 * i))
}

/// Whether the bytes hold as many changes as they announce, each at a position
/// that fits.
pub open spec fn is_encoding(bytes: Seq<u8>) -> bool {
    &&& bytes.len() >= 8
    &&& 8 + 9 * announced(bytes) <= bytes.len()
    &&& forall|i: int| 0 <= i < announced(bytes) ==> #[trigger] position_at(bytes, i) <= usize::MAX
}

/// The changes that the bytes hold.
pub open spec fn decoded(bytes: Seq<u8>) -> Seq<(usize, u8)> {
    Seq::new(announced(bytes), |i: int| (position_at(bytes, i) as usize, bytes[16 + 9 * i]))
}

proof fn lemma_items_len(changes: Seq<(usize, u8)>)
    ensures
        encoded_items(changes).len() == 9 * changes.len(),
    decreases changes.len(),
{
    if changes.len() > 0 {
        lemma_items_len(changes.drop_last());
        lemma_le_len(changes.last().0 as nat, 8);
    }
}

proof fn lemma_item_at(changes: Seq<(usize, u8)>, i: int)
    requires
        0 <= i < changes.len(),
    ensures
        encoded_items(changes).len() == 9 * changes.len(),
        encoded_items(changes).subrange(9 * i, 9 * i + 8) == le_bytes(changes[i].0 as nat, 8),
        encoded_items(changes)[9 * i + 8] == changes[i].1,
    decreases changes.len(),
{
    let front = changes.drop_last();
    let items = encoded_items(changes);
    lemma_items_len(changes);
    lemma_items_len(front);
    lemma_le_len(changes.last().0 as nat, 8);
    if i < front.len() {
        lemma_item_at(front, i);
        assert(items.subrange(9 * i, 9 * i + 8) =~= encoded_items(front).subrange(
            9 * i,
            9 * i + 8,
        ));
    } else {
        assert(items.subrange(9 * i, 9 * i + 8) =~= le_bytes(changes[i].0 as nat, 8));
    }
}

/// Decoding what was encoded gives the changes back.
pub proof fn lemma_changes_round_trip(changes: Seq<(usize, u8)>)
    requires
        changes.len() <= usize::MAX,
    ensures
        encoded(changes).len() == 8 + 9 * changes.len(),
        announced(encoded(changes)) == changes.len(),
        is_encoding(encoded(changes)),
        decoded(encoded(changes)) == changes,
{
    let bytes = encoded(changes);
    lemma_byte_ranges();
    lemma_le_round_trip(changes.len(), 8);
    lemma_items_len(changes);
    assert(bytes.take(8) =~= le_bytes(changes.len(), 8));
    assert forall|i: int| 0 <= i < changes.len() implies {
        &&& #[trigger] position_at(bytes, i) == changes[i].0
        &&& bytes[16 + 9 * i] == changes[i].1
    } by {
        lemma_item_at(changes, i);
        lemma_le_round_trip(changes[i].0 as nat, 8);
        assert(bytes.subrange(8 + 9 * i, 16 + 9 * i) =~= encoded_items(changes).subrange(
            9 * i,
            9 * i + 8,
        ));
    }
    assert(decoded(bytes) =~= changes);
}

/// The bit pattern of 1.0: the ratio of data that is left alone.
pub const UNCHANGED_BITS: u64 = 0x3ff0_0000_0000_0000;

/// Compresses data that is worth it.
#[derive(Clone, Copy, Debug, PartialEq, Eq, Structural)]
pub struct Compressor {
    pub threshold: usize,
    pub enabled: bool,
}

impl Compressor {
    /// Whether data of this length is compressed at all.
    pub open spec fn compresses(self, len: nat) -> bool {
        self.enabled && len >= self.threshold
    }

    /// What the compressor makes of `data`.
    pub open spec fn packed(self, data: Seq<u8>) -> Seq<u8> {
        if self.compresses(data.len()) {
            lz4_block(data)
        } else {
            data
        }
    }

    /// Whether the compressor takes `data` for a block: it is long enough for a
    /// header, and the length in the header is one that is compressed.
    pub open spec fn looks_packed(self, data: Seq<u8>) -> bool {
        self.enabled && data.len() >= 4 && le_value(data.take(4)) >= self.threshold
    }

    /// What the compressor makes of what may be a block.
    pub open spec fn unpacked(self, data: Seq<u8>) -> std::result::Result<Seq<u8>, Seq<char>> {
        if !self.looks_packed(data) {
            Ok(data)
        } else if is_readable(data) {
            lz4_contents(data)
        } else {
            Err("length out of range"@)
        }
    }

    /// A compressor for data of at least `threshold` bytes; one that is not enabled
    /// leaves all data alone.
    pub fn new(enabled: bool, threshold: usize) -> (result: Self)
        ensures
            result == (Compressor { threshold, enabled }),
    {
        Compressor { threshold, enabled }
    }

    /// Compresses `data` where it is worth it. Decompression gives `data` back,
    /// unless `data` was left alone and looks like a block itself.
    pub fn compress(&self, data: &[u8]) -> (result: Result<Vec<u8>>)
        requires
            self.compresses(data@.len()) ==> is_compressible(data@.len()),
        ensures
            result matches Ok(out) && {
                &&& out@ == self.packed(data@)
                &&& self.compresses(data@.len()) ==> out@.len() >= 4 && le_value(out@.take(4))
                    == data@.len()
                &&& self.compresses(data@.len()) || !self.looks_packed(data@) ==> self.unpacked(
                    out@,
                ) == good(data@)
            },
    {
        if !self.enabled {
            return Ok(to_vec(data));
        }
        if data.len() < self.threshold {
            return Ok(to_vec(data));
        }
        Ok(lz4_compress(data))
    }

    /// Decompresses what looks like a block, and leaves other data alone. A block with a
    /// length that is out of range is refused.
    pub fn decompress(&self, data: &[u8]) -> (result: Result<Vec<u8>>)
        ensures
            match result {
                Ok(bytes) => self.unpacked(data@) == good(bytes@),
                Err(error) => {
                    &&& self.looks_packed(data@)
                    &&& error matches CompressionError::Decompression(text) && self.unpacked(
                        data@,
                    ) == bad(text@)
                },
            },
    {
        if !self.enabled {
            return Ok(to_vec(data));
        }
        if data.len() < 4 {
            return Ok(to_vec(data));
        }
        let original_size: u32 = read_u32(data);
        if (original_size as u64) < (self.threshold as u64) {
            return Ok(to_vec(data));
        }
        if (original_size as u64) > (isize::MAX as u64) || !fitting_lengths(data) {
            return Err(CompressionError::Decompression("length out of range".to_owned()));
        }
        match lz4_decompress(data) {
            Ok(bytes) => Ok(bytes),
            Err(text) => Err(CompressionError::Decompression(text)),
        }
    }

    /// How much smaller compression makes `data`: what `ratio` makes of the compressed
    /// and the original size, or one where data is left alone.
    pub fn estimate_compression_ratio<F: Fn(usize, usize) -> Scalar>(&self, data: &[u8], ratio: F) -> (result:
        Scalar)
        requires
            self.compresses(data@.len()) ==> is_compressible(data@.len()),
            forall|a: usize, b: usize| #[trigger] ratio.requires((a, b)),
        ensures
            if self.compresses(data@.len()) {
                lz4_block(data@).len() <= usize::MAX && ratio.ensures(
                    (lz4_block(data@).len() as usize, data@.len() as usize),
                    result,
                )
            } else {
                result == Scalar::spec_from_bits(UNCHANGED_BITS)
            },
    {
        if !self.enabled || data.len() < self.threshold {
            return Scalar::from_bits(UNCHANGED_BITS);
        }
        let compressed = lz4_compress(data);
        ratio(compressed.len(), data.len())
    }
}

/// The changes that turn the start of `old` into `new`: the positions of `new`
/// that `old` lacks or where it has another byte, in order.
pub open spec fn differences(old_state: Seq<u8>, new_state: Seq<u8>) -> Seq<(usize, u8)>
    decreases new_state.len(),
{
    if new_state.len() == 0 {
        Seq::empty()
    } else {
        let front = differences(old_state, new_state.drop_last());
        let i = new_state.len() - 1;
        if i < old_state.len() && old_state[i] == new_state[i] {
            front
        } else {
            front.push((i as usize, new_state[i]))
        }
    }
}

/// The state after one change. A position past the end extends the state with
/// zeros.
pub open spec fn changed(state: Seq<u8>, change: (usize, u8)) -> Seq<u8> {
    let i = change.0 as int;
    if i >= state.len() {
        (state + Seq::new((i + 1 - state.len()) as nat, |j: int| 0u8)).update(i, change.1)
    } else {
        state.update(i, change.1)
    }
}

/// The state after all changes.
pub open spec fn applied(state: Seq<u8>, changes: Seq<(usize, u8)>) -> Seq<u8>
    decreases changes.len(),
{
    if changes.len() == 0 {
        state
    } else {
        changed(applied(state, changes.drop_last()), changes.last())
    }
}

/// The longest state that changes may lead to.
pub open spec fn fits(changes: Seq<(usize, u8)>) -> bool {
    forall|i: int| 0 <= i < changes.len() ==> (#[trigger] changes[i]).0 < isize::MAX
}

/// What a delta between two states does to the older one: the newer state takes
/// the place of its start, and what lies past the end of the newer one stays.
pub open spec fn overlaid(old_state: Seq<u8>, new_state: Seq<u8>) -> Seq<u8> {
    if old_state.len() > new_state.len() {
        new_state + old_state.skip(new_state.len() as int)
    } else {
        new_state
    }
}

/// Applying the differences overlays the old state with the new one; a state that
/// did not shrink is reproduced exactly.
pub proof fn lemma_differences_apply(old_state: Seq<u8>, new_state: Seq<u8>)
    requires
        new_state.len() <= usize::MAX,
    ensures
        applied(old_state, differences(old_state, new_state)) == overlaid(old_state, new_state),
        old_state.len() <= new_state.len() ==> applied(
            old_state,
            differences(old_state, new_state),
        ) == new_state,
    decreases new_state.len(),
{
    if new_state.len() == 0 {
        assert(old_state.skip(0) =~= old_state);
        assert(overlaid(old_state, new_state) =~= old_state);
    } else {
        let front = new_state.drop_last();
        let i = new_state.len() - 1;
        lemma_differences_apply(old_state, front);
        let steps = differences(old_state, front);
        if i < old_state.len() && old_state[i] == new_state[i] {
            assert(overlaid(old_state, new_state) =~= overlaid(old_state, front));
        } else {
            let all = steps.push((i as usize, new_state[i]));
            assert(all.drop_last() =~= steps);
            assert(overlaid(old_state, new_state) =~= changed(
                overlaid(old_state, front),
                (i as usize, new_state[i]),
            ));
        }
    }
}

proof fn lemma_differences_bounds(old_state: Seq<u8>, new_state: Seq<u8>)
    requires
        new_state.len() <= usize::MAX,
    ensures
        differences(old_state, new_state).len() <= new_state.len(),
        forall|i: int|
            0 <= i < differences(old_state, new_state).len() ==> (#[trigger] differences(
                old_state,
                new_state,
            )[i]).0 < new_state.len(),
    decreases new_state.len(),
{
    if new_state.len() > 0 {
        lemma_differences_bounds(old_state, new_state.drop_last());
    }
}

/// Turns one state into another by sending only what differs.
#[derive(Clone, Copy, Debug, PartialEq, Eq, Structural)]
pub struct DeltaCompressor {
    pub compressor: Compressor,
}

impl DeltaCompressor {
    /// A delta compressor whose deltas go through a compressor.
    pub fn new(enabled: bool, threshold: usize) -> (result: Self)
        ensures
            result.compressor == (Compressor { threshold, enabled }),
    {
        DeltaCompressor { compressor: Compressor::new(enabled, threshold) }
    }

    /// What a delta does to a state: the state that results, if the delta can be
    /// read and speaks only of positions that a state can have.
    pub open spec fn delta_effect(self, state: Seq<u8>, delta: Seq<u8>) -> Option<Seq<u8>> {
        match self.compressor.unpacked(delta) {
            Ok(bytes) => if is_encoding(bytes) && fits(decoded(bytes)) {
                Some(applied(state, decoded(bytes)))
            } else {
                None
            },
            Err(_) => None,
        }
    }

    /// The delta from `old_state` to `new_state`. Applied to `old_state` it puts
    /// `new_state` in the place of its start, and so reproduces any state that is
    /// not shorter.
    pub fn create_delta(&self, old_state: &[u8], new_state: &[u8]) -> (result: Result<Vec<u8>>)
        requires
            ({
                let len = encoded(differences(old_state@, new_state@)).len();
                self.compressor.compresses(len) ==> is_compressible(len)
            }),
        ensures
            result matches Ok(delta) && delta@ == self.compressor.packed(
                encoded(differences(old_state@, new_state@)),
            ) && (new_state@.len() < isize::MAX ==> self.delta_effect(old_state@, delta@) == Some(
                overlaid(old_state@, new_state@),
            )),
    {
        let mut changes: Vec<(usize, u8)> = Vec::new();
        let mut i: usize = 0;
        assert(new_state@.take(0) =~= Seq::<u8>::empty());
        while i < new_state.len()
            invariant
                i <= new_state@.len(),
                changes@ == differences(old_state@, new_state@.take(i as int)),
            decreases new_state@.len() - i,
        {
            proof {
                assert(new_state@.take(i + 1).drop_last() =~= new_state@.take(i as int));
            }
            if i >= old_state.len() || old_state[i] != new_state[i] {
                changes.push((i, new_state[i]));
            }
            i += 1;
        }
        proof {
            assert(new_state@.take(i as int) =~= new_state@);
            lemma_differences_bounds(old_state@, new_state@);
            lemma_changes_round_trip(changes@);
        }
        let serialized = match encode_changes(&changes) {
            Ok(bytes) => bytes,
            Err(text) => {
                return Err(CompressionError::Serialization(text));
            },
        };
        proof {
            lemma_le_round_trip_head(changes@);
            lemma_differences_apply(old_state@, new_state@);
        }
        self.compressor.compress(serialized.as_slice())
    }

    /// Applies the changes one after the other.
    pub fn apply_changes(&self, base_state: &mut Vec<u8>, changes: &Vec<(usize, u8)>)
        requires
            fits(changes@),
        ensures
            final(base_state)@ == applied(old(base_state)@, changes@),
    {
        let mut i: usize = 0;
        assert(changes@.take(0) =~= Seq::<(usize, u8)>::empty());
        while i < changes.len()
            invariant
                i <= changes@.len(),
                fits(changes@),
                base_state@ == applied(old(base_state)@, changes@.take(i as int)),
            decreases changes@.len() - i,
        {
            let ghost before = base_state@;
            let (index, value) = changes[i];
            assert(changes@[i as int].0 < isize::MAX);
            if index >= base_state.len() {
                base_state.resize(index + 1, 0);
                assert(base_state@ =~= before + Seq::new(
                    (index + 1 - before.len()) as nat,
                    |j: int| 0u8,
                )) by {
                    assert(forall|j: int|
                        0 <= j < before.len() ==> base_state@.subrange(0, before.len() as int)[j]
                            == before[j]);
                }
            }
            base_state.set(index, value);
            proof {
                assert(changes@.take(i + 1).drop_last() =~= changes@.take(i as int));
            }
            i += 1;
        }
        assert(changes@.take(i as int) =~= changes@);
    }

    /// Applies a delta. Where it cannot be read, or speaks of a position that no
    /// state can have, the state stays as it is.
    pub fn apply_delta(&self, base_state: &mut Vec<u8>, delta: &[u8]) -> (result: Result<()>)
        ensures
            match self.delta_effect(old(base_state)@, delta@) {
                Some(state) => result is Ok && final(base_state)@ == state,
                None => result is Err && final(base_state)@ == old(base_state)@,
            },
            match result {
                Ok(_) => true,
                Err(CompressionError::Decompression(text)) => self.compressor.unpacked(delta@)
                    == bad(text@),
                Err(CompressionError::Deserialization(text)) => self.compressor.unpacked(
                    delta@,
                ) matches Ok(bytes) && !is_encoding(bytes) && text@ == delta_complaint(bytes),
                Err(CompressionError::PositionOutOfRange(position)) => self.compressor.unpacked(
                    delta@,
                ) matches Ok(bytes) && is_encoding(bytes) && exists|i: int|
                    0 <= i < decoded(bytes).len() && (#[trigger] decoded(bytes)[i]).0 == position
                        && position >= isize::MAX,
                Err(CompressionError::Serialization(_)) => false,
            },
    {
        let bytes = match self.compressor.decompress(delta) {
            Ok(bytes) => bytes,
            Err(error) => {
                return Err(error);
            },
        };
        let changes = match decode_changes(bytes.as_slice()) {
            Ok(changes) => changes,
            Err(text) => {
                return Err(CompressionError::Deserialization(text));
            },
        };
        let mut i: usize = 0;
        while i < changes.len()
            invariant
                i <= changes@.len(),
                *base_state == *old(base_state),
                self.compressor.unpacked(delta@) == good(bytes@),
                is_encoding(bytes@),
                changes@ == decoded(bytes@),
                forall|j: int| 0 <= j < i ==> (#[trigger] changes@[j]).0 < isize::MAX,
            decreases changes@.len() - i,
        {
            if changes[i].0 >= isize::MAX as usize {
                assert(decoded(bytes@)[i as int].0 == changes@[i as int].0);
                assert(!fits(changes@));
                return Err(CompressionError::PositionOutOfRange(changes[i].0));
            }
            i += 1;
        }
        self.apply_changes(base_state, &changes);
        Ok(())
    }
}

/// The header that an encoded list of changes starts with never makes the list
/// look like a block of a length that is not its own: it announces fewer changes
/// than the list has bytes.
proof fn lemma_le_round_trip_head(changes: Seq<(usize, u8)>)
    requires
        changes.len() <= usize::MAX,
    ensures
        encoded(changes).len() >= 4,
        le_value(encoded(changes).take(4)) <= changes.len(),
{
    lemma_changes_round_trip(changes);
    let bytes = encoded(changes);
    lemma_le_prefix(bytes.take(8), 4);
    assert(bytes.take(8).take(4) =~= bytes.take(4));
}

/// The differences between two states name each position at which the new one has another
/// byte than the old, or the old has none, with the new byte, and no other position.
pub proof fn lemma_differences_name_what_changed(
    old_state: Seq<u8>,
    new_state: Seq<u8>,
    change: (usize, u8),
)
    requires
        new_state.len() <= usize::MAX,
    ensures
        differences(old_state, new_state).contains(change) <==> {
            &&& change.0 < new_state.len()
            &&& new_state[change.0 as int] == change.1
            &&& change.0 < old_state.len() ==> old_state[change.0 as int] != change.1
        },
        differences(old_state, new_state).len() <= new_state.len(),
    decreases new_state.len(),
{
    if new_state.len() > 0 {
        let front = new_state.drop_last();
        let i = new_state.len() - 1;
        lemma_differences_name_what_changed(old_state, front, change);
        crate::table::lemma_push_contains(
            differences(old_state, front),
            (i as usize, new_state[i]),
        );
    }
}

/// States that are the same have no differences.
pub proof fn lemma_same_states_do_not_differ(state: Seq<u8>)
    requires
        state.len() <= usize::MAX,
    ensures
        differences(state, state).len() == 0,
{
    if differences(state, state).len() > 0 {
        let change = differences(state, state)[0];
        assert(differences(state, state).contains(change));
        lemma_differences_name_what_changed(state, state, change);
    }
}

/// A change puts its byte at its place and leaves every other byte alone. A state that is
/// too short grows to that place, with zeros between.
pub proof fn lemma_change_touches_one_place(state: Seq<u8>, change: (usize, u8), i: int)
    requires
        0 <= i,
    ensures
        changed(state, change)[change.0 as int] == change.1,
        change.0 < state.len() ==> changed(state, change).len() == state.len(),
        change.0 >= state.len() ==> changed(state, change).len() == change.0 + 1,
        i < state.len() && i != change.0 ==> changed(state, change)[i] == state[i],
        state.len() <= i < change.0 ==> changed(state, change)[i] == 0,
{
}

/// Changes are made in their order.
pub proof fn lemma_changes_are_made_in_order(
    state: Seq<u8>,
    first: Seq<(usize, u8)>,
    second: Seq<(usize, u8)>,
)
    ensures
        applied(state, first + second) == applied(applied(state, first), second),
    decreases second.len(),
{
    if second.len() == 0 {
        assert(first + second =~= first);
    } else {
        assert((first + second).drop_last() =~= first + second.drop_last());
        lemma_changes_are_made_in_order(state, first, second.drop_last());
    }
}

/// Data is compressed where compression is on and the data is as long as the threshold, and
/// is left alone otherwise.
pub proof fn lemma_short_data_is_left_alone(compressor: Compressor, data: Seq<u8>)
    ensures
        !compressor.enabled || data.len() < compressor.threshold ==> compressor.packed(data) == data,
        compressor.enabled && data.len() >= compressor.threshold ==> compressor.packed(data)
            == lz4_block(data),
        !compressor.enabled || data.len() < 4 ==> compressor.unpacked(data) == good(data),
        compressor.enabled && data.len() >= 4 && le_value(data.take(4)) < compressor.threshold
            ==> compressor.unpacked(data) == good(data),
        compressor.enabled && data.len() >= 4 && le_value(data.take(4)) >= compressor.threshold
            && is_readable(data) ==> compressor.unpacked(data) == lz4_contents(data),
{
}

/// The bytes of a list of changes count them first, and then give each nine bytes: eight
/// for its place and one for its byte.
pub proof fn lemma_changes_take_nine_bytes_each(changes: Seq<(usize, u8)>, one: (usize, u8))
    ensures
        encoded(changes).len() == 8 + 9 * changes.len(),
        changes.len() <= u64::MAX ==> announced(encoded(changes)) == changes.len(),
        encoded_items(changes.push(one)) == encoded_items(changes) + crate::bytes::le_bytes(
            one.0 as nat,
            8,
        ) + seq![one.1],
{
    lemma_items_take_nine_bytes_each(changes);
    crate::bytes::lemma_le_len(changes.len(), 8);
    assert(changes.push(one).drop_last() =~= changes);
    if changes.len() <= u64::MAX {
        crate::bytes::lemma_byte_ranges();
        crate::bytes::lemma_le_round_trip(changes.len(), 8);
        assert(encoded(changes).take(8) =~= crate::bytes::le_bytes(changes.len(), 8));
    }
}

proof fn lemma_items_take_nine_bytes_each(changes: Seq<(usize, u8)>)
    ensures
        encoded_items(changes).len() == 9 * changes.len(),
    decreases changes.len(),
{
    if changes.len() > 0 {
        lemma_items_take_nine_bytes_each(changes.drop_last());
        crate::bytes::lemma_le_len(changes.last().0 as nat, 8);
    }
}

/// Laying a state over an older one keeps all of the new one, and of the old one what lies
/// behind it.
pub proof fn lemma_new_state_lies_on_top(old_state: Seq<u8>, new_state: Seq<u8>, i: int)
    requires
        0 <= i,
    ensures
        i < new_state.len() ==> overlaid(old_state, new_state)[i] == new_state[i],
        new_state.len() <= i < old_state.len() ==> overlaid(old_state, new_state)[i]
            == old_state[i],
        overlaid(old_state, new_state).len() == if old_state.len() > new_state.len() {
            old_state.len()
        } else {
            new_state.len()
        },
{
}

} // verus!
