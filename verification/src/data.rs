use vstd::prelude::*;
use crate::error::{field_text, invalid_operation, push_field, push_number, Result, TensorError};
use crate::text::decimal;
use crate::hash::{fnv1a, hex16, stable_hash_tokens, token_hash_bytes};
use crate::rng::{draw_output, HeirloomRng};
use crate::text::{debug_quoted, lex_lt, lex_order, push_debug_quoted, str_eq, Lex};
use vstd::wrapping::u64_specs;

verus! {

/// Where the TinyStories validation text is fetched from.
pub const TINYSTORIES_VALID_URL: &'static str =
    "https://huggingface.co/datasets/roneneldan/TinyStories/resolve/main/TinyStories-valid.txt";

pub const DATASET_MANIFEST_FORMAT: &'static str = "heirloom.token_dataset";

pub const DATASET_MANIFEST_VERSION: u32 = 1;

pub const DATASET_MANIFEST_VERSION_V2: u32 = 2;

pub const TOKEN_SHARD_FORMAT: &'static str = "heirloom.token_shard";

pub const TOKEN_SHARD_VERSION: u32 = 1;

pub const DATASET_STORAGE_JSON: &'static str = "json";

pub const DATASET_STORAGE_BINARY_SHARDS: &'static str = "binary_shards";

pub const CORPUS_BLEND_MANIFEST_FORMAT: &'static str = "heirloom.corpus_blend";

pub const CORPUS_BLEND_MANIFEST_VERSION: u32 = 1;

/// Resumable position of a token dataset: generator state and batch count.
#[derive(Clone, Copy, Debug, PartialEq, Eq, Structural)]
pub struct TokenDatasetState {
    pub rng_state: u64,
    pub batches_seen: usize,
}

impl TokenDatasetState {
    /// The state of a fresh dataset seeded with `seed`.
    pub fn from_seed(seed: u64) -> (s: Self)
        ensures
            s.rng_state == seed,
            s.batches_seen == 0,
    {
        TokenDatasetState { rng_state: HeirloomRng::new(seed).state(), batches_seen: 0 }
    }
}

// ---------------------------------------------------------------------------
// Binary token shards
// ---------------------------------------------------------------------------

/// Width of the little-endian integers stored in a token shard payload.
#[derive(Clone, Copy, Debug, PartialEq, Eq, Structural)]
pub enum TokenShardDType {
    U16,
    U32,
}

/// A token shard width as its `Debug` form writes it.
pub open spec fn shard_dtype_debug(dtype: TokenShardDType) -> Seq<char> {
    match dtype {
        TokenShardDType::U16 => "U16"@,
        TokenShardDType::U32 => "U32"@,
    }
}

impl TokenShardDType {
    pub open spec fn width(self) -> nat {
        match self {
            TokenShardDType::U16 => 2,
            TokenShardDType::U32 => 4,
        }
    }

    pub open spec fn max_id(self) -> nat {
        match self {
            TokenShardDType::U16 => 0xffff,
            TokenShardDType::U32 => 0xffff_ffff,
        }
    }

    /// Bytes used by one token: 2 for `U16`, 4 for `U32`.
    pub fn bytes_per_token(self) -> (n: usize)
        ensures
            n == self.width(),
    {
        match self {
            TokenShardDType::U16 => 2,
            TokenShardDType::U32 => 4,
        }
    }

    /// Largest token id the width can store.
    pub fn max_token_id(self) -> (n: usize)
        ensures
            n == self.max_id(),
    {
        match self {
            TokenShardDType::U16 => 0xffff,
            TokenShardDType::U32 => 0xffff_ffff,
        }
    }

    /// The narrowest width that holds every token: `U16` when all ids are at
    /// most `u16::MAX`, else `U32` when all are at most `u32::MAX`.
    pub fn for_tokens(tokens: &[usize]) -> (res: Result<Self>)
        ensures
            res matches Ok(TokenShardDType::U16) <==> all_at_most(tokens@, 0xffff),
            res matches Ok(TokenShardDType::U32) <==> !all_at_most(tokens@, 0xffff) && all_at_most(
                tokens@,
                0xffff_ffff,
            ),
            res is Err <==> !all_at_most(tokens@, 0xffff_ffff),
            res matches Err(e) ==> e is InvalidOperation,
            res matches Err(e) ==> exists|j: int|
                0 <= j < tokens@.len() && all_at_most(tokens@, #[trigger] tokens@[j] as nat) && e.message_spec()
                    == "token id"@ + " "@ + decimal(tokens@[j] as nat) + " exceeds u32 token shard limit"@,
    {
        let mut max_token: usize = 0;
        let mut i: usize = 0;
        while i < tokens.len()
            invariant
                i <= tokens.len(),
                forall|j: int| 0 <= j < i ==> tokens@[j] <= max_token,
                max_token == 0 || exists|j: int| 0 <= j < i && tokens@[j] == max_token,
            decreases tokens.len() - i,
        {
            if tokens[i] > max_token {
                max_token = tokens[i];
            }
            i = i + 1;
        }
        if max_token <= 0xffff {
            Ok(TokenShardDType::U16)
        } else if max_token <= 0xffff_ffff {
            Ok(TokenShardDType::U32)
        } else {
            let mut message = String::from_str("token id");
            push_number(&mut message, " ", max_token as u64);
            message.append(" exceeds u32 token shard limit");
            let ghost j = choose|j: int| 0 <= j < i && tokens@[j] == max_token;
            assert(all_at_most(tokens@, tokens@[j] as nat));
            Err(TensorError::InvalidOperation(message))
        }
    }
}

/// Every token is at most `bound`.
pub open spec fn all_at_most(tokens: Seq<usize>, bound: nat) -> bool {
    forall|i: int| 0 <= i < tokens.len() ==> #[trigger] tokens[i] <= bound
}

/// Sidecar description of one binary token shard.
#[derive(Clone, Debug, PartialEq, Eq)]
pub struct TokenShardMetadata {
    pub format: String,
    pub version: u32,
    pub payload_path: String,
    pub dtype: TokenShardDType,
    pub token_count: usize,
    pub token_hash: String,
    pub payload_bytes: usize,
    pub payload_hash: String,
}

impl TokenShardMetadata {
    /// The metadata names the supported format and version and its payload
    /// byte count is exactly `token_count` tokens of its width.
    pub open spec fn is_valid(&self) -> bool {
        &&& self.format@ == TOKEN_SHARD_FORMAT@
        &&& self.version == TOKEN_SHARD_VERSION
        &&& self.token_count * self.dtype.width() <= usize::MAX
        &&& self.payload_bytes == self.token_count * self.dtype.width()
    }

    /// Accepts metadata only if `is_valid`; every refusal is an
    /// invalid-operation error, whose message reports the offending value.
    pub fn validate(&self) -> (res: Result<()>)
        ensures
            res is Ok <==> self.is_valid(),
            res matches Err(e) ==> e is InvalidOperation,
            res matches Err(e) ==> e.message_spec() == self.refusal_message(),
    {
        if !str_eq(self.format.as_str(), TOKEN_SHARD_FORMAT) {
            let mut message = String::from_str("unsupported token shard format ");
            message.append(self.format.as_str());
            message.append(", expected ");
            message.append(TOKEN_SHARD_FORMAT);
            return Err(TensorError::InvalidOperation(message));
        }
        if self.version != TOKEN_SHARD_VERSION {
            let mut message = String::from_str("unsupported token shard version");
            push_number(&mut message, " ", self.version as u64);
            push_number(&mut message, ", expected ", TOKEN_SHARD_VERSION as u64);
            return Err(TensorError::InvalidOperation(message));
        }
        let expected = match self.token_count.checked_mul(self.dtype.bytes_per_token()) {
            Some(n) => n,
            None => {
                return Err(invalid_operation("token shard payload byte count overflow"));
            },
        };
        if self.payload_bytes != expected {
            let mut message = String::from_str("token shard payload byte mismatch:");
            push_field(&mut message, " ", "metadata", self.payload_bytes as u64);
            push_field(&mut message, " ", "expected", expected as u64);
            return Err(TensorError::InvalidOperation(message));
        }
        Ok(())
    }

    /// The message of the first check that the metadata fails.
    pub open spec fn refusal_message(&self) -> Seq<char> {
        if self.format@ != TOKEN_SHARD_FORMAT@ {
            "unsupported token shard format "@ + self.format@ + ", expected "@ + TOKEN_SHARD_FORMAT@
        } else if self.version != TOKEN_SHARD_VERSION {
            "unsupported token shard version"@ + " "@ + decimal(self.version as nat) + ", expected "@
                + decimal(TOKEN_SHARD_VERSION as nat)
        } else if self.token_count * self.dtype.width() > usize::MAX {
            "token shard payload byte count overflow"@
        } else {
            "token shard payload byte mismatch:"@ + " "@ + field_text("metadata"@, self.payload_bytes as nat)
                + " "@ + field_text("expected"@, (self.token_count * self.dtype.width()) as nat)
        }
    }
}

/// Little-endian bytes of one token at the given width.
pub open spec fn token_bytes(token: usize, dtype: TokenShardDType) -> Seq<u8> {
    match dtype {
        TokenShardDType::U16 => seq![(token & 0xff) as u8, ((token >> 8usize) & 0xff) as u8],
        TokenShardDType::U32 => seq![
            (token & 0xff) as u8,
            ((token >> 8usize) & 0xff) as u8,
            ((token >> 16usize) & 0xff) as u8,
            ((token >> 24usize) & 0xff) as u8,
        ],
    }
}

/// Payload of a token shard: the tokens' little-endian bytes, concatenated.
pub open spec fn encode_spec(tokens: Seq<usize>, dtype: TokenShardDType) -> Seq<u8>
    decreases tokens.len(),
{
    if tokens.len() == 0 {
        Seq::empty()
    } else {
        encode_spec(tokens.drop_last(), dtype) + token_bytes(tokens.last(), dtype)
    }
}

/// Value of the little-endian integer stored in `bytes`.
pub open spec fn le_value(bytes: Seq<u8>) -> nat
    decreases bytes.len(),
{
    if bytes.len() == 0 {
        0
    } else {
        (bytes[0] as nat) + 256 * le_value(bytes.drop_first())
    }
}

/// Tokens read back from a payload whose length is a multiple of the width.
pub open spec fn decode_spec(payload: Seq<u8>, dtype: TokenShardDType) -> Seq<usize> {
    let w = dtype.width() as int;
    Seq::new(
        (payload.len() as int / w) as nat,
        |i: int| le_value(payload.subrange(i * w, i * w + w)) as usize,
    )
}

/// Serializes tokens as little-endian integers of the given width. Fails
/// with an invalid-operation error if some token does not fit the width.
pub fn encode_token_shard_payload(tokens: &[usize], dtype: TokenShardDType) -> (res: Result<
    Vec<u8>,
>)
    ensures
        res is Ok <==> all_at_most(tokens@, dtype.max_id()),
        res matches Ok(payload) ==> payload@ == encode_spec(tokens@, dtype),
        res matches Err(e) ==> e is InvalidOperation && exists|i: int|
            {
                &&& 0 <= i < tokens@.len()
                &&& #[trigger] tokens@[i] > dtype.max_id()
                &&& all_at_most(tokens@.take(i), dtype.max_id())
                &&& e.message_spec() == "token id "@ + decimal(tokens@[i] as nat) + " exceeds "@
                    + shard_dtype_debug(dtype) + " token shard limit"@
            },
{
    let max_id = dtype.max_token_id();
    let mut payload: Vec<u8> = Vec::new();
    let mut i: usize = 0;
    assert(tokens@.take(0) =~= Seq::<usize>::empty());
    while i < tokens.len()
        invariant
            i <= tokens.len(),
            max_id == dtype.max_id(),
            payload@ == encode_spec(tokens@.take(i as int), dtype),
            all_at_most(tokens@.take(i as int), dtype.max_id()),
        decreases tokens.len() - i,
    {
        let token = tokens[i];
        if token > max_id {
            let mut message = String::new();
            push_number(&mut message, "token id ", token as u64);
            message.append(" exceeds ");
            message.append(
                match dtype {
                    TokenShardDType::U16 => "U16",
                    TokenShardDType::U32 => "U32",
                },
            );
            message.append(" token shard limit");
            return Err(TensorError::InvalidOperation(message));
        }
        assert(tokens@.take(i + 1).drop_last() =~= tokens@.take(i as int));
        payload.push((token & 0xff) as u8);
        payload.push(((token >> 8usize) & 0xff) as u8);
        match dtype {
            TokenShardDType::U16 => {},
            TokenShardDType::U32 => {
                payload.push(((token >> 16usize) & 0xff) as u8);
                payload.push(((token >> 24usize) & 0xff) as u8);
            },
        }
        assert(payload@ =~= encode_spec(tokens@.take(i + 1), dtype));
        i = i + 1;
    }
    assert(tokens@.take(tokens.len() as int) =~= tokens@);
    Ok(payload)
}

/// Reads tokens back from a payload. Fails with an invalid-operation error
/// if the payload length is not a multiple of the token width.
pub fn decode_token_shard_payload(payload: &[u8], dtype: TokenShardDType) -> (res: Result<
    Vec<usize>,
>)
    ensures
        res is Ok <==> payload@.len() % dtype.width() == 0,
        res matches Ok(tokens) ==> tokens@ == decode_spec(payload@, dtype),
        res matches Err(e) ==> e is InvalidOperation,
        res matches Err(e) ==> e.message_spec() == "token shard payload byte length"@ + " "@ + decimal(
            payload@.len(),
        ) + " is not divisible by token width "@ + decimal(dtype.width()),
{
    let width = dtype.bytes_per_token();
    if payload.len() % width != 0 {
        let mut message = String::from_str("token shard payload byte length");
        push_number(&mut message, " ", payload.len() as u64);
        push_number(&mut message, " is not divisible by token width ", width as u64);
        return Err(TensorError::InvalidOperation(message));
    }
    let count = payload.len() / width;
    let mut tokens: Vec<usize> = Vec::new();
    let mut i: usize = 0;
    while i < count
        invariant
            i <= count,
            width == dtype.width(),
            count == payload.len() / width,
            payload.len() % width == 0,
            tokens.len() == i,
            forall|j: int| 0 <= j < i ==> #[trigger] tokens@[j] == decode_spec(payload@, dtype)[j],
        decreases count - i,
    {
        proof {
            vstd::arithmetic::div_mod::lemma_fundamental_div_mod(payload.len() as int, width as int);
            assert(i * width + width <= count * width) by (nonlinear_arith)
                requires
                    i < count,
                    width > 0,
            ;
        }
        let base = i * width;
        let b0 = payload[base] as usize;
        let b1 = payload[base + 1] as usize;
        let value: usize = match dtype {
            TokenShardDType::U16 => b0 + 256 * b1,
            TokenShardDType::U32 => {
                let b2 = payload[base + 2] as usize;
                let b3 = payload[base + 3] as usize;
                b0 + 256 * (b1 + 256 * (b2 + 256 * b3))
            },
        };
        proof {
            let chunk = payload@.subrange(base as int, base + width);
            assert(chunk.drop_first().drop_first().drop_first().drop_first().len() == 0 || width
                == 2);
            reveal_with_fuel(le_value, 5);
        }
        tokens.push(value);
        i = i + 1;
    }
    assert(tokens@ =~= decode_spec(payload@, dtype));
    Ok(tokens)
}

proof fn lemma_encode_len(tokens: Seq<usize>, dtype: TokenShardDType)
    ensures
        encode_spec(tokens, dtype).len() == tokens.len() * dtype.width(),
    decreases tokens.len(),
{
    if tokens.len() > 0 {
        lemma_encode_len(tokens.drop_last(), dtype);
        assert((tokens.len() - 1) * dtype.width() + dtype.width() == tokens.len() * dtype.width())
            by (nonlinear_arith);
    }
}

proof fn lemma_encode_chunk(tokens: Seq<usize>, dtype: TokenShardDType, i: int)
    requires
        0 <= i < tokens.len(),
    ensures
        encode_spec(tokens, dtype).subrange(
            i * dtype.width(),
            i * dtype.width() + dtype.width(),
        ) == token_bytes(tokens[i], dtype),
    decreases tokens.len(),
{
    let w = dtype.width() as int;
    let prev = tokens.drop_last();
    lemma_encode_len(prev, dtype);
    let enc = encode_spec(tokens, dtype);
    assert(enc == encode_spec(prev, dtype) + token_bytes(tokens.last(), dtype));
    if i < tokens.len() - 1 {
        lemma_encode_chunk(prev, dtype, i);
        assert(i * w + w <= prev.len() * w) by (nonlinear_arith)
            requires
                i < prev.len(),
                w > 0,
        ;
        assert(enc.subrange(i * w, i * w + w) =~= encode_spec(prev, dtype).subrange(
            i * w,
            i * w + w,
        ));
    } else {
        assert(i * w == prev.len() * w);
        assert(enc.subrange(i * w, i * w + w) =~= token_bytes(tokens.last(), dtype));
    }
}

proof fn lemma_token_bytes_value(token: usize, dtype: TokenShardDType)
    requires
        token <= dtype.max_id(),
    ensures
        le_value(token_bytes(token, dtype)) == token,
{
    reveal_with_fuel(le_value, 5);
    let b = token_bytes(token, dtype);
    match dtype {
        TokenShardDType::U16 => {
            assert(b.drop_first().drop_first() =~= Seq::<u8>::empty());
            assert(((token & 0xff) as u8) as nat + 256 * (((token >> 8usize) & 0xff) as u8) as nat
                == token) by (bit_vector)
                requires
                    token <= 0xffff,
            ;
        },
        TokenShardDType::U32 => {
            assert(b.drop_first().drop_first().drop_first().drop_first() =~= Seq::<u8>::empty());
            assert(((token & 0xff) as u8) as nat + 256 * ((((token >> 8usize) & 0xff) as u8) as nat
                + 256 * ((((token >> 16usize) & 0xff) as u8) as nat + 256 * (((token >> 24usize)
                & 0xff) as u8) as nat)) == token) by (bit_vector)
                requires
                    token <= 0xffff_ffff,
            ;
        },
    }
}

/// Reading back a payload written by `encode_token_shard_payload` yields the
/// original tokens, for every token sequence that fits the width.
pub proof fn lemma_shard_payload_roundtrip(tokens: Seq<usize>, dtype: TokenShardDType)
    requires
        all_at_most(tokens, dtype.max_id()),
    ensures
        encode_spec(tokens, dtype).len() % dtype.width() == 0,
        decode_spec(encode_spec(tokens, dtype), dtype) == tokens,
{
    let w = dtype.width() as int;
    let enc = encode_spec(tokens, dtype);
    lemma_encode_len(tokens, dtype);
    vstd::arithmetic::div_mod::lemma_mod_multiples_basic(tokens.len() as int, w);
    vstd::arithmetic::div_mod::lemma_div_multiples_vanish(tokens.len() as int, w);
    assert(decode_spec(enc, dtype) =~= tokens) by {
        assert forall|i: int| 0 <= i < tokens.len() implies #[trigger] decode_spec(enc, dtype)[i]
            == tokens[i] by {
            lemma_encode_chunk(tokens, dtype, i);
            lemma_token_bytes_value(tokens[i], dtype);
        }
    }
}

// ---------------------------------------------------------------------------
// Token files and splits
// ---------------------------------------------------------------------------

/// Accepts loaded tokens only if their count and hash match the manifest.
pub fn validate_loaded_tokens(split: &str, tokens: &[usize], expected_len: usize, expected_hash: &str) -> (res:
    Result<()>)
    ensures
        res is Ok <==> tokens@.len() == expected_len && hex16(fnv1a(token_hash_bytes(tokens@)))
            == expected_hash@,
        res matches Err(e) ==> e is InvalidOperation && e.message_spec() == split@
            + " token file mismatch: expected len/hash="@ + decimal(expected_len as nat) + "/"@ + expected_hash@
            + ", got "@ + decimal(tokens@.len()) + "/"@ + hex16(fnv1a(token_hash_bytes(tokens@))),
{
    let actual_hash = stable_hash_tokens(tokens);
    if tokens.len() != expected_len || !str_eq(actual_hash.as_str(), expected_hash) {
        let mut message = String::from_str(split);
        push_number(&mut message, " token file mismatch: expected len/hash=", expected_len as u64);
        message.append("/");
        message.append(expected_hash);
        push_number(&mut message, ", got ", tokens.len() as u64);
        message.append("/");
        message.append(actual_hash.as_str());
        return Err(TensorError::InvalidOperation(message));
    }
    Ok(())
}

/// Which prepared split to read.
#[derive(Clone, Copy, Debug, PartialEq, Eq, Structural)]
pub enum TokenDataSplit {
    Train,
    Valid,
}

impl TokenDataSplit {
    pub open spec fn name_spec(self) -> Seq<char> {
        match self {
            TokenDataSplit::Train => "train"@,
            TokenDataSplit::Valid => "valid"@,
        }
    }

    /// `"train"` or `"valid"`.
    pub fn as_str(self) -> (s: &'static str)
        ensures
            s@ == self.name_spec(),
    {
        match self {
            TokenDataSplit::Train => "train",
            TokenDataSplit::Valid => "valid",
        }
    }
}

/// Counters kept by the streaming loader.
#[derive(Clone, Copy, Debug, Default, PartialEq, Eq, Structural)]
pub struct StreamingTokenLoaderStats {
    pub batches: usize,
    pub samples: usize,
    pub tokens: usize,
    pub read_calls: usize,
    pub bytes_read: usize,
}

/// Bytes that `reads` fetch, a read of shard `s` costing `widths[s]` bytes
/// per token.
pub open spec fn read_bytes(reads: Seq<ShardRead>, widths: Seq<usize>) -> nat
    decreases reads.len(),
{
    if reads.len() == 0 {
        0
    } else {
        read_bytes(reads.drop_last(), widths) + (reads.last().take as nat) * (widths[reads.last().shard as int] as nat)
    }
}

proof fn lemma_read_bytes_prefix(reads: Seq<ShardRead>, widths: Seq<usize>, i: int)
    requires
        0 <= i <= reads.len(),
    ensures
        read_bytes(reads.take(i), widths) <= read_bytes(reads, widths),
    decreases reads.len() - i,
{
    if i < reads.len() {
        lemma_read_bytes_prefix(reads, widths, i + 1);
        assert(reads.take(i + 1).drop_last() =~= reads.take(i));
            } else {
        assert(reads.take(i) =~= reads);
    }
}

/// Counts the reads that fetched one window: one read call per read, and
/// each read's tokens at its shard's width (`widths[s]` bytes per token of
/// shard `s`). The other counters are unchanged.
pub fn record_window_reads(stats: &mut StreamingTokenLoaderStats, reads: &[ShardRead], widths: &[usize])
    requires
        forall|k: int| 0 <= k < reads@.len() ==> #[trigger] reads@[k].shard < widths@.len(),
        old(stats).read_calls + reads@.len() <= usize::MAX,
        old(stats).bytes_read + read_bytes(reads@, widths@) <= usize::MAX,
    ensures
        final(stats).read_calls == old(stats).read_calls + reads@.len(),
        final(stats).bytes_read == old(stats).bytes_read + read_bytes(reads@, widths@),
        final(stats).batches == old(stats).batches,
        final(stats).samples == old(stats).samples,
        final(stats).tokens == old(stats).tokens,
{
    let mut i: usize = 0;
    assert(reads@.take(0) =~= Seq::<ShardRead>::empty());
    while i < reads.len()
        invariant
            i <= reads@.len(),
            forall|k: int| 0 <= k < reads@.len() ==> #[trigger] reads@[k].shard < widths@.len(),
            old(stats).read_calls + reads@.len() <= usize::MAX,
            old(stats).bytes_read + read_bytes(reads@, widths@) <= usize::MAX,
            stats.read_calls == old(stats).read_calls + i,
            stats.bytes_read == old(stats).bytes_read + read_bytes(reads@.take(i as int), widths@),
            stats.batches == old(stats).batches,
            stats.samples == old(stats).samples,
            stats.tokens == old(stats).tokens,
        decreases reads@.len() - i,
    {
        proof {
            assert(reads@.take(i + 1).drop_last() =~= reads@.take(i as int));
            lemma_read_bytes_prefix(reads@, widths@, i + 1);
        }
        let read = reads[i];
        assert(read.shard < widths@.len());
        let bytes = read.take * widths[read.shard];
        stats.read_calls = stats.read_calls + 1;
        stats.bytes_read = stats.bytes_read + bytes;
        i = i + 1;
    }
    assert(reads@.take(reads@.len() as int) =~= reads@);
}

/// Counts one finished batch of `samples` windows of `block_size` tokens.
pub fn record_batch(stats: &mut StreamingTokenLoaderStats, samples: usize, block_size: usize)
    requires
        old(stats).batches + 1 <= usize::MAX,
        old(stats).samples + samples <= usize::MAX,
        old(stats).tokens + samples * block_size <= usize::MAX,
    ensures
        final(stats).batches == old(stats).batches + 1,
        final(stats).samples == old(stats).samples + samples,
        final(stats).tokens == old(stats).tokens + samples * block_size,
        final(stats).read_calls == old(stats).read_calls,
        final(stats).bytes_read == old(stats).bytes_read,
{
    assert(samples * block_size >= 0) by (nonlinear_arith);
    stats.batches = stats.batches + 1;
    stats.samples = stats.samples + samples;
    stats.tokens = stats.tokens + samples * block_size;
}

/// Appends one training window to a batch: its first `block_size` tokens
/// to `inputs` and the same tokens shifted by one to `targets`.
pub fn push_window(inputs: &mut Vec<i64>, targets: &mut Vec<i64>, window: &[usize], block_size: usize)
    requires
        window@.len() == block_size + 1,
        forall|k: int| 0 <= k < window@.len() ==> #[trigger] window@[k] <= i64::MAX,
    ensures
        final(inputs)@ == old(inputs)@ + Seq::new(block_size as nat, |k: int| window@[k] as i64),
        final(targets)@ == old(targets)@ + Seq::new(block_size as nat, |k: int| window@[k + 1] as i64),
{
    let mut offset: usize = 0;
    while offset < block_size
        invariant
            offset <= block_size,
            window@.len() == block_size + 1,
            forall|k: int| 0 <= k < window@.len() ==> #[trigger] window@[k] <= i64::MAX,
            inputs@ == old(inputs)@ + Seq::new(offset as nat, |k: int| window@[k] as i64),
            targets@ == old(targets)@ + Seq::new(offset as nat, |k: int| window@[k + 1] as i64),
        decreases block_size - offset,
    {
        inputs.push(window[offset] as i64);
        targets.push(window[offset + 1] as i64);
        assert(Seq::new((offset + 1) as nat, |k: int| window@[k] as i64) =~= Seq::new(
            offset as nat,
            |k: int| window@[k] as i64,
        ).push(window@[offset as int] as i64));
        assert(Seq::new((offset + 1) as nat, |k: int| window@[k + 1] as i64) =~= Seq::new(
            offset as nat,
            |k: int| window@[k + 1] as i64,
        ).push(window@[offset + 1] as i64));
        offset = offset + 1;
    }
}

/// The refusal of a token stream no longer than one block.
pub open spec fn too_few_tokens_message(prefix: Seq<char>, tokens: nat, block_size: nat) -> Seq<char> {
    prefix + "dataset needs more than block_size tokens, got"@ + " "@ + decimal(tokens) + " tokens and block_size "@
        + decimal(block_size)
}

fn too_few_tokens_error(prefix: &str, tokens: usize, block_size: usize) -> (e: TensorError)
    ensures
        e is InvalidOperation,
        e.message_spec() == too_few_tokens_message(prefix@, tokens as nat, block_size as nat),
{
    let mut message = String::from_str(prefix);
    message.append("dataset needs more than block_size tokens, got");
    push_number(&mut message, " ", tokens as u64);
    push_number(&mut message, " tokens and block_size ", block_size as u64);
    TensorError::InvalidOperation(message)
}

/// The refusal of a rank outside the world.
pub open spec fn rank_outside_world_message(rank: nat, world_size: nat) -> Seq<char> {
    "rank must be less than world_size, got"@ + " "@ + field_text("rank"@, rank) + " "@ + field_text(
        "world_size"@,
        world_size,
    )
}

fn rank_outside_world_error(rank: usize, world_size: usize) -> (e: TensorError)
    ensures
        e is InvalidOperation,
        e.message_spec() == rank_outside_world_message(rank as nat, world_size as nat),
{
    let mut message = String::from_str("rank must be less than world_size, got");
    push_field(&mut message, " ", "rank", rank as u64);
    push_field(&mut message, " ", "world_size", world_size as u64);
    TensorError::InvalidOperation(message)
}

// ---------------------------------------------------------------------------
// Batch sampling
// ---------------------------------------------------------------------------

/// One batch of next-token training windows, row-major with shape
/// `[batch_size, block_size]`: `targets` is `inputs` shifted by one token.
#[derive(Clone, Debug)]
pub struct TokenBatch {
    pub inputs: Vec<i64>,
    pub targets: Vec<i64>,
    pub batch_size: usize,
    pub block_size: usize,
}

/// Number of valid window starts drawn from (`len - block_size - 1`); zero
/// means every window starts at 0.
pub open spec fn window_span(len: nat, block_size: nat) -> nat {
    (len - block_size - 1) as nat
}

/// Window starts drawn from the generator starting at `state`: draw `i`
/// yields `output % span`; with `span == 0` no draw is made and every
/// window starts at 0.
pub open spec fn random_starts(state: u64, count: nat, span: nat) -> Seq<usize> {
    Seq::new(
        count,
        |i: int|
            if span == 0 {
                0usize
            } else {
                ((draw_output(crate::rng::advance_state_by(state, i as nat)) as usize) as nat
                    % span) as usize
            },
    )
}

/// Generator state after sampling `count` window starts.
pub open spec fn state_after_starts(state: u64, count: nat, span: nat) -> u64 {
    if span == 0 {
        state
    } else {
        crate::rng::advance_state_by(state, count)
    }
}

/// Draws `count` window starts below `span` from the generator at `state`
/// (all zero, with no draw, when `span` is zero), and the generator state
/// after the draws.
pub fn random_window_starts(state: u64, count: usize, span: usize) -> (r: (Vec<usize>, u64))
    ensures
        r.0@ == random_starts(state, count as nat, span as nat),
        r.1 == state_after_starts(state, count as nat, span as nat),
{
    let mut rng = HeirloomRng::from_state(state);
    let mut starts: Vec<usize> = Vec::new();
    let mut i: usize = 0;
    while i < count
        invariant
            i <= count,
            starts@ == random_starts(state, count as nat, span as nat).take(i as int),
            span == 0 ==> rng.state_spec() == state,
            span > 0 ==> rng.state_spec() == state_after_starts(state, i as nat, span as nat),
        decreases count - i,
    {
        let start = if span == 0 {
            0
        } else {
            (rng.next_u64() as usize) % span
        };
        starts.push(start);
        assert(starts@ =~= random_starts(state, count as nat, span as nat).take(i + 1));
        i = i + 1;
    }
    assert(starts@ =~= random_starts(state, count as nat, span as nat));
    (starts, rng.state())
}

/// `batch` holds, for each start, the window `tokens[start..start + block]`
/// as inputs and the window shifted by one as targets.
pub open spec fn batch_matches(batch: TokenBatch, tokens: Seq<usize>, starts: Seq<usize>) -> bool {
    let bs = batch.block_size as int;
    &&& batch.batch_size == starts.len()
    &&& batch.inputs@.len() == starts.len() * bs
    &&& batch.targets@.len() == starts.len() * bs
    &&& forall|b: int, o: int|
        0 <= b < starts.len() && 0 <= o < bs ==> #[trigger] batch.inputs@[b * bs + o] == tokens[starts[b]
            + o] as i64 && batch.targets@[b * bs + o] == tokens[starts[b] + o + 1] as i64
}

proof fn lemma_advance_by_add(state: u64, a: nat, b: nat)
    ensures
        crate::rng::advance_state_by(crate::rng::advance_state_by(state, a), b)
            == crate::rng::advance_state_by(state, a + b),
    decreases b,
{
    if b > 0 {
        lemma_advance_by_add(state, a, (b - 1) as nat);
    }
}

/// Each window start is one fresh draw of the generator: the first start is
/// the generator's next output reduced below `span`, and drawing `a` starts
/// and then `b` more from the state the first draws left is the same as
/// drawing `a + b` starts at once (so sample `i` of a batch uses the state
/// after `i` earlier draws, and consecutive batches continue one stream).
pub proof fn lemma_random_starts_draw_in_turn(state: u64, a: nat, b: nat, span: nat)
    ensures
        random_starts(state, a + b, span) == random_starts(state, a, span) + random_starts(
            state_after_starts(state, a, span),
            b,
            span,
        ),
        a > 0 && span > 0 ==> random_starts(state, a, span)[0] == ((draw_output(state) as usize) as nat
            % span) as usize,
        state_after_starts(state_after_starts(state, a, span), b, span) == state_after_starts(state, a + b, span),
{
    assert forall|j: nat| span > 0 && j < b implies crate::rng::advance_state_by(
        state_after_starts(state, a, span),
        j,
    ) == crate::rng::advance_state_by(state, a + j) by {
        lemma_advance_by_add(state, a, j);
    }
    lemma_advance_by_add(state, a, b);
    let whole = random_starts(state, a + b, span);
    let parts = random_starts(state, a, span) + random_starts(state_after_starts(state, a, span), b, span);
    assert forall|i: int| 0 <= i < a + b implies whole[i] == parts[i] by {
        if i >= a && span > 0 {
            let j = (i - a) as nat;
            assert(crate::rng::advance_state_by(state_after_starts(state, a, span), j)
                == crate::rng::advance_state_by(state, a + j));
        }
    }
    assert(whole =~= parts);
}

/// The batch that a dataset draws is fixed by its tokens, its block size
/// and the windows' starts, which `next_batch` draws from the generator
/// state alone: two batches drawn at the same state hold the same inputs
/// and targets, so a dataset resumed with `with_state` from a saved
/// `state()` reproduces the batches of the one it was saved from.
pub proof fn lemma_batches_determined(first: TokenBatch, second: TokenBatch, tokens: Seq<usize>, starts: Seq<usize>)
    requires
        first.block_size == second.block_size,
        first.block_size > 0,
        batch_matches(first, tokens, starts),
        batch_matches(second, tokens, starts),
    ensures
        first.batch_size == second.batch_size,
        first.inputs@ == second.inputs@,
        first.targets@ == second.targets@,
{
    let bs = first.block_size as int;
    assert forall|k: int| 0 <= k < first.inputs@.len() implies first.inputs@[k] == second.inputs@[k]
        && first.targets@[k] == second.targets@[k] by {
        let b = k / bs;
        let o = k % bs;
        assert(k == b * bs + o && 0 <= o < bs) by (nonlinear_arith)
            requires
                bs > 0,
                b == k / bs,
                o == k % bs,
        ;
        assert(0 <= b < starts.len()) by (nonlinear_arith)
            requires
                k == b * bs + o,
                0 <= o < bs,
                0 <= k < starts.len() * bs,
        ;
        assert(first.inputs@[b * bs + o] == tokens[starts[b] + o] as i64);
        assert(second.inputs@[b * bs + o] == tokens[starts[b] + o] as i64);
    }
    assert(first.inputs@ =~= second.inputs@);
    assert(first.targets@ =~= second.targets@);
}

/// Every window `start..start + block_size + 1` lies inside the tokens.
pub open spec fn starts_in_range(starts: Seq<usize>, len: nat, block_size: nat) -> bool {
    forall|b: int| 0 <= b < starts.len() ==> #[trigger] starts[b] + block_size < len
}

fn gather_windows(tokens: &[usize], starts: &Vec<usize>, block_size: usize) -> (batch: TokenBatch)
    requires
        starts_in_range(starts@, tokens@.len(), block_size as nat),
        starts@.len() * block_size <= usize::MAX,
    ensures
        batch.block_size == block_size,
        batch_matches(batch, tokens@, starts@),
{
    let mut inputs: Vec<i64> = Vec::new();
    let mut targets: Vec<i64> = Vec::new();
    let mut b: usize = 0;
    while b < starts.len()
        invariant
            b <= starts.len(),
            starts_in_range(starts@, tokens@.len(), block_size as nat),
            inputs.len() == b * block_size,
            targets.len() == b * block_size,
            forall|bb: int, o: int|
                0 <= bb < b && 0 <= o < block_size ==> #[trigger] inputs@[bb * block_size + o]
                    == tokens@[starts@[bb] + o] as i64 && targets@[bb * block_size + o]
                    == tokens@[starts@[bb] + o + 1] as i64,
        decreases starts.len() - b,
    {
        let start = starts[b];
        assert(start + block_size < tokens.len());
        let mut o: usize = 0;
        while o < block_size
            invariant
                o <= block_size,
                b < starts.len(),
                start == starts@[b as int],
                start + block_size < tokens.len(),
                inputs.len() == b * block_size + o,
                targets.len() == b * block_size + o,
                forall|bb: int, oo: int|
                    0 <= bb < b && 0 <= oo < block_size ==> #[trigger] inputs@[bb * block_size + oo]
                        == tokens@[starts@[bb] + oo] as i64 && targets@[bb * block_size + oo]
                        == tokens@[starts@[bb] + oo + 1] as i64,
                forall|oo: int|
                    0 <= oo < o ==> #[trigger] inputs@[b * block_size + oo] == tokens@[start + oo] as i64
                        && targets@[b * block_size + oo] == tokens@[start + oo + 1] as i64,
            decreases block_size - o,
        {
            let ghost prev_inputs = inputs@;
            let ghost prev_targets = targets@;
            inputs.push(tokens[start + o] as i64);
            targets.push(tokens[start + o + 1] as i64);
            proof {
                assert forall|bb: int, oo: int|
                    0 <= bb < b && 0 <= oo < block_size implies #[trigger] inputs@[bb * block_size
                    + oo] == tokens@[starts@[bb] + oo] as i64 && targets@[bb * block_size + oo]
                    == tokens@[starts@[bb] + oo + 1] as i64 by {
                    lemma_row_offset_bound(bb, b as int, block_size as int, oo);
                    assert(inputs@[bb * block_size + oo] == prev_inputs[bb * block_size + oo]);
                    assert(targets@[bb * block_size + oo] == prev_targets[bb * block_size + oo]);
                }
                assert forall|oo: int| 0 <= oo < o + 1 implies #[trigger] inputs@[b * block_size + oo]
                    == tokens@[start + oo] as i64 && targets@[b * block_size + oo] == tokens@[start + oo
                    + 1] as i64 by {
                    if oo < o {
                        assert(inputs@[b * block_size + oo] == prev_inputs[b * block_size + oo]);
                        assert(targets@[b * block_size + oo] == prev_targets[b * block_size + oo]);
                    } else {
                        assert(inputs@[b * block_size + oo] == tokens@[start + o] as i64);
                        assert(targets@[b * block_size + oo] == tokens@[start + o + 1] as i64);
                    }
                }
            }
            o = o + 1;
        }
        proof {
            assert((b + 1) * block_size == b * block_size + block_size) by (nonlinear_arith);
            assert forall|bb: int, oo: int|
                0 <= bb < b + 1 && 0 <= oo < block_size implies #[trigger] inputs@[bb * block_size
                + oo] == tokens@[starts@[bb] + oo] as i64 && targets@[bb * block_size + oo]
                == tokens@[starts@[bb] + oo + 1] as i64 by {
                if bb == b {
                } else {
                    assert(bb * block_size + oo < b * block_size) by (nonlinear_arith)
                        requires
                            bb < b,
                            oo < block_size,
                    ;
                }
            }
        }
        b = b + 1;
    }
    TokenBatch { inputs, targets, batch_size: starts.len(), block_size }
}

proof fn lemma_row_offset_bound(row: int, rows: int, width: int, col: int)
    requires
        0 <= row < rows,
        0 <= col < width,
    ensures
        0 <= row * width + col < rows * width,
{
    assert(0 <= row * width + col < rows * width) by (nonlinear_arith)
        requires
            0 <= row < rows,
            0 <= col < width,
    ;
}

/// In-memory token stream that samples random next-token windows.
pub struct TokenDataset {
    tokens: Vec<usize>,
    block_size: usize,
    rng: HeirloomRng,
    batches_seen: usize,
}

impl TokenDataset {
    #[verifier::type_invariant]
    spec fn well_formed(self) -> bool {
        self.block_size > 0 && self.tokens@.len() > self.block_size
    }

    pub closed spec fn tokens_spec(&self) -> Seq<usize> {
        self.tokens@
    }

    pub closed spec fn block_size_spec(&self) -> nat {
        self.block_size as nat
    }

    pub closed spec fn state_spec(&self) -> TokenDatasetState {
        TokenDatasetState { rng_state: self.rng.state_spec(), batches_seen: self.batches_seen }
    }

    /// A dataset over `tokens`, seeded with `seed`. Refuses a zero block size
    /// and token streams no longer than one block.
    pub fn new(tokens: Vec<usize>, block_size: usize, seed: u64) -> (res: Result<Self>)
        ensures
            res is Ok <==> block_size > 0 && tokens@.len() > block_size,
            res matches Ok(ds) ==> ds.tokens_spec() == tokens@ && ds.block_size_spec() == block_size
                && ds.state_spec() == (TokenDatasetState { rng_state: seed, batches_seen: 0 }),
            res matches Err(e) ==> e is InvalidOperation,
            res matches Err(e) ==> e.message_spec() == if block_size == 0 {
                "block_size must be greater than zero"@
            } else {
                too_few_tokens_message(""@, tokens@.len(), block_size as nat)
            },
    {
        if block_size == 0 {
            return Err(invalid_operation("block_size must be greater than zero"));
        }
        if tokens.len() <= block_size {
            return Err(too_few_tokens_error("", tokens.len(), block_size));
        }
        Ok(TokenDataset { tokens, block_size, rng: HeirloomRng::new(seed), batches_seen: 0 })
    }

    /// A dataset resumed at generator state `rng_state` with no batches counted.
    pub fn with_rng_state(tokens: Vec<usize>, block_size: usize, rng_state: u64) -> (res: Result<
        Self,
    >)
        ensures
            res is Ok <==> block_size > 0 && tokens@.len() > block_size,
            res matches Ok(ds) ==> ds.tokens_spec() == tokens@ && ds.block_size_spec() == block_size
                && ds.state_spec() == (TokenDatasetState { rng_state, batches_seen: 0 }),
            res matches Err(e) ==> e is InvalidOperation,
    {
        Self::with_state(tokens, block_size, TokenDatasetState { rng_state, batches_seen: 0 })
    }

    /// A dataset resumed at a saved state.
    pub fn with_state(tokens: Vec<usize>, block_size: usize, state: TokenDatasetState) -> (res:
        Result<Self>)
        ensures
            res is Ok <==> block_size > 0 && tokens@.len() > block_size,
            res matches Ok(ds) ==> ds.tokens_spec() == tokens@ && ds.block_size_spec() == block_size
                && ds.state_spec() == state,
            res matches Err(e) ==> e is InvalidOperation,
    {
        match Self::new(tokens, block_size, 0) {
            Ok(dataset) => {
                let TokenDataset { tokens, block_size, rng: _, batches_seen: _ } = dataset;
                Ok(
                    TokenDataset {
                        tokens,
                        block_size,
                        rng: HeirloomRng::from_state(state.rng_state),
                        batches_seen: state.batches_seen,
                    },
                )
            },
            Err(e) => Err(e),
        }
    }

    pub fn len(&self) -> (n: usize)
        ensures
            n == self.tokens_spec().len(),
    {
        self.tokens.len()
    }

    pub fn is_empty(&self) -> (b: bool)
        ensures
            b == (self.tokens_spec().len() == 0),
    {
        self.tokens.len() == 0
    }

    pub fn block_size(&self) -> (n: usize)
        ensures
            n == self.block_size_spec(),
    {
        self.block_size
    }

    pub fn rng_state(&self) -> (s: u64)
        ensures
            s == self.state_spec().rng_state,
    {
        self.rng.state()
    }

    /// The position to save so that `with_state` resumes the same stream.
    pub fn state(&self) -> (s: TokenDatasetState)
        ensures
            s == self.state_spec(),
    {
        TokenDatasetState { rng_state: self.rng.state(), batches_seen: self.batches_seen }
    }

    /// Samples `batch_size` windows at random starts and advances the
    /// generator and the batch counter. Refuses a zero batch size.
    pub fn next_batch(&mut self, batch_size: usize) -> (res: Result<TokenBatch>)
        requires
            batch_size * old(self).block_size_spec() <= usize::MAX,
            old(self).state_spec().batches_seen < usize::MAX,
        ensures
            final(self).tokens_spec() == old(self).tokens_spec(),
            final(self).block_size_spec() == old(self).block_size_spec(),
            res is Ok <==> batch_size > 0,
            res matches Err(e) ==> e is InvalidOperation && *final(self) == *old(self),
            res matches Ok(batch) ==> {
                let span = window_span(old(self).tokens_spec().len(), old(self).block_size_spec());
                let starts = random_starts(old(self).state_spec().rng_state, batch_size as nat, span);
                &&& batch.block_size == old(self).block_size_spec()
                &&& batch_matches(batch, old(self).tokens_spec(), starts)
                &&& final(self).state_spec() == (TokenDatasetState {
                    rng_state: state_after_starts(
                        old(self).state_spec().rng_state,
                        batch_size as nat,
                        span,
                    ),
                    batches_seen: (old(self).state_spec().batches_seen + 1) as usize,
                })
            },
    {
        proof {
            use_type_invariant(&*self);
        }
        if batch_size == 0 {
            return Err(invalid_operation("batch_size must be greater than zero"));
        }
        let span = self.tokens.len() - self.block_size - 1;
        let (starts, next_state) = random_window_starts(self.rng.state(), batch_size, span);
        let rng = HeirloomRng::from_state(next_state);
        assert(starts_in_range(starts@, self.tokens@.len(), self.block_size as nat));
        let batch = gather_windows(&self.tokens, &starts, self.block_size);
        self.rng = rng;
        self.batches_seen = self.batches_seen + 1;
        Ok(batch)
    }

    /// Deterministic windows for distributed training: sample `s` of `rank`
    /// at `global_step` starts at `mix_u64(seed ^ n) % span`, where `n`
    /// numbers the samples of all ranks and steps (wrapping arithmetic).
    pub fn deterministic_sharded_batch(
        tokens: &[usize],
        block_size: usize,
        batch_size: usize,
        seed: u64,
        global_step: usize,
        rank: usize,
        world_size: usize,
    ) -> (res: Result<TokenBatch>)
        requires
            batch_size * block_size <= usize::MAX,
        ensures
            res is Ok <==> block_size > 0 && batch_size > 0 && world_size > 0 && rank < world_size
                && tokens@.len() > block_size,
            res matches Err(e) ==> e is InvalidOperation,
            block_size > 0 && batch_size > 0 && world_size > 0 && rank >= world_size ==> (res matches Err(
                e,
            ) && e.message_spec() == rank_outside_world_message(rank as nat, world_size as nat)),
            block_size > 0 && batch_size > 0 && world_size > 0 && rank < world_size && tokens@.len()
                <= block_size ==> (res matches Err(e) && e.message_spec() == too_few_tokens_message(
                ""@,
                tokens@.len(),
                block_size as nat,
            )),
            res matches Ok(batch) ==> batch.block_size == block_size && batch_matches(
                batch,
                tokens@,
                sharded_starts(
                    seed,
                    global_step as u64,
                    rank as u64,
                    world_size as u64,
                    batch_size as nat,
                    window_span(tokens@.len(), block_size as nat),
                ),
            ),
    {
        if block_size == 0 {
            return Err(invalid_operation("block_size must be greater than zero"));
        }
        if batch_size == 0 {
            return Err(invalid_operation("batch_size must be greater than zero"));
        }
        if world_size == 0 {
            return Err(invalid_operation("world_size must be greater than zero"));
        }
        if rank >= world_size {
            return Err(rank_outside_world_error(rank, world_size));
        }
        if tokens.len() <= block_size {
            return Err(too_few_tokens_error("", tokens.len(), block_size));
        }
        let span = tokens.len() - block_size - 1;
        let starts = sharded_window_starts(
            seed,
            global_step as u64,
            rank as u64,
            world_size as u64,
            batch_size,
            span,
        );
        assert(starts_in_range(starts@, tokens@.len(), block_size as nat));
        Ok(gather_windows(tokens, &starts, block_size))
    }
}

/// Global number of sample `sample` of `rank` at `step`:
/// `step * world * batch + rank * batch + sample`, wrapping modulo 2^64.
pub open spec fn logical_sample(step: u64, rank: u64, world: u64, batch: u64, sample: u64) -> u64 {
    u64_specs::wrapping_add(
        u64_specs::wrapping_add(
            u64_specs::wrapping_mul(u64_specs::wrapping_mul(step, world), batch),
            u64_specs::wrapping_mul(rank, batch),
        ),
        sample,
    )
}

/// Window starts of the deterministic sharded sampler.
pub open spec fn sharded_starts(
    seed: u64,
    step: u64,
    rank: u64,
    world: u64,
    count: nat,
    span: nat,
) -> Seq<usize> {
    Seq::new(
        count,
        |i: int|
            if span == 0 {
                0usize
            } else {
                ((draw_output(seed ^ logical_sample(step, rank, world, count as u64, i as u64))
                    as usize) as nat % span) as usize
            },
    )
}

/// All ranks draw from one stream of samples: sample `s` of `rank` at
/// `step` is sample `(step * world + rank) * batch + s` of the stream that a
/// single process (rank 0 of a world of one, step 0) draws in one batch of
/// `n` samples. Two ranks, or two steps, thus never share a sample
/// position. Stated while the positions fit in `u64`.
pub proof fn lemma_sharded_starts_slice_one_stream(
    seed: u64,
    step: u64,
    rank: u64,
    world: u64,
    batch: nat,
    span: nat,
    n: nat,
    s: int,
)
    requires
        rank < world,
        0 <= s < batch,
        (step * world + rank) * batch + s < n,
        n <= u64::MAX,
        batch <= u64::MAX,
    ensures
        sharded_starts(seed, step, rank, world, batch, span)[s] == sharded_starts(seed, 0, 0, 1, n, span)[(
        step * world + rank) * batch + s],
{
    let g = (step * world + rank) * batch + s;
    let w = step * world;
    let p = w * batch;
    let r = rank * batch;
    assert(g == p + r + s && p <= g && r <= g && w <= p) by (nonlinear_arith)
        requires
            g == (step * world + rank) * batch + s,
            w == step * world,
            p == w * batch,
            r == rank * batch,
            0 <= s < batch,
            step >= 0,
            world >= 0,
            rank >= 0,
    ;
    let m = 0x1_0000_0000_0000_0000nat;
    vstd::arithmetic::div_mod::lemma_small_mod(w as nat, m);
    vstd::arithmetic::div_mod::lemma_small_mod(p as nat, m);
    vstd::arithmetic::div_mod::lemma_small_mod(r as nat, m);
    vstd::arithmetic::div_mod::lemma_small_mod(0nat, m);
    assert(u64_specs::wrapping_mul(step, world) == w);
    assert(u64_specs::wrapping_mul(w as u64, batch as u64) == p);
    assert(u64_specs::wrapping_mul(rank, batch as u64) == r);
    assert(logical_sample(step, rank, world, batch as u64, s as u64) == g);
    assert(u64_specs::wrapping_mul(0u64, 1u64) == 0);
    assert(u64_specs::wrapping_mul(0u64, n as u64) == 0);
    assert(logical_sample(0, 0, 1, n as u64, g as u64) == g);
}

/// Window starts of the deterministic sharded sampler, `batch_size` of them.
pub fn sharded_window_starts(
    seed: u64,
    global_step: u64,
    rank: u64,
    world_size: u64,
    batch_size: usize,
    span: usize,
) -> (starts: Vec<usize>)
    ensures
        starts@ == sharded_starts(seed, global_step, rank, world_size, batch_size as nat, span as nat),
{
    let mut starts: Vec<usize> = Vec::new();
    let mut sample: usize = 0;
    while sample < batch_size
        invariant
            sample <= batch_size,
            starts@ == sharded_starts(
                seed,
                global_step,
                rank,
                world_size,
                batch_size as nat,
                span as nat,
            ).take(sample as int),
        decreases batch_size - sample,
    {
        let logical = global_step.wrapping_mul(world_size).wrapping_mul(batch_size as u64).wrapping_add(
            rank.wrapping_mul(batch_size as u64),
        ).wrapping_add(sample as u64);
        let start = if span == 0 {
            0
        } else {
            (crate::rng::mix_u64(seed ^ logical) as usize) % span
        };
        starts.push(start);
        assert(starts@ =~= sharded_starts(
            seed,
            global_step,
            rank,
            world_size,
            batch_size as nat,
            span as nat,
        ).take(sample + 1));
        sample = sample + 1;
    }
    assert(starts@ =~= sharded_starts(
        seed,
        global_step,
        rank,
        world_size,
        batch_size as nat,
        span as nat,
    ));
    starts
}

// ---------------------------------------------------------------------------
// Prepared dataset manifests
// ---------------------------------------------------------------------------

/// One source file that went into a prepared dataset.
#[derive(Clone, Debug, PartialEq, Eq)]
pub struct PreparedDataSource {
    pub source_id: String,
    pub path: String,
    pub bytes: usize,
    pub hash: String,
    pub tokens: usize,
}

/// One binary token shard listed by a prepared dataset manifest.
#[derive(Clone, Debug, PartialEq, Eq)]
pub struct PreparedDataShard {
    pub split: String,
    pub metadata_path: String,
    pub tokens: usize,
    pub token_hash: String,
}

/// The fields of a prepared dataset manifest that decide whether it is
/// valid. `valid_fraction_in_range` records whether the manifest's
/// validation fraction lies in `[0, 1)`.
#[derive(Clone, Debug)]
pub struct PreparedManifestFacts {
    pub format: String,
    pub version: u32,
    pub storage: String,
    pub valid_fraction_in_range: bool,
    pub train_tokens: usize,
    pub valid_tokens: usize,
    pub train_tokens_path: String,
    pub valid_tokens_path: String,
    pub train_hash: String,
    pub valid_hash: String,
    pub sources: Vec<PreparedDataSource>,
    pub train_shards: Vec<PreparedDataShard>,
    pub valid_shards: Vec<PreparedDataShard>,
}

/// Tokens listed over a run of shards.
pub open spec fn shard_tokens_total(shards: Seq<PreparedDataShard>) -> nat
    decreases shards.len(),
{
    if shards.len() == 0 {
        0
    } else {
        shard_tokens_total(shards.drop_last()) + shards.last().tokens as nat
    }
}

/// Version 1 keeps each split in one JSON token file with its hash.
pub open spec fn manifest_v1_valid(m: PreparedManifestFacts) -> bool {
    &&& m.storage@ == DATASET_STORAGE_JSON@
    &&& m.train_tokens_path@.len() > 0 && m.valid_tokens_path@.len() > 0
    &&& m.train_hash@.len() > 0 && m.valid_hash@.len() > 0
}

/// Version 2 keeps each split in binary shards whose token counts add up
/// to the split totals, and names at least one source.
pub open spec fn manifest_v2_valid(m: PreparedManifestFacts) -> bool {
    &&& m.storage@ == DATASET_STORAGE_BINARY_SHARDS@
    &&& m.sources@.len() > 0
    &&& m.train_shards@.len() > 0 && m.valid_shards@.len() > 0
    &&& shard_tokens_total(m.train_shards@) == m.train_tokens
    &&& shard_tokens_total(m.valid_shards@) == m.valid_tokens
}

/// A prepared dataset manifest is valid: known format and version, a
/// validation fraction in `[0, 1)`, non-empty splits, and the
/// version-specific storage rules.
pub open spec fn manifest_valid(m: PreparedManifestFacts) -> bool {
    &&& m.format@ == DATASET_MANIFEST_FORMAT@
    &&& (m.version == DATASET_MANIFEST_VERSION || m.version == DATASET_MANIFEST_VERSION_V2)
    &&& m.valid_fraction_in_range
    &&& m.train_tokens > 0 && m.valid_tokens > 0
    &&& (m.version == DATASET_MANIFEST_VERSION ==> manifest_v1_valid(m))
    &&& (m.version == DATASET_MANIFEST_VERSION_V2 ==> manifest_v2_valid(m))
}

fn shard_tokens_sum(shards: &Vec<PreparedDataShard>) -> (total: usize)
    requires
        shard_tokens_total(shards@) <= usize::MAX,
    ensures
        total == shard_tokens_total(shards@),
{
    let mut total: usize = 0;
    let mut i: usize = 0;
    while i < shards.len()
        invariant
            i <= shards@.len(),
            total == shard_tokens_total(shards@.take(i as int)),
            shard_tokens_total(shards@) <= usize::MAX,
        decreases shards@.len() - i,
    {
        proof {
            assert(shards@.take(i + 1).drop_last() =~= shards@.take(i as int));
            lemma_shard_tokens_prefix(shards@, i + 1);
        }
        total = total + shards[i].tokens;
        i = i + 1;
    }
    assert(shards@.take(shards@.len() as int) =~= shards@);
    total
}

proof fn lemma_shard_tokens_prefix(shards: Seq<PreparedDataShard>, k: int)
    requires
        0 <= k <= shards.len(),
    ensures
        shard_tokens_total(shards.take(k)) <= shard_tokens_total(shards),
    decreases shards.len() - k,
{
    if k < shards.len() {
        lemma_shard_tokens_prefix(shards, k + 1);
        assert(shards.take(k + 1).drop_last() =~= shards.take(k));
    } else {
        assert(shards.take(k) =~= shards);
    }
}

/// The refusal of a v2 manifest whose shards do not add up to its split
/// totals.
pub open spec fn shard_totals_message(m: PreparedManifestFacts) -> Seq<char> {
    "dataset manifest v2 shard token counts do not match split totals:"@ + " "@ + field_text(
        "train_shards"@,
        shard_tokens_total(m.train_shards@),
    ) + " "@ + field_text("train_total"@, m.train_tokens as nat) + " "@ + field_text(
        "valid_shards"@,
        shard_tokens_total(m.valid_shards@),
    ) + " "@ + field_text("valid_total"@, m.valid_tokens as nat)
}

/// The refusal of a manifest with an empty split.
pub open spec fn empty_split_message(m: PreparedManifestFacts) -> Seq<char> {
    "prepared dataset must have non-empty train and valid splits, got"@ + " "@ + field_text(
        "train"@,
        m.train_tokens as nat,
    ) + " "@ + field_text("valid"@, m.valid_tokens as nat)
}

/// The refusal of a manifest whose storage is not the one its version uses.
pub open spec fn storage_message(prefix: Seq<char>, expected: Seq<char>, got: Seq<char>) -> Seq<char> {
    prefix + debug_quoted(expected) + ", got "@ + debug_quoted(got)
}

fn storage_error(prefix: &str, expected: &str, got: &str) -> (e: TensorError)
    ensures
        e is InvalidOperation,
        e.message_spec() == storage_message(prefix@, expected@, got@),
{
    let mut message = String::from_str(prefix);
    push_debug_quoted(&mut message, expected);
    message.append(", got ");
    push_debug_quoted(&mut message, got);
    TensorError::InvalidOperation(message)
}

impl PreparedManifestFacts {
    /// Version 2 manifests with binary-shard storage are streamed shard by shard.
    pub fn is_binary_sharded(&self) -> (b: bool)
        ensures
            b == (self.version == DATASET_MANIFEST_VERSION_V2 && self.storage@
                == DATASET_STORAGE_BINARY_SHARDS@),
    {
        self.version == DATASET_MANIFEST_VERSION_V2 && str_eq(self.storage.as_str(), DATASET_STORAGE_BINARY_SHARDS)
    }

    /// Accepts exactly the valid manifests; every refusal is an invalid
    /// operation.
    pub fn validate(&self) -> (res: Result<()>)
        requires
            shard_tokens_total(self.train_shards@) <= usize::MAX,
            shard_tokens_total(self.valid_shards@) <= usize::MAX,
        ensures
            res is Ok <==> manifest_valid(*self),
            res matches Err(e) ==> e is InvalidOperation,
            self.format@ != DATASET_MANIFEST_FORMAT@ ==> (res matches Err(e) && e.message_spec()
                == "unsupported dataset manifest format "@ + self.format@ + ", expected "@
                + DATASET_MANIFEST_FORMAT@),
            self.format@ == DATASET_MANIFEST_FORMAT@ && self.version != DATASET_MANIFEST_VERSION
                && self.version != DATASET_MANIFEST_VERSION_V2 ==> (res matches Err(e) && e.message_spec()
                == "unsupported dataset manifest version"@ + " "@ + decimal(self.version as nat)
                + ", expected 1 or 2"@),
            self.format@ == DATASET_MANIFEST_FORMAT@ && (self.version == DATASET_MANIFEST_VERSION
                || self.version == DATASET_MANIFEST_VERSION_V2) && self.valid_fraction_in_range && (
            self.train_tokens == 0 || self.valid_tokens == 0) ==> (res matches Err(e) && e.message_spec()
                == empty_split_message(*self)),
            self.format@ == DATASET_MANIFEST_FORMAT@ && self.version == DATASET_MANIFEST_VERSION_V2
                && self.valid_fraction_in_range && self.train_tokens > 0 && self.valid_tokens > 0
                && self.storage@ == DATASET_STORAGE_BINARY_SHARDS@ && self.sources@.len() > 0
                && self.train_shards@.len() > 0 && self.valid_shards@.len() > 0 && res is Err ==> (
            res matches Err(e) && e.message_spec() == shard_totals_message(*self)),
            self.format@ == DATASET_MANIFEST_FORMAT@ && self.version == DATASET_MANIFEST_VERSION
                && self.valid_fraction_in_range && self.train_tokens > 0 && self.valid_tokens > 0
                && self.storage@ != DATASET_STORAGE_JSON@ ==> (res matches Err(e) && e.message_spec()
                == storage_message("dataset manifest v1 storage must be "@, DATASET_STORAGE_JSON@, self.storage@)),
            self.format@ == DATASET_MANIFEST_FORMAT@ && self.version == DATASET_MANIFEST_VERSION_V2
                && self.valid_fraction_in_range && self.train_tokens > 0 && self.valid_tokens > 0
                && self.storage@ != DATASET_STORAGE_BINARY_SHARDS@ ==> (res matches Err(e) && e.message_spec()
                == storage_message(
                "dataset manifest v2 storage must be "@,
                DATASET_STORAGE_BINARY_SHARDS@,
                self.storage@,
            )),
    {
        if !str_eq(self.format.as_str(), DATASET_MANIFEST_FORMAT) {
            let mut message = String::from_str("unsupported dataset manifest format ");
            message.append(self.format.as_str());
            message.append(", expected ");
            message.append(DATASET_MANIFEST_FORMAT);
            return Err(TensorError::InvalidOperation(message));
        }
        if self.version != DATASET_MANIFEST_VERSION && self.version != DATASET_MANIFEST_VERSION_V2 {
            let mut message = String::from_str("unsupported dataset manifest version");
            push_number(&mut message, " ", self.version as u64);
            message.append(", expected 1 or 2");
            return Err(TensorError::InvalidOperation(message));
        }
        if !self.valid_fraction_in_range {
            return Err(invalid_operation("valid_fraction must be in [0, 1)"));
        }
        if self.train_tokens == 0 || self.valid_tokens == 0 {
            let mut message = String::from_str("prepared dataset must have non-empty train and valid splits, got");
            push_field(&mut message, " ", "train", self.train_tokens as u64);
            push_field(&mut message, " ", "valid", self.valid_tokens as u64);
            return Err(TensorError::InvalidOperation(message));
        }
        if self.version == DATASET_MANIFEST_VERSION {
            self.validate_v1()
        } else {
            self.validate_v2()
        }
    }

    fn validate_v1(&self) -> (res: Result<()>)
        ensures
            res is Ok <==> manifest_v1_valid(*self),
            res matches Err(e) ==> e is InvalidOperation,
            self.storage@ != DATASET_STORAGE_JSON@ ==> (res matches Err(e) && e.message_spec()
                == storage_message("dataset manifest v1 storage must be "@, DATASET_STORAGE_JSON@, self.storage@)),
    {
        if !str_eq(self.storage.as_str(), DATASET_STORAGE_JSON) {
            return Err(storage_error("dataset manifest v1 storage must be ", DATASET_STORAGE_JSON, self.storage.as_str()));
        }
        if self.train_tokens_path.as_str().is_empty() || self.valid_tokens_path.as_str().is_empty() {
            return Err(invalid_operation("dataset manifest v1 requires train_tokens_path and valid_tokens_path"));
        }
        if self.train_hash.as_str().is_empty() || self.valid_hash.as_str().is_empty() {
            return Err(invalid_operation("dataset manifest v1 requires train_hash and valid_hash"));
        }
        Ok(())
    }

    fn validate_v2(&self) -> (res: Result<()>)
        requires
            shard_tokens_total(self.train_shards@) <= usize::MAX,
            shard_tokens_total(self.valid_shards@) <= usize::MAX,
        ensures
            res is Ok <==> manifest_v2_valid(*self),
            res matches Err(e) ==> e is InvalidOperation,
            self.storage@ != DATASET_STORAGE_BINARY_SHARDS@ ==> (res matches Err(e) && e.message_spec()
                == storage_message(
                "dataset manifest v2 storage must be "@,
                DATASET_STORAGE_BINARY_SHARDS@,
                self.storage@,
            )),
            self.storage@ == DATASET_STORAGE_BINARY_SHARDS@ && self.sources@.len() > 0
                && self.train_shards@.len() > 0 && self.valid_shards@.len() > 0 && res is Err ==> (
            res matches Err(e) && e.message_spec() == shard_totals_message(*self)),
    {
        if !str_eq(self.storage.as_str(), DATASET_STORAGE_BINARY_SHARDS) {
            return Err(
                storage_error("dataset manifest v2 storage must be ", DATASET_STORAGE_BINARY_SHARDS, self.storage.as_str()),
            );
        }
        if self.sources.len() == 0 {
            return Err(invalid_operation("dataset manifest v2 requires at least one source"));
        }
        if self.train_shards.len() == 0 || self.valid_shards.len() == 0 {
            return Err(invalid_operation("dataset manifest v2 requires non-empty train_shards and valid_shards"));
        }
        let train = shard_tokens_sum(&self.train_shards);
        let valid = shard_tokens_sum(&self.valid_shards);
        if train != self.train_tokens || valid != self.valid_tokens {
            let mut message = String::from_str("dataset manifest v2 shard token counts do not match split totals:");
            push_field(&mut message, " ", "train_shards", train as u64);
            push_field(&mut message, " ", "train_total", self.train_tokens as u64);
            push_field(&mut message, " ", "valid_shards", valid as u64);
            push_field(&mut message, " ", "valid_total", self.valid_tokens as u64);
            return Err(TensorError::InvalidOperation(message));
        }
        Ok(())
    }
}

// ---------------------------------------------------------------------------
// Streaming over binary shards
// ---------------------------------------------------------------------------

/// Where one shard's tokens sit in the concatenated split.
#[derive(Clone, Copy, Debug, PartialEq, Eq, Structural)]
pub struct ShardSpan {
    pub start_token: usize,
    pub token_count: usize,
}

/// A contiguous read inside one shard.
#[derive(Clone, Copy, Debug, PartialEq, Eq, Structural)]
pub struct ShardRead {
    pub shard: usize,
    pub offset: usize,
    pub take: usize,
}

/// Spans lie back to back from token 0, ending at `total`.
pub open spec fn spans_contiguous(spans: Seq<ShardSpan>, total: nat) -> bool {
    &&& spans.len() == 0 ==> total == 0
    &&& spans.len() > 0 ==> spans[0].start_token == 0 && spans.last().start_token + spans.last().token_count
        == total
    &&& forall|i: int|
        0 <= i < spans.len() - 1 ==> #[trigger] spans[i + 1].start_token == spans[i].start_token
            + spans[i].token_count
}

pub open spec fn span_holds(span: ShardSpan, token: int) -> bool {
    span.start_token <= token < span.start_token + span.token_count
}

/// `index` is the first span holding `token`.
pub open spec fn first_span_holding(spans: Seq<ShardSpan>, token: int, index: int) -> bool {
    &&& 0 <= index < spans.len()
    &&& span_holds(spans[index], token)
    &&& forall|j: int| 0 <= j < index ==> !span_holds(#[trigger] spans[j], token)
}

/// Token position of a streaming split made of shards.
pub struct StreamingTokenIndex {
    spans: Vec<ShardSpan>,
    total_tokens: usize,
    block_size: usize,
}

impl StreamingTokenIndex {
    pub closed spec fn spans_spec(&self) -> Seq<ShardSpan> {
        self.spans@
    }

    pub closed spec fn total_spec(&self) -> nat {
        self.total_tokens as nat
    }

    pub closed spec fn block_size_spec(&self) -> nat {
        self.block_size as nat
    }

    #[verifier::type_invariant]
    closed spec fn wf(&self) -> bool {
        &&& spans_contiguous(self.spans@, self.total_tokens as nat)
        &&& self.block_size > 0
        &&& self.total_tokens > self.block_size
    }

    /// Lays shards of the given token counts back to back. Refused, as an
    /// invalid operation, for a zero `block_size`, a total that overflows
    /// `usize`, or a total not above `block_size`.
    pub fn new(token_counts: &[usize], block_size: usize) -> (res: Result<Self>)
        ensures
            res is Ok <==> block_size > 0 && prefix_sums_fit(token_counts@) && counts_total(token_counts@)
                > block_size,
            res matches Err(e) ==> e is InvalidOperation,
            block_size > 0 && prefix_sums_fit(token_counts@) && counts_total(token_counts@) <= block_size ==> (
            res matches Err(e) && e.message_spec() == too_few_tokens_message(
                "streaming "@,
                counts_total(token_counts@),
                block_size as nat,
            )),
            res matches Ok(index) ==> index.total_spec() == counts_total(token_counts@)
                && index.block_size_spec() == block_size && index.spans_spec().len() == token_counts@.len()
                && spans_contiguous(index.spans_spec(), index.total_spec()) && forall|i: int|
                0 <= i < token_counts@.len() ==> (#[trigger] index.spans_spec()[i]).token_count
                    == token_counts@[i],
    {
        if block_size == 0 {
            return Err(invalid_operation("block_size must be greater than zero"));
        }
        let mut spans: Vec<ShardSpan> = Vec::new();
        let mut total: usize = 0;
        let mut i: usize = 0;
        while i < token_counts.len()
            invariant
                i <= token_counts@.len(),
                spans@.len() == i,
                total == counts_total(token_counts@.take(i as int)),
                prefix_sums_fit(token_counts@.take(i as int)),
                spans_contiguous(spans@, total as nat),
                forall|k: int| 0 <= k < i ==> (#[trigger] spans@[k]).token_count == token_counts@[k],
            decreases token_counts@.len() - i,
        {
            let count = token_counts[i];
            proof {
                assert(token_counts@.take(i + 1).drop_last() =~= token_counts@.take(i as int));
            }
            let next = match total.checked_add(count) {
                Some(n) => n,
                None => {
                    proof {
                        lemma_prefix_sums_fit_prefix(token_counts@, i + 1);
                    }
                    return Err(invalid_operation("streaming token count overflow"));
                },
            };
            let ghost before = spans@;
            spans.push(ShardSpan { start_token: total, token_count: count });
            proof {
                assert forall|k: int| 0 <= k <= i + 1 implies #[trigger] counts_total(
                    token_counts@.take(i + 1).take(k),
                ) <= usize::MAX by {
                    if k <= i {
                        assert(token_counts@.take(i + 1).take(k) =~= token_counts@.take(i as int).take(k));
                    } else {
                        assert(token_counts@.take(i + 1).take(k) =~= token_counts@.take(i + 1));
                    }
                }
                assert forall|k: int| 0 <= k < spans@.len() - 1 implies #[trigger] spans@[k + 1].start_token
                    == spans@[k].start_token + spans@[k].token_count by {
                    if k + 1 < before.len() {
                        assert(spans@[k] == before[k]);
                        assert(spans@[k + 1] == before[k + 1]);
                    } else {
                        assert(spans@[k] == before.last());
                    }
                }
            }
            total = next;
            i = i + 1;
        }
        assert(token_counts@.take(token_counts@.len() as int) =~= token_counts@);
        if total <= block_size {
            return Err(too_few_tokens_error("streaming ", total, block_size));
        }
        Ok(StreamingTokenIndex { spans, total_tokens: total, block_size })
    }

    pub fn len(&self) -> (n: usize)
        ensures
            n == self.total_spec(),
    {
        self.total_tokens
    }

    pub fn block_size(&self) -> (n: usize)
        ensures
            n == self.block_size_spec(),
    {
        self.block_size
    }

    /// The first shard holding `token_index`; an invalid operation past the end.
    pub fn find_shard(&self, token_index: usize) -> (res: Result<usize>)
        ensures
            res is Ok <==> token_index < self.total_spec(),
            res matches Ok(i) ==> first_span_holding(self.spans_spec(), token_index as int, i as int),
            res matches Err(e) ==> e is InvalidOperation,
            res matches Err(e) ==> e.message_spec() == "token index"@ + " "@ + decimal(token_index as nat)
                + " is outside streaming shard ranges"@,
    {
        proof {
            use_type_invariant(self);
        }
        let mut i: usize = 0;
        while i < self.spans.len()
            invariant
                i <= self.spans@.len(),
                spans_contiguous(self.spans@, self.total_tokens as nat),
                forall|j: int| 0 <= j < i ==> !span_holds(#[trigger] self.spans@[j], token_index as int),
                forall|j: int| 0 <= j < i ==> self.spans@[j].start_token + self.spans@[j].token_count <= token_index
                    || self.spans@[j].start_token > token_index,
                i > 0 ==> self.spans@[i - 1].start_token + self.spans@[i - 1].token_count <= token_index,
            decreases self.spans@.len() - i,
        {
            let span = self.spans[i];
            if span.start_token <= token_index && token_index - span.start_token < span.token_count {
                proof {
                    lemma_span_end_bounded(self.spans@, self.total_tokens as nat, i as int);
                }
                return Ok(i);
            }
            proof {
                if i > 0 {
                    assert(self.spans@[(i - 1) + 1].start_token == self.spans@[i - 1].start_token
                        + self.spans@[i - 1].token_count);
                }
            }
            i = i + 1;
        }
        proof {
            if self.spans@.len() > 0 {
                assert(self.spans@[self.spans@.len() - 1].start_token + self.spans@[self.spans@.len()
                    - 1].token_count <= token_index);
            }
        }
        let mut message = String::from_str("token index");
        push_number(&mut message, " ", token_index as u64);
        message.append(" is outside streaming shard ranges");
        Err(TensorError::InvalidOperation(message))
    }

    fn read_out_of_range(&self, start: usize, len: usize) -> (e: TensorError)
        ensures
            e is InvalidOperation,
            e.message_spec() == "streaming token read out of range:"@ + " "@ + field_text("start"@, start as nat)
                + " "@ + field_text("len"@, len as nat) + " "@ + field_text("total"@, self.total_spec()),
    {
        let mut message = String::from_str("streaming token read out of range:");
        push_field(&mut message, " ", "start", start as u64);
        push_field(&mut message, " ", "len", len as u64);
        push_field(&mut message, " ", "total", self.total_tokens as u64);
        TensorError::InvalidOperation(message)
    }

    /// Splits the read of tokens `start..start + len` into one read per
    /// shard it crosses, in order. Refused, as an invalid operation, when
    /// the range does not end inside the split.
    pub fn plan_reads(&self, start: usize, len: usize) -> (res: Result<Vec<ShardRead>>)
        ensures
            res is Ok <==> start + len <= self.total_spec(),
            res matches Err(e) ==> e is InvalidOperation,
            res matches Err(e) ==> e.message_spec() == "streaming token read out of range:"@ + " "@
                + field_text("start"@, start as nat) + " "@ + field_text("len"@, len as nat) + " "@
                + field_text("total"@, self.total_spec()),
            res matches Ok(reads) ==> reads_cover(reads@, self.spans_spec(), start as int, len as int),
    {
        proof {
            use_type_invariant(self);
        }
        let end = match start.checked_add(len) {
            Some(e) => e,
            None => {
                return Err(self.read_out_of_range(start, len));
            },
        };
        if end > self.total_tokens {
            return Err(self.read_out_of_range(start, len));
        }
        let mut reads: Vec<ShardRead> = Vec::new();
        let mut cursor = start;
        let mut remaining = len;
        while remaining > 0
            invariant
                cursor + remaining == end,
                end <= self.total_tokens,
                start <= cursor,
                spans_contiguous(self.spans@, self.total_tokens as nat),
                reads_cover(reads@, self.spans@, start as int, (cursor - start) as int),
            decreases remaining,
        {
            let shard = match self.find_shard(cursor) {
                Ok(s) => s,
                Err(e) => {
                    return Err(e);
                },
            };
            let span = self.spans[shard];
            let offset = cursor - span.start_token;
            let available = span.token_count - offset;
            let take = if remaining < available { remaining } else { available };
            let ghost before = reads@;
            reads.push(ShardRead { shard, offset, take });
            proof {
                assert(reads@.drop_last() =~= before);
                assert(reads@.last() == ShardRead { shard, offset, take });
            }
            cursor = cursor + take;
            remaining = remaining - take;
        }
        Ok(reads)
    }
}

/// Sum of the counts.
pub open spec fn counts_total(counts: Seq<usize>) -> nat
    decreases counts.len(),
{
    if counts.len() == 0 {
        0
    } else {
        counts_total(counts.drop_last()) + counts.last() as nat
    }
}

/// Every running sum of the counts fits in `usize`.
pub open spec fn prefix_sums_fit(counts: Seq<usize>) -> bool {
    forall|k: int| 0 <= k <= counts.len() ==> #[trigger] counts_total(counts.take(k)) <= usize::MAX
}

proof fn lemma_span_end_bounded(spans: Seq<ShardSpan>, total: nat, i: int)
    requires
        spans_contiguous(spans, total),
        0 <= i < spans.len(),
    ensures
        spans[i].start_token + spans[i].token_count <= total,
    decreases spans.len() - i,
{
    if i < spans.len() - 1 {
        lemma_span_end_bounded(spans, total, i + 1);
        assert(spans[i + 1].start_token == spans[i].start_token + spans[i].token_count);
    }
}

proof fn lemma_prefix_sums_fit_prefix(counts: Seq<usize>, k: int)
    requires
        0 <= k <= counts.len(),
        counts_total(counts.take(k)) > usize::MAX,
    ensures
        !prefix_sums_fit(counts),
{
    assert(counts_total(counts.take(k)) > usize::MAX);
}

/// The reads, one after another, cover tokens `start..start + len`: each
/// reads a non-empty range inside the first shard holding its first token,
/// and each starts where the previous one ended.
pub open spec fn reads_cover(reads: Seq<ShardRead>, spans: Seq<ShardSpan>, start: int, len: int) -> bool
    decreases reads.len(),
{
    if reads.len() == 0 {
        len == 0
    } else {
        let last = reads.last();
        let covered = len - last.take;
        &&& last.take > 0
        &&& 0 <= covered
        &&& first_span_holding(spans, start + covered, last.shard as int)
        &&& last.offset == start + covered - spans[last.shard as int].start_token
        &&& last.offset + last.take <= spans[last.shard as int].token_count
        &&& reads_cover(reads.drop_last(), spans, start, covered)
    }
}

/// Window starts of a sequential pass: consecutive, non-overlapping windows
/// from `token_offset`, at most `batch_size` of them, each followed by a
/// target token inside the split. `None` when not even one window fits.
pub fn sequential_window_starts(total_tokens: usize, block_size: usize, token_offset: usize, batch_size: usize)
    -> (res: Result<Option<Vec<usize>>>)
    ensures
        res is Err <==> batch_size == 0,
        res matches Err(e) ==> e is InvalidOperation,
        res matches Ok(None) ==> token_offset + block_size >= total_tokens,
        res matches Ok(Some(starts)) ==> {
            &&& token_offset + block_size < total_tokens
            &&& 0 < starts@.len() <= batch_size
            &&& forall|i: int|
                0 <= i < starts@.len() ==> #[trigger] starts@[i] == token_offset + i * block_size && starts@[i]
                    + block_size < total_tokens
            &&& starts@.len() < batch_size ==> token_offset + starts@.len() * block_size + block_size
                >= total_tokens
        },
{
    if batch_size == 0 {
        return Err(invalid_operation("batch_size must be greater than zero"));
    }
    if token_offset >= total_tokens || total_tokens - token_offset <= block_size {
        return Ok(None);
    }
    let mut starts: Vec<usize> = Vec::new();
    let mut offset = token_offset;
    while starts.len() < batch_size && offset < total_tokens && total_tokens - offset > block_size
        invariant
            starts@.len() <= batch_size,
            offset == token_offset + starts@.len() * block_size,
            token_offset + block_size < total_tokens,
            forall|i: int|
                0 <= i < starts@.len() ==> #[trigger] starts@[i] == token_offset + i * block_size && starts@[i]
                    + block_size < total_tokens,
        decreases batch_size - starts@.len(),
    {
        starts.push(offset);
        proof {
            assert(token_offset + starts@.len() * block_size == token_offset + (starts@.len() - 1)
                * block_size + block_size) by (nonlinear_arith);
        }
        offset = offset + block_size;
    }
    Ok(Some(starts))
}

/// A shard opened for streaming must be the one the manifest lists: same
/// token count and token hash. A mismatch is an invalid operation naming
/// the split, the shard's resolved `metadata_path`, and both counts and
/// hashes.
pub fn check_shard_matches(listed: &PreparedDataShard, metadata_path: &str, metadata: &TokenShardMetadata) -> (res:
    Result<()>)
    ensures
        res is Ok <==> listed.tokens == metadata.token_count && listed.token_hash@ == metadata.token_hash@,
        res matches Err(e) ==> e is InvalidOperation && e.message_spec() == listed.split@
            + " shard metadata mismatch for "@ + metadata_path@ + ": manifest len/hash="@ + decimal(
            listed.tokens as nat,
        ) + "/"@ + listed.token_hash@ + ", shard len/hash="@ + decimal(metadata.token_count as nat) + "/"@
            + metadata.token_hash@,
{
    if metadata.token_count != listed.tokens || !str_eq(metadata.token_hash.as_str(), listed.token_hash.as_str()) {
        let mut message = String::from_str(listed.split.as_str());
        message.append(" shard metadata mismatch for ");
        message.append(metadata_path);
        push_number(&mut message, ": manifest len/hash=", listed.tokens as u64);
        message.append("/");
        message.append(listed.token_hash.as_str());
        push_number(&mut message, ", shard len/hash=", metadata.token_count as u64);
        message.append("/");
        message.append(metadata.token_hash.as_str());
        return Err(TensorError::InvalidOperation(message));
    }
    Ok(())
}

// ---------------------------------------------------------------------------
// Corpus blend manifests
// ---------------------------------------------------------------------------

/// What blend validation and accounting read of one source.
/// `sampling_weight_ok` records whether its sampling weight is finite and
/// not negative; `sampling_weight_text` is that weight as its `Display`
/// form writes it, which a refusal quotes.
#[derive(Clone, Debug)]
pub struct BlendSourceFacts {
    pub source_id: String,
    pub sampling_weight_ok: bool,
    pub sampling_weight_text: String,
    pub has_path: bool,
    pub has_content_hash: bool,
    pub local_records: Option<usize>,
    pub local_bytes: Option<usize>,
}

/// A blend manifest is valid: the blend format and version, at least one
/// source, every source with a non-blank id, a valid sampling weight and,
/// when it is local, a content hash, and no id used twice.
pub open spec fn blend_valid(format: Seq<char>, version: u32, sources: Seq<BlendSourceFacts>) -> bool {
    &&& format == CORPUS_BLEND_MANIFEST_FORMAT@
    &&& version == CORPUS_BLEND_MANIFEST_VERSION
    &&& sources.len() > 0
    &&& forall|i: int|
        0 <= i < sources.len() ==> {
            let s = #[trigger] sources[i];
            &&& !crate::text::all_white_space(s.source_id@)
            &&& s.sampling_weight_ok
            &&& (s.has_path ==> s.has_content_hash)
        }
    &&& forall|i: int, j: int|
        0 <= i < j < sources.len() ==> (#[trigger] sources[i]).source_id@ != (#[trigger] sources[j]).source_id@
}

/// One source passes the per-source checks.
pub open spec fn source_ok(s: BlendSourceFacts) -> bool {
    &&& !crate::text::all_white_space(s.source_id@)
    &&& s.sampling_weight_ok
    &&& (s.has_path ==> s.has_content_hash)
}

/// Source `k` is the first that fails the per-source checks.
pub open spec fn first_failing_source(sources: Seq<BlendSourceFacts>, k: int) -> bool {
    0 <= k < sources.len() && !source_ok(sources[k]) && forall|j: int| 0 <= j < k ==> source_ok(#[trigger] sources[j])
}

/// The refusal of a source that fails the per-source checks.
pub open spec fn source_refusal(s: BlendSourceFacts) -> Seq<char> {
    if crate::text::all_white_space(s.source_id@) {
        "corpus blend source_id must not be empty"@
    } else if !s.sampling_weight_ok {
        "source "@ + s.source_id@ + " has invalid sampling_weight "@ + s.sampling_weight_text@
    } else {
        "local source "@ + s.source_id@ + " requires content_hash"@
    }
}

/// Accepts exactly the valid blend manifests; every refusal is an invalid
/// operation.
pub fn validate_corpus_blend(format: &str, version: u32, sources: &[BlendSourceFacts]) -> (res: Result<()>)
    ensures
        res is Ok <==> blend_valid(format@, version, sources@),
        res matches Err(e) ==> e is InvalidOperation,
        forall|k: int|
            format@ == CORPUS_BLEND_MANIFEST_FORMAT@ && version == CORPUS_BLEND_MANIFEST_VERSION
                && #[trigger] first_failing_source(sources@, k) ==> (res matches Err(e) && e.message_spec()
                == source_refusal(sources@[k])),
        format@ == CORPUS_BLEND_MANIFEST_FORMAT@ && version == CORPUS_BLEND_MANIFEST_VERSION && sources@.len() > 0
            && (forall|k: int| 0 <= k < sources@.len() ==> source_ok(#[trigger] sources@[k])) && res is Err ==> (
        res matches Err(e) && exists|b: int|
            0 <= b < sources@.len() && id_count(sources@, #[trigger] sources@[b].source_id@) > 1 && (forall|x: int|
                0 <= x < sources@.len() && id_count(sources@, #[trigger] sources@[x].source_id@) > 1 ==> !lex_lt(
                    sources@[x].source_id@,
                    sources@[b].source_id@,
                )) && e.message_spec() == "duplicate corpus blend source_id "@ + sources@[b].source_id@
                + " count="@ + decimal(id_count(sources@, sources@[b].source_id@))),
        format@ != CORPUS_BLEND_MANIFEST_FORMAT@ ==> (res matches Err(e) && e.message_spec()
            == "unsupported corpus blend manifest format "@ + format@ + ", expected "@
            + CORPUS_BLEND_MANIFEST_FORMAT@),
        format@ == CORPUS_BLEND_MANIFEST_FORMAT@ && version != CORPUS_BLEND_MANIFEST_VERSION ==> (
        res matches Err(e) && e.message_spec() == "unsupported corpus blend manifest version"@ + " "@
            + decimal(version as nat) + ", expected "@ + decimal(CORPUS_BLEND_MANIFEST_VERSION as nat)),
{
    if !str_eq(format, CORPUS_BLEND_MANIFEST_FORMAT) {
        let mut message = String::from_str("unsupported corpus blend manifest format ");
        message.append(format);
        message.append(", expected ");
        message.append(CORPUS_BLEND_MANIFEST_FORMAT);
        return Err(TensorError::InvalidOperation(message));
    }
    if version != CORPUS_BLEND_MANIFEST_VERSION {
        let mut message = String::from_str("unsupported corpus blend manifest version");
        push_number(&mut message, " ", version as u64);
        push_number(&mut message, ", expected ", CORPUS_BLEND_MANIFEST_VERSION as u64);
        return Err(TensorError::InvalidOperation(message));
    }
    if sources.len() == 0 {
        return Err(invalid_operation("corpus blend manifest requires at least one source"));
    }
    let mut i: usize = 0;
    while i < sources.len()
        invariant
            format@ == CORPUS_BLEND_MANIFEST_FORMAT@,
            version == CORPUS_BLEND_MANIFEST_VERSION,
            i <= sources@.len(),
            forall|k: int|
                0 <= k < i ==> {
                    let s = #[trigger] sources@[k];
                    &&& !crate::text::all_white_space(s.source_id@)
                    &&& s.sampling_weight_ok
                    &&& (s.has_path ==> s.has_content_hash)
                },
        decreases sources@.len() - i,
    {
        let source = &sources[i];
        proof {
            assert forall|k: int| 0 <= k < i implies source_ok(#[trigger] sources@[k]) by {}
            assert forall|k: int| #[trigger] first_failing_source(sources@, k) && !source_ok(sources@[i as int])
                implies k == i by {
                if k < i {
                    assert(source_ok(sources@[k]));
                } else if k > i {
                    assert(!source_ok(sources@[i as int]));
                }
            }
        }
        if blank(source.source_id.as_str()) {
            return Err(invalid_operation("corpus blend source_id must not be empty"));
        }
        if !source.sampling_weight_ok {
            let mut message = String::from_str("source ");
            message.append(source.source_id.as_str());
            message.append(" has invalid sampling_weight ");
            message.append(source.sampling_weight_text.as_str());
            return Err(TensorError::InvalidOperation(message));
        }
        if source.has_path && !source.has_content_hash {
            let mut message = String::from_str("local source ");
            message.append(source.source_id.as_str());
            message.append(" requires content_hash");
            proof {
                assert forall|k: int| #[trigger] first_failing_source(sources@, k) implies k == i by {
                    if k < i {
                        assert(source_ok(sources@[k]));
                    } else if k > i {
                        assert(!source_ok(sources@[i as int]));
                    }
                }
            }
            return Err(TensorError::InvalidOperation(message));
        }
        i = i + 1;
    }
    assert forall|k: int| 0 <= k < sources@.len() implies source_ok(#[trigger] sources@[k]) by {}
    let mut best: Option<(usize, usize)> = None;
    let mut a: usize = 0;
    while a < sources.len()
        invariant
            format@ == CORPUS_BLEND_MANIFEST_FORMAT@,
            version == CORPUS_BLEND_MANIFEST_VERSION,
            forall|k: int| 0 <= k < sources@.len() ==> source_ok(#[trigger] sources@[k]),
            a <= sources@.len(),
            best is None ==> forall|x: int| 0 <= x < a ==> id_count(sources@, #[trigger] sources@[x].source_id@) <= 1,
            best matches Some(pair) ==> {
                let (b, c) = pair;
                &&& b < a
                &&& c == id_count(sources@, sources@[b as int].source_id@)
                &&& c > 1
                &&& forall|x: int|
                    0 <= x < a && id_count(sources@, #[trigger] sources@[x].source_id@) > 1 ==> !lex_lt(
                        sources@[x].source_id@,
                        sources@[b as int].source_id@,
                    )
            },
        decreases sources@.len() - a,
    {
        let c = count_source_id(sources, sources[a].source_id.as_str());
        if c > 1 {
            let better = match best {
                None => true,
                Some((b, _)) => match lex_order(sources[a].source_id.as_str(), sources[b].source_id.as_str()) {
                    Lex::Before => true,
                    _ => false,
                },
            };
            proof {
                if let Some((b, _)) = best {
                    crate::text::lemma_lex_order(
                        sources@[a as int].source_id@,
                        sources@[b as int].source_id@,
                        sources@[b as int].source_id@,
                    );
                    assert forall|x: int|
                        0 <= x < a + 1 && id_count(sources@, #[trigger] sources@[x].source_id@) > 1 implies !lex_lt(
                        sources@[x].source_id@,
                        (if better { sources@[a as int].source_id@ } else { sources@[b as int].source_id@ }),
                    ) by {
                        crate::text::lemma_lex_order(
                            sources@[x].source_id@,
                            sources@[a as int].source_id@,
                            sources@[b as int].source_id@,
                        );
                        crate::text::lemma_lex_order(
                            sources@[x].source_id@,
                            sources@[b as int].source_id@,
                            sources@[a as int].source_id@,
                        );
                    }
                } else {
                    assert forall|x: int|
                        0 <= x < a + 1 && id_count(sources@, #[trigger] sources@[x].source_id@) > 1 implies !lex_lt(
                        sources@[x].source_id@,
                        sources@[a as int].source_id@,
                    ) by {
                        crate::text::lemma_lex_order(sources@[x].source_id@, sources@[a as int].source_id@, sources@[a as int].source_id@);
                    }
                }
            }
            if better {
                best = Some((a, c));
            }
        }
        a = a + 1;
    }
    match best {
        None => {
            proof {
                assert forall|x: int, y: int|
                    0 <= x < y < sources@.len() implies (#[trigger] sources@[x]).source_id@
                    != (#[trigger] sources@[y]).source_id@ by {
                    if sources@[x].source_id@ == sources@[y].source_id@ {
                        lemma_equal_ids_counted(sources@, x, y);
                    }
                }
            }
            Ok(())
        },
        Some((b, c)) => {
            let mut message = String::from_str("duplicate corpus blend source_id ");
            message.append(sources[b].source_id.as_str());
            push_number(&mut message, " count=", c as u64);
            proof {
                lemma_counted_twice(sources@, sources@[b as int].source_id@);
            }
            Err(TensorError::InvalidOperation(message))
        },
    }
}

/// How many sources carry the id `id`.
pub open spec fn id_count(sources: Seq<BlendSourceFacts>, id: Seq<char>) -> nat
    decreases sources.len(),
{
    if sources.len() == 0 {
        0
    } else {
        id_count(sources.drop_last(), id) + (if sources.last().source_id@ == id {
            1nat
        } else {
            0nat
        })
    }
}

proof fn lemma_id_count_bounded(sources: Seq<BlendSourceFacts>, id: Seq<char>)
    ensures
        id_count(sources, id) <= sources.len(),
    decreases sources.len(),
{
    if sources.len() > 0 {
        lemma_id_count_bounded(sources.drop_last(), id);
    }
}

/// Two sources with one id make it counted at least twice.
proof fn lemma_equal_ids_counted(sources: Seq<BlendSourceFacts>, x: int, y: int)
    requires
        0 <= x < y < sources.len(),
        sources[x].source_id@ == sources[y].source_id@,
    ensures
        id_count(sources, sources[x].source_id@) >= 2,
    decreases sources.len(),
{
    let id = sources[x].source_id@;
    if y < sources.len() - 1 {
        lemma_equal_ids_counted(sources.drop_last(), x, y);
    } else {
        lemma_id_present_counted(sources.drop_last(), x, id);
    }
}

proof fn lemma_id_present_counted(sources: Seq<BlendSourceFacts>, x: int, id: Seq<char>)
    requires
        0 <= x < sources.len(),
        sources[x].source_id@ == id,
    ensures
        id_count(sources, id) >= 1,
    decreases sources.len(),
{
    if x < sources.len() - 1 {
        lemma_id_present_counted(sources.drop_last(), x, id);
    }
}

/// An id counted at least twice belongs to two sources.
proof fn lemma_counted_twice(sources: Seq<BlendSourceFacts>, id: Seq<char>)
    requires
        id_count(sources, id) >= 2,
    ensures
        exists|x: int, y: int|
            0 <= x < y < sources.len() && (#[trigger] sources[x]).source_id@ == id && (#[trigger] sources[y]).source_id@
                == id,
    decreases sources.len(),
{
    let rest = sources.drop_last();
    if sources.last().source_id@ == id && id_count(rest, id) >= 1 {
        let x = lemma_counted_once(rest, id);
        assert(sources[x] == rest[x]);
        assert(sources[sources.len() - 1].source_id@ == id);
    } else {
        lemma_counted_twice(rest, id);
        let (x, y) = choose|x: int, y: int|
            0 <= x < y < rest.len() && (#[trigger] rest[x]).source_id@ == id && (#[trigger] rest[y]).source_id@ == id;
        assert(sources[x] == rest[x] && sources[y] == rest[y]);
    }
}

proof fn lemma_counted_once(sources: Seq<BlendSourceFacts>, id: Seq<char>) -> (x: int)
    requires
        id_count(sources, id) >= 1,
    ensures
        0 <= x < sources.len(),
        sources[x].source_id@ == id,
    decreases sources.len(),
{
    if sources.last().source_id@ == id {
        sources.len() - 1
    } else {
        let x = lemma_counted_once(sources.drop_last(), id);
        assert(sources[x] == sources.drop_last()[x]);
        x
    }
}

/// How many sources carry the id `id`.
fn count_source_id(sources: &[BlendSourceFacts], id: &str) -> (c: usize)
    ensures
        c == id_count(sources@, id@),
{
    let mut c: usize = 0;
    let mut i: usize = 0;
    assert(sources@.take(0) =~= Seq::<BlendSourceFacts>::empty());
    while i < sources.len()
        invariant
            i <= sources@.len(),
            c == id_count(sources@.take(i as int), id@),
        decreases sources@.len() - i,
    {
        proof {
            assert(sources@.take(i + 1).drop_last() =~= sources@.take(i as int));
            lemma_id_count_bounded(sources@.take(i as int), id@);
        }
        if str_eq(sources[i].source_id.as_str(), id) {
            c = c + 1;
        }
        i = i + 1;
    }
    assert(sources@.take(sources@.len() as int) =~= sources@);
    c
}

fn blank(s: &str) -> (b: bool)
    ensures
        b == crate::text::all_white_space(s@),
{
    let chars = crate::text::chars_of(s);
    let mut i: usize = 0;
    while i < chars.len()
        invariant
            i <= chars@.len(),
            chars@ == s@,
            forall|k: int| 0 <= k < i ==> crate::text::is_white_space(#[trigger] chars@[k]),
        decreases chars@.len() - i,
    {
        if !crate::text::char_is_whitespace(chars[i]) {
            return false;
        }
        i = i + 1;
    }
    true
}

/// Source counts and local totals of a blend.
#[derive(Clone, Copy, Debug, PartialEq, Eq, Structural)]
pub struct BlendCounts {
    pub local_source_count: usize,
    pub planned_source_count: usize,
    pub local_record_count: usize,
    pub local_bytes: usize,
}

pub open spec fn local_count(sources: Seq<BlendSourceFacts>) -> nat
    decreases sources.len(),
{
    if sources.len() == 0 {
        0
    } else {
        local_count(sources.drop_last()) + (if sources.last().has_path { 1nat } else { 0nat })
    }
}

pub open spec fn opt_value(o: Option<usize>) -> nat {
    match o {
        Some(v) => v as nat,
        None => 0,
    }
}

pub open spec fn records_total(sources: Seq<BlendSourceFacts>) -> nat
    decreases sources.len(),
{
    if sources.len() == 0 {
        0
    } else {
        records_total(sources.drop_last()) + opt_value(sources.last().local_records)
    }
}

pub open spec fn bytes_total(sources: Seq<BlendSourceFacts>) -> nat
    decreases sources.len(),
{
    if sources.len() == 0 {
        0
    } else {
        bytes_total(sources.drop_last()) + opt_value(sources.last().local_bytes)
    }
}

proof fn lemma_blend_totals_prefix(sources: Seq<BlendSourceFacts>, k: int)
    requires
        0 <= k <= sources.len(),
    ensures
        records_total(sources.take(k)) <= records_total(sources),
        bytes_total(sources.take(k)) <= bytes_total(sources),
        local_count(sources.take(k)) <= local_count(sources),
        local_count(sources) <= sources.len(),
    decreases sources.len() - k,
{
    if k < sources.len() {
        lemma_blend_totals_prefix(sources, k + 1);
        assert(sources.take(k + 1).drop_last() =~= sources.take(k));
    } else {
        assert(sources.take(k) =~= sources);
        lemma_local_count_bounded(sources);
    }
}

proof fn lemma_local_count_bounded(sources: Seq<BlendSourceFacts>)
    ensures
        local_count(sources) <= sources.len(),
    decreases sources.len(),
{
    if sources.len() > 0 {
        lemma_local_count_bounded(sources.drop_last());
    }
}

/// Counts the local (path-backed) and planned sources of a blend and sums
/// the local record and byte counts that sources report.
pub fn blend_counts(sources: &[BlendSourceFacts]) -> (c: BlendCounts)
    requires
        records_total(sources@) <= usize::MAX,
        bytes_total(sources@) <= usize::MAX,
    ensures
        c.local_source_count == local_count(sources@),
        c.planned_source_count == sources@.len() - local_count(sources@),
        c.local_record_count == records_total(sources@),
        c.local_bytes == bytes_total(sources@),
{
    let mut local: usize = 0;
    let mut records: usize = 0;
    let mut bytes: usize = 0;
    let mut i: usize = 0;
    while i < sources.len()
        invariant
            i <= sources@.len(),
            records_total(sources@) <= usize::MAX,
            bytes_total(sources@) <= usize::MAX,
            local == local_count(sources@.take(i as int)),
            records == records_total(sources@.take(i as int)),
            bytes == bytes_total(sources@.take(i as int)),
        decreases sources@.len() - i,
    {
        proof {
            assert(sources@.take(i + 1).drop_last() =~= sources@.take(i as int));
            lemma_blend_totals_prefix(sources@, i + 1);
            lemma_local_count_bounded(sources@.take(i + 1));
        }
        let source = &sources[i];
        if source.has_path {
            local = local + 1;
        }
        match source.local_records {
            Some(r) => {
                records = records + r;
            },
            None => {},
        }
        match source.local_bytes {
            Some(b) => {
                bytes = bytes + b;
            },
            None => {},
        }
        i = i + 1;
    }
    proof {
        assert(sources@.take(sources@.len() as int) =~= sources@);
        lemma_local_count_bounded(sources@);
    }
    BlendCounts {
        local_source_count: local,
        planned_source_count: sources.len() - local,
        local_record_count: records,
        local_bytes: bytes,
    }
}

} // verus!
