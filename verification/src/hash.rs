use vstd::prelude::*;

verus! {

/// Offset basis of the 64-bit FNV-1a hash.
pub const FNV64_OFFSET_BASIS: u64 = 0xcbf29ce484222325;

/// Prime of the 64-bit FNV-1a hash.
pub const FNV64_PRIME: u64 = 0x100000001b3;

/// FNV-1a over `bytes`, starting from `state`: each byte is xored in and
/// the state is multiplied by the prime, modulo 2^64.
pub open spec fn fnv1a_from(state: u64, bytes: Seq<u8>) -> u64
    decreases bytes.len(),
{
    if bytes.len() == 0 {
        state
    } else {
        let prev = fnv1a_from(state, bytes.drop_last());
        vstd::wrapping::u64_specs::wrapping_mul(prev ^ (bytes.last() as u64), FNV64_PRIME)
    }
}

/// The FNV-1a hash of `bytes`.
pub open spec fn fnv1a(bytes: Seq<u8>) -> u64 {
    fnv1a_from(FNV64_OFFSET_BASIS, bytes)
}

/// Lowercase hexadecimal digit for `d < 16`.
pub open spec fn hex_char(d: u64) -> char {
    if d < 10 {
        (('0' as u64) + d) as char
    } else {
        (('a' as u64) + d - 10) as char
    }
}

/// The 16 lowercase hexadecimal digits of `v`, most significant first.
pub open spec fn hex16(v: u64) -> Seq<char> {
    Seq::new(16, |i: int| hex_char((v >> ((60 - 4 * i) as u64)) & 15u64))
}

/// Little-endian byte `i` of `v`.
pub open spec fn le_byte(v: u64, i: nat) -> u8 {
    ((v >> (8 * i) as u64) & 0xffu64) as u8
}

/// The eight little-endian bytes of `v`.
pub open spec fn le_bytes_u64(v: u64) -> Seq<u8> {
    Seq::new(8, |i: int| le_byte(v, i as nat))
}

/// Little-endian encoding of every token as a `u64`, concatenated.
pub open spec fn token_hash_bytes(tokens: Seq<usize>) -> Seq<u8>
    decreases tokens.len(),
{
    if tokens.len() == 0 {
        Seq::empty()
    } else {
        token_hash_bytes(tokens.drop_last()) + le_bytes_u64(tokens.last() as u64)
    }
}

/// The bytes hashed for a token list are every token, in order, as eight
/// little-endian bytes: there are eight per token, and bytes `8i..8i+8`
/// read back (least significant first) as token `i`.
pub proof fn lemma_token_hash_bytes_encode_each_token(tokens: Seq<usize>)
    ensures
        token_hash_bytes(tokens).len() == 8 * tokens.len(),
        forall|i: int|
            0 <= i < tokens.len() ==> crate::data::le_value(
                #[trigger] token_hash_bytes(tokens).subrange(8 * i, 8 * i + 8),
            ) == tokens[i],
    decreases tokens.len(),
{
    if tokens.len() > 0 {
        let init = tokens.drop_last();
        lemma_token_hash_bytes_encode_each_token(init);
        let bytes = token_hash_bytes(tokens);
        let last = le_bytes_u64(tokens.last() as u64);
        assert(bytes == token_hash_bytes(init) + last);
        crate::npy_roundtrip::lemma_le_value_le_bytes(tokens.last() as u64);
        assert forall|i: int| 0 <= i < tokens.len() implies crate::data::le_value(
            #[trigger] token_hash_bytes(tokens).subrange(8 * i, 8 * i + 8),
        ) == tokens[i] by {
            if i < init.len() {
                assert(bytes.subrange(8 * i, 8 * i + 8) =~= token_hash_bytes(init).subrange(8 * i, 8 * i + 8));
                assert(init[i] == tokens[i]);
            } else {
                assert(bytes.subrange(8 * i, 8 * i + 8) =~= last);
            }
        }
    }
}

pub(crate) fn hex_digit(d: u64) -> (s: &'static str)
    requires
        d < 16,
    ensures
        s@ == seq![hex_char(d)],
{
    proof {
        reveal_strlit("0");
        reveal_strlit("1");
        reveal_strlit("2");
        reveal_strlit("3");
        reveal_strlit("4");
        reveal_strlit("5");
        reveal_strlit("6");
        reveal_strlit("7");
        reveal_strlit("8");
        reveal_strlit("9");
        reveal_strlit("a");
        reveal_strlit("b");
        reveal_strlit("c");
        reveal_strlit("d");
        reveal_strlit("e");
        reveal_strlit("f");
    }
    match d {
        0 => "0",
        1 => "1",
        2 => "2",
        3 => "3",
        4 => "4",
        5 => "5",
        6 => "6",
        7 => "7",
        8 => "8",
        9 => "9",
        10 => "a",
        11 => "b",
        12 => "c",
        13 => "d",
        14 => "e",
        15 => "f",
        _ => "f",
    }
}

/// Renders `v` as exactly 16 lowercase hexadecimal digits.
pub fn hex_u64(v: u64) -> (s: String)
    ensures
        s@ == hex16(v),
{
    let mut out = String::new();
    let mut i: u64 = 0;
    while i < 16
        invariant
            i <= 16,
            out@ == hex16(v).take(i as int),
        decreases 16 - i,
    {
        let shift: u64 = 60 - 4 * i;
        let d = (v >> shift) & 15u64;
        assert(d < 16) by (bit_vector)
            requires
                d == (v >> shift) & 15u64,
        ;
        let digit = hex_digit(d);
        out.append(digit);
        assert(out@ =~= hex16(v).take(i + 1));
        i = i + 1;
    }
    assert(hex16(v).take(16) =~= hex16(v));
    out
}

/// Streaming FNV-1a state.
pub struct StableFnv64 {
    value: u64,
}

impl StableFnv64 {
    pub closed spec fn value_spec(&self) -> u64 {
        self.value
    }

    /// A hasher at the FNV-1a offset basis.
    pub fn new() -> (h: Self)
        ensures
            h.value_spec() == FNV64_OFFSET_BASIS,
    {
        StableFnv64 { value: FNV64_OFFSET_BASIS }
    }

    /// A hasher resumed from a saved state.
    pub fn from_value(value: u64) -> (h: Self)
        ensures
            h.value_spec() == value,
    {
        StableFnv64 { value }
    }

    pub fn value(&self) -> (v: u64)
        ensures
            v == self.value_spec(),
    {
        self.value
    }

    /// Feeds `bytes` into the hash.
    pub fn update(&mut self, bytes: &[u8])
        ensures
            final(self).value_spec() == fnv1a_from(old(self).value_spec(), bytes@),
    {
        let ghost start = self.value;
        let mut i: usize = 0;
        assert(bytes@.take(0) =~= Seq::<u8>::empty());
        while i < bytes.len()
            invariant
                i <= bytes.len(),
                self.value == fnv1a_from(start, bytes@.take(i as int)),
            decreases bytes.len() - i,
        {
            assert(bytes@.take(i + 1).drop_last() =~= bytes@.take(i as int));
            self.value = (self.value ^ (bytes[i] as u64)).wrapping_mul(FNV64_PRIME);
            i = i + 1;
        }
        assert(bytes@.take(bytes.len() as int) =~= bytes@);
    }

    /// Feeds a token as its eight little-endian `u64` bytes.
    pub fn update_token(&mut self, token: usize)
        ensures
            final(self).value_spec() == fnv1a_from(
                old(self).value_spec(),
                le_bytes_u64(token as u64),
            ),
    {
        let bytes = le_bytes_of(token as u64);
        self.update(bytes.as_slice());
    }

    /// The current hash as 16 lowercase hexadecimal digits.
    pub fn finish_hex(&self) -> (s: String)
        ensures
            s@ == hex16(self.value_spec()),
    {
        hex_u64(self.value)
    }
}

/// The eight little-endian bytes of `v`.
pub fn le_bytes_of(v: u64) -> (bytes: Vec<u8>)
    ensures
        bytes@ == le_bytes_u64(v),
{
    let mut bytes: Vec<u8> = Vec::new();
    let mut i: u64 = 0;
    while i < 8
        invariant
            i <= 8,
            bytes@ == le_bytes_u64(v).take(i as int),
        decreases 8 - i,
    {
        let b = ((v >> (8 * i)) & 0xffu64) as u8;
        bytes.push(b);
        assert(bytes@ =~= le_bytes_u64(v).take(i + 1));
        i = i + 1;
    }
    assert(le_bytes_u64(v).take(8) =~= le_bytes_u64(v));
    bytes
}

proof fn lemma_fnv_concat(state: u64, a: Seq<u8>, b: Seq<u8>)
    ensures
        fnv1a_from(state, a + b) == fnv1a_from(fnv1a_from(state, a), b),
    decreases b.len(),
{
    if b.len() == 0 {
        assert(a + b =~= a);
    } else {
        lemma_fnv_concat(state, a, b.drop_last());
        assert((a + b).drop_last() =~= a + b.drop_last());
    }
}

/// FNV-1a of `bytes`, as 16 lowercase hexadecimal digits.
pub fn stable_hash_bytes(bytes: &[u8]) -> (s: String)
    ensures
        s@ == hex16(fnv1a(bytes@)),
{
    let mut h = StableFnv64::new();
    h.update(bytes);
    h.finish_hex()
}

/// FNV-1a of the tokens, each taken as eight little-endian `u64` bytes, as
/// 16 lowercase hexadecimal digits.
pub fn stable_hash_tokens(tokens: &[usize]) -> (s: String)
    ensures
        s@ == hex16(fnv1a(token_hash_bytes(tokens@))),
{
    let mut h = StableFnv64::new();
    let mut i: usize = 0;
    assert(tokens@.take(0) =~= Seq::<usize>::empty());
    while i < tokens.len()
        invariant
            i <= tokens.len(),
            h.value_spec() == fnv1a(token_hash_bytes(tokens@.take(i as int))),
        decreases tokens.len() - i,
    {
        proof {
            let prefix = tokens@.take(i + 1);
            assert(prefix.drop_last() =~= tokens@.take(i as int));
            lemma_fnv_concat(
                FNV64_OFFSET_BASIS,
                token_hash_bytes(tokens@.take(i as int)),
                le_bytes_u64(tokens@[i as int] as u64),
            );
        }
        h.update_token(tokens[i]);
        i = i + 1;
    }
    assert(tokens@.take(tokens.len() as int) =~= tokens@);
    h.finish_hex()
}

} // verus!
