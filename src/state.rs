use vstd::prelude::*;
use crate::endian::{le_bytes, le_value, lemma_le_round_trip, read_u64_le, u64_le_bytes};
use crate::error::TokenError;

verus! {

/// Bytes taken by an identifier.
pub const KEY_LEN: usize = 32;

/// Bytes taken by an encoded record: 8 for the amount, then 32 each for mint
/// and owner. A buffer must hold at least this many; bytes past them belong
/// to no field and are never changed.
pub const TOKEN_LEN: usize = 72;

/// A 32-byte identifier of an account, a program or an authority.
#[derive(Clone, Copy, Debug)]
pub struct Key {
    pub bytes: [u8; 32],
}

impl View for Key {
    type V = Seq<u8>;

    open spec fn view(&self) -> Seq<u8> {
        self.bytes@
    }
}

impl Key {
    pub fn new_from_array(bytes: [u8; 32]) -> (r: Key)
        ensures
            r@ == bytes@,
    {
        Key { bytes }
    }

    pub fn to_bytes(&self) -> (r: [u8; 32])
        ensures
            r@ == self@,
    {
        self.bytes
    }

    /// Reads an identifier from `src[off..off + 32]`.
    pub fn from_slice_at(src: &[u8], off: usize) -> (r: Key)
        requires
            off + KEY_LEN <= src@.len(),
        ensures
            r@ == src@.subrange(off as int, off + KEY_LEN),
    {
        let src_len = src.len();
        let mut bytes = [0u8; 32];
        let mut i: usize = 0;
        while i < KEY_LEN
            invariant
                i <= KEY_LEN,
                off + KEY_LEN <= src@.len(),
                src@.len() == src_len,
                bytes@.len() == KEY_LEN,
                forall|j: int| 0 <= j < i ==> bytes@[j] == src@[off + j],
            decreases KEY_LEN - i,
        {
            bytes[i] = src[off + i];
            i = i + 1;
        }
        assert(bytes@ =~= src@.subrange(off as int, off + KEY_LEN));
        Key { bytes }
    }

    /// Byte-wise comparison of two identifiers.
    pub fn equals(&self, other: &Key) -> (r: bool)
        ensures
            r == (self@ == other@),
    {
        let mut i: usize = 0;
        while i < KEY_LEN
            invariant
                i <= KEY_LEN,
                self@.len() == KEY_LEN,
                other@.len() == KEY_LEN,
                forall|j: int| 0 <= j < i ==> self@[j] == other@[j],
            decreases KEY_LEN - i,
        {
            if self.bytes[i] != other.bytes[i] {
                return false;
            }
            i = i + 1;
        }
        assert(self@ =~= other@);
        true
    }
}

/// What a record holds, with identifiers as byte sequences.
pub struct TokenModel {
    pub mint: Seq<u8>,
    pub owner: Seq<u8>,
    pub amount: u64,
}

/// The balance record kept in an account buffer.
#[derive(Clone, Copy, Debug)]
pub struct Token {
    pub mint: Key,
    pub owner: Key,
    pub amount: u64,
}

impl View for Token {
    type V = TokenModel;

    open spec fn view(&self) -> TokenModel {
        TokenModel { mint: self.mint@, owner: self.owner@, amount: self.amount }
    }
}

/// A record counts as initialised once its amount is nonzero.
pub open spec fn initialized(t: TokenModel) -> bool {
    t.amount > 0
}

/// The 72-byte encoding: amount as u64 little-endian, then mint, then owner.
pub open spec fn token_bytes(t: TokenModel) -> Seq<u8> {
    le_bytes(t.amount) + t.mint + t.owner
}

/// The record read from the first 72 bytes of `b`.
pub open spec fn token_from_bytes(b: Seq<u8>) -> TokenModel
    recommends
        b.len() >= TOKEN_LEN,
{
    TokenModel {
        amount: le_value(b.subrange(0, 8)),
        mint: b.subrange(8, 40),
        owner: b.subrange(40, 72),
    }
}

/// `buf` with its first 72 bytes replaced by the encoding of `t`.
pub open spec fn store(buf: Seq<u8>, t: TokenModel) -> Seq<u8> {
    token_bytes(t) + buf.subrange(TOKEN_LEN as int, buf.len() as int)
}

/// `dst` with `src` written over it from `off` on.
spec fn overwrite(dst: Seq<u8>, off: int, src: Seq<u8>) -> Seq<u8> {
    dst.subrange(0, off) + src + dst.subrange(off + src.len(), dst.len() as int)
}

/// Writes `src` into `dst` from `off` on; the rest of `dst` is kept.
fn write_at(dst: &mut Vec<u8>, off: usize, src: &[u8])
    requires
        off + src@.len() <= old(dst)@.len(),
    ensures
        final(dst)@ == overwrite(old(dst)@, off as int, src@),
{
    let dst_len = dst.len();
    let mut i: usize = 0;
    while i < src.len()
        invariant
            i <= src@.len(),
            off + src@.len() <= old(dst)@.len(),
            old(dst)@.len() == dst_len,
            dst@.len() == old(dst)@.len(),
            forall|j: int| 0 <= j < off ==> dst@[j] == old(dst)@[j],
            forall|j: int| off <= j < off + i ==> dst@[j] == src@[j - off],
            forall|j: int| off + i <= j < dst@.len() ==> dst@[j] == old(dst)@[j],
        decreases src@.len() - i,
    {
        dst.set(off + i, src[i]);
        i = i + 1;
    }
    assert(dst@ =~= overwrite(old(dst)@, off as int, src@));
}

impl Token {
    /// True once the record holds a nonzero amount.
    pub fn is_initialized(&self) -> (r: bool)
        ensures
            r == initialized(self@),
    {
        self.amount > 0
    }

    /// Decodes a record from the first 72 bytes of `src`, without asking
    /// whether it is initialised.
    pub fn unpack_from_slice(src: &[u8]) -> (r: Result<Token, TokenError>)
        ensures
            src@.len() < TOKEN_LEN ==> r == Err::<Token, TokenError>(TokenError::Malformed),
            src@.len() >= TOKEN_LEN ==> (r matches Ok(t) && t@ == token_from_bytes(src@)),
    {
        if src.len() < TOKEN_LEN {
            return Err(TokenError::Malformed);
        }
        let amount = read_u64_le(src, 0);
        let mint = Key::from_slice_at(src, 8);
        let owner = Key::from_slice_at(src, 40);
        Ok(Token { mint, owner, amount })
    }

    /// Decodes a record and asks that it be initialised.
    pub fn unpack(src: &[u8]) -> (r: Result<Token, TokenError>)
        ensures
            src@.len() < TOKEN_LEN ==> r == Err::<Token, TokenError>(TokenError::Malformed),
            src@.len() >= TOKEN_LEN && !initialized(token_from_bytes(src@))
                ==> r == Err::<Token, TokenError>(TokenError::Uninitialized),
            src@.len() >= TOKEN_LEN && initialized(token_from_bytes(src@))
                ==> (r matches Ok(t) && t@ == token_from_bytes(src@)),
    {
        let t = Token::unpack_from_slice(src)?;
        if !t.is_initialized() {
            return Err(TokenError::Uninitialized);
        }
        Ok(t)
    }

    /// Writes the record over the first 72 bytes of `dst`.
    pub fn pack_into_slice(&self, dst: &mut Vec<u8>)
        requires
            old(dst)@.len() >= TOKEN_LEN,
        ensures
            final(dst)@ == store(old(dst)@, self@),
    {
        let amount = u64_le_bytes(self.amount);
        let mint = self.mint.to_bytes();
        let owner = self.owner.to_bytes();
        write_at(dst, 0, amount.as_slice());
        write_at(dst, 8, mint.as_slice());
        write_at(dst, 40, owner.as_slice());
        assert(dst@ =~= store(old(dst)@, self@));
    }

    /// Writes the record into `dst`, which must hold at least 72 bytes.
    pub fn pack(self, dst: &mut Vec<u8>) -> (r: Result<(), TokenError>)
        ensures
            old(dst)@.len() < TOKEN_LEN ==> r == Err::<(), TokenError>(TokenError::Malformed)
                && final(dst)@ == old(dst)@,
            old(dst)@.len() >= TOKEN_LEN ==> r == Ok::<(), TokenError>(())
                && final(dst)@ == store(old(dst)@, self@),
    {
        if dst.len() < TOKEN_LEN {
            return Err(TokenError::Malformed);
        }
        self.pack_into_slice(dst);
        Ok(())
    }
}

/// Reading back a record just stored gives it again, when its identifiers
/// are 32 bytes each; the buffer keeps its length.
pub proof fn lemma_store_then_read(buf: Seq<u8>, t: TokenModel)
    requires
        buf.len() >= TOKEN_LEN,
        t.mint.len() == KEY_LEN,
        t.owner.len() == KEY_LEN,
    ensures
        token_from_bytes(store(buf, t)) == t,
        store(buf, t).len() == buf.len(),
{
    lemma_le_round_trip(t.amount);
    let b = store(buf, t);
    assert(b.subrange(0, 8) =~= le_bytes(t.amount));
    assert(b.subrange(8, 40) =~= t.mint);
    assert(b.subrange(40, 72) =~= t.owner);
}

/// Decoding what was encoded gives the record back, whatever the buffer
/// held before and however long it is beyond the 72 bytes.
pub proof fn lemma_round_trip(t: Token, buf: Seq<u8>)
    requires
        buf.len() >= TOKEN_LEN,
    ensures
        token_from_bytes(store(buf, t@)) == t@,
        store(buf, t@).len() == buf.len(),
{
    lemma_store_then_read(buf, t@);
}

/// An all-zero buffer of at least 72 bytes decodes, and to a record that is
/// not initialised.
pub proof fn lemma_zero_buffer_uninitialized(buf: Seq<u8>)
    requires
        buf.len() >= TOKEN_LEN,
        forall|i: int| 0 <= i < buf.len() ==> buf[i] == 0,
    ensures
        token_from_bytes(buf).amount == 0,
        !initialized(token_from_bytes(buf)),
{
    assert((0u8 as u64) | (0u8 as u64) << 8 | (0u8 as u64) << 16 | (0u8 as u64) << 24 | (0u8
        as u64) << 32 | (0u8 as u64) << 40 | (0u8 as u64) << 48 | (0u8 as u64) << 56 == 0)
        by (bit_vector);
}

} // verus!
