//! Blocks and the chain: proof-of-work mining, per-block validation,
//! whole-chain validation, and the longest-valid-chain fork choice.
//!
//! A block's hash is SHA-256 over a canonical JSON object holding the
//! block's fields other than the hash itself, with the keys in sorted
//! order. A mined hash must additionally satisfy the difficulty rule:
//! the digest bytes, each written in binary without leading zeros and
//! concatenated, must begin with two `0` characters. (Since a nonzero
//! byte's rendering begins with `1`, this is equivalent to the first
//! two digest bytes being zero; the rendering below reproduces the
//! concatenated form itself, so the equivalence is never relied on.)

use vstd::prelude::*;

use crate::clock::now_timestamp;
use crate::hashing::{hex_encode, hex_of, sha256_digest, sha256_of};
use crate::json::{append_json_escaped, json_escape};
use crate::text::{dec_int_repr, dec_repr, i64_to_dec, push_char, u64_to_dec};

verus! {

/// One unit of the ledger. Immutable once constructed; `hash` covers
/// every other field, including `previous_hash`.
#[derive(Debug)]
pub struct Block {
    pub id: u64,
    pub nonce: u64,
    pub timestamp: i64,
    pub data: String,
    pub previous_hash: String,
    pub hash: String,
}

/// The mathematical value of a block: its machine fields with the
/// strings abstracted to character sequences.
pub struct BlockView {
    pub id: u64,
    pub nonce: u64,
    pub timestamp: i64,
    pub data: Seq<char>,
    pub previous_hash: Seq<char>,
    pub hash: Seq<char>,
}

impl View for Block {
    type V = BlockView;

    open spec fn view(&self) -> BlockView {
        BlockView {
            id: self.id,
            nonce: self.nonce,
            timestamp: self.timestamp,
            data: self.data@,
            previous_hash: self.previous_hash@,
            hash: self.hash@,
        }
    }
}

impl DeepView for Block {
    type V = BlockView;

    open spec fn deep_view(&self) -> BlockView {
        self.view()
    }
}

impl Clone for Block {
    fn clone(&self) -> (r: Self)
        ensures
            r == *self,
    {
        Block {
            id: self.id,
            nonce: self.nonce,
            timestamp: self.timestamp,
            data: self.data.clone(),
            previous_hash: self.previous_hash.clone(),
            hash: self.hash.clone(),
        }
    }
}

impl PartialEq for Block {
    fn eq(&self, other: &Self) -> (r: bool) {
        self.id == other.id && self.nonce == other.nonce && self.timestamp == other.timestamp
            && self.data == other.data && self.previous_hash == other.previous_hash
            && self.hash == other.hash
    }
}

impl vstd::std_specs::cmp::PartialEqSpecImpl for Block {
    open spec fn obeys_eq_spec() -> bool {
        true
    }

    open spec fn eq_spec(&self, other: &Self) -> bool {
        self.id == other.id && self.nonce == other.nonce && self.timestamp == other.timestamp
            && self.data@ == other.data@ && self.previous_hash@ == other.previous_hash@
            && self.hash@ == other.hash@
    }
}

/// The canonical JSON object a block's hash is computed over: the keys
/// `data`, `id`, `nonce`, `previous_hash`, `timestamp` in sorted order,
/// numbers in decimal, strings escaped, no whitespace.
pub open spec fn hash_preimage(
    id: u64,
    nonce: u64,
    timestamp: i64,
    data: Seq<char>,
    previous_hash: Seq<char>,
) -> Seq<char> {
    "{\"data\":\""@ + json_escape(data) + "\",\"id\":"@ + dec_repr(id as nat) + ",\"nonce\":"@
        + dec_repr(nonce as nat) + ",\"previous_hash\":\""@ + json_escape(previous_hash)
        + "\",\"timestamp\":"@ + dec_int_repr(timestamp as int) + "}"@
}

/// Builds the canonical hash preimage of a block's fields.
pub fn build_preimage(
    id: u64,
    nonce: u64,
    timestamp: i64,
    data: &str,
    previous_hash: &str,
) -> (r: String)
    ensures
        r@ == hash_preimage(id, nonce, timestamp, data@, previous_hash@),
{
    let mut s = String::new();
    s.append("{\"data\":\"");
    append_json_escaped(&mut s, data);
    s.append("\",\"id\":");
    let id_dec = u64_to_dec(id);
    s.append(id_dec.as_str());
    s.append(",\"nonce\":");
    let nonce_dec = u64_to_dec(nonce);
    s.append(nonce_dec.as_str());
    s.append(",\"previous_hash\":\"");
    append_json_escaped(&mut s, previous_hash);
    s.append("\",\"timestamp\":");
    let ts_dec = i64_to_dec(timestamp);
    s.append(ts_dec.as_str());
    s.append("}");
    proof {
        assert(s@ =~= hash_preimage(id, nonce, timestamp, data@, previous_hash@));
    }
    s
}

/// Binary rendering of a natural number, most significant bit first,
/// with no leading zeros (`0` itself renders as `"0"`).
pub open spec fn bin_repr(n: nat) -> Seq<char>
    decreases n,
{
    if n < 2 {
        seq![if n == 0 { '0' } else { '1' }]
    } else {
        bin_repr(n / 2).push(if n % 2 == 0 { '0' } else { '1' })
    }
}

/// The concatenated binary renderings of a digest's bytes.
pub open spec fn hash_bits(h: Seq<u8>) -> Seq<char>
    decreases h.len(),
{
    if h.len() == 0 {
        Seq::empty()
    } else {
        bin_repr(h.first() as nat) + hash_bits(h.drop_first())
    }
}

/// The difficulty rule: the concatenated bit rendering of the digest
/// begins with the prefix of two `0` characters.
pub open spec fn meets_difficulty(h: Seq<u8>) -> bool {
    hash_bits(h).len() >= 2 && hash_bits(h)[0] == '0' && hash_bits(h)[1] == '0'
}

fn byte_bin(n: u8) -> (r: String)
    ensures
        r@ == bin_repr(n as nat),
    decreases n,
{
    if n < 2 {
        let mut s = String::new();
        push_char(&mut s, if n == 0 { '0' } else { '1' });
        s
    } else {
        let mut s = byte_bin(n / 2);
        push_char(&mut s, if n % 2 == 0 { '0' } else { '1' });
        s
    }
}

proof fn lemma_hash_bits_push(h: Seq<u8>, b: u8)
    ensures
        hash_bits(h.push(b)) == hash_bits(h) + bin_repr(b as nat),
    decreases h.len(),
{
    if h.len() == 0 {
        assert(h.push(b).drop_first() =~= Seq::<u8>::empty());
        assert(hash_bits(Seq::<u8>::empty()) == Seq::<char>::empty());
        assert(hash_bits(h.push(b)) =~= hash_bits(h) + bin_repr(b as nat));
    } else {
        assert(h.push(b).drop_first() =~= h.drop_first().push(b));
        assert(h.push(b).first() == h.first());
        lemma_hash_bits_push(h.drop_first(), b);
        assert(hash_bits(h.push(b)) =~= hash_bits(h) + bin_repr(b as nat));
    }
}

/// Renders a digest as the concatenated binary strings of its bytes.
pub fn hash2binary(hash: &Vec<u8>) -> (r: String)
    ensures
        r@ == hash_bits(hash@),
{
    let mut s = String::new();
    let n = hash.len();
    let mut i: usize = 0;
    while i < n
        invariant
            n == hash@.len(),
            i <= n,
            s@ == hash_bits(hash@.take(i as int)),
        decreases n - i,
    {
        let piece = byte_bin(hash[i]);
        s.append(piece.as_str());
        proof {
            assert(hash@.take(i + 1 as int) =~= hash@.take(i as int).push(hash@[i as int]));
            lemma_hash_bits_push(hash@.take(i as int), hash@[i as int]);
        }
        i = i + 1;
    }
    proof {
        assert(hash@.take(n as int) =~= hash@);
    }
    s
}

/// Checks the difficulty rule on a digest, through its bit rendering.
fn check_difficulty(digest: &Vec<u8>) -> (r: bool)
    ensures
        r == meets_difficulty(digest@),
{
    let bits = hash2binary(digest);
    let s = bits.as_str();
    let n = s.unicode_len();
    if n < 2 {
        false
    } else {
        s.get_char(0) == '0' && s.get_char(1) == '0'
    }
}

/// A block is mined when its stored hash is the hex digest of its
/// canonical preimage and that digest meets the difficulty rule.
#[verifier::opaque]
pub open spec fn block_mined(b: BlockView) -> bool {
    let digest = sha256_of(hash_preimage(b.id, b.nonce, b.timestamp, b.data, b.previous_hash));
    b.hash == hex_of(digest) && meets_difficulty(digest)
}

/// What `is_valid` decides: the block links to its predecessor by hash
/// and by index, and is itself correctly mined.
pub open spec fn block_valid(b: BlockView, previous: BlockView) -> bool {
    &&& b.previous_hash == previous.hash
    &&& b.id == previous.id + 1
    &&& block_mined(b)
}

/// Searches nonces from 0 upward for a hash meeting the difficulty
/// rule, returning the least such nonce — so two calls with equal
/// arguments return the identical pair on every node. `None` only if
/// the entire nonce space holds no such hash.
pub fn mine_block(id: u64, timestamp: i64, data: &str, previous_hash: &str) -> (r: Option<
    (u64, String),
>)
    ensures
        r matches Some((nonce, hash)) ==> {
            let digest = sha256_of(hash_preimage(id, nonce, timestamp, data@, previous_hash@));
            hash@ == hex_of(digest) && meets_difficulty(digest)
        },
        r matches Some((nonce, hash)) ==> forall|m: u64|
            m < nonce ==> !meets_difficulty(
                sha256_of(#[trigger] hash_preimage(id, m, timestamp, data@, previous_hash@)),
            ),
        r is None ==> forall|nonce: u64|
            !meets_difficulty(
                sha256_of(#[trigger] hash_preimage(id, nonce, timestamp, data@, previous_hash@)),
            ),
{
    let mut nonce: u64 = 0;
    loop
        invariant
            forall|m: u64|
                m < nonce ==> !meets_difficulty(
                    sha256_of(#[trigger] hash_preimage(id, m, timestamp, data@, previous_hash@)),
                ),
        decreases u64::MAX - nonce,
    {
        let preimage = build_preimage(id, nonce, timestamp, data, previous_hash);
        let digest = sha256_digest(preimage.as_str());
        if check_difficulty(&digest) {
            let hash = hex_encode(&digest);
            return Some((nonce, hash));
        }
        if nonce == u64::MAX {
            return None;
        }
        nonce = nonce + 1;
    }
}

/// The fixed genesis block's field values.
pub open spec fn is_genesis(b: BlockView) -> bool {
    &&& b.id == 0
    &&& b.nonce == 7028
    &&& b.timestamp == 1_000_000_000
    &&& b.data == "genesis"@
    &&& b.previous_hash == "0000"@
    &&& b.hash == "000070b5e654cb2f8d04cb9b409eecf73a32016093a73b2f16adbd150730efd4"@
}

/// No nonce at all yields a hash meeting the difficulty rule for these
/// fields: mining can only fail this way.
pub open spec fn unminable(id: u64, ts: i64, data: Seq<char>, previous_hash: Seq<char>) -> bool {
    forall|nonce: u64|
        !meets_difficulty(sha256_of(#[trigger] hash_preimage(id, nonce, ts, data, previous_hash)))
}

impl Block {
    /// Mines a new block over the given payload and predecessor hash,
    /// stamped with the current time. `None` only if, for the stamped
    /// timestamp, no nonce at all yields a hash meeting the difficulty
    /// rule.
    pub fn new(id: u64, data: String, previous_hash: String) -> (r: Option<Block>)
        ensures
            r matches Some(b) ==> b.id == id && b.data@ == data@ && b.previous_hash@
                == previous_hash@ && block_mined(b@),
            r matches Some(b) ==> forall|m: u64|
                m < b.nonce ==> !meets_difficulty(
                    sha256_of(#[trigger] hash_preimage(id, m, b.timestamp, data@, previous_hash@)),
                ),
            r is None ==> exists|ts: i64| unminable(id, ts, data@, previous_hash@),
    {
        let timestamp = now_timestamp();
        match mine_block(id, timestamp, data.as_str(), previous_hash.as_str()) {
            Some((nonce, hash)) => {
                proof {
                    reveal(block_mined);
                }
                Some(Block { id, nonce, timestamp, data, previous_hash, hash })
            },
            None => {
                proof {
                    assert(unminable(id, timestamp, data@, previous_hash@));
                }
                None
            },
        }
    }

    /// The fixed genesis block every node starts from: index 0, payload
    /// `genesis`, a placeholder previous hash, and a pre-mined nonce and
    /// hash, identical on every node.
    pub fn genesis() -> (b: Block)
        ensures
            is_genesis(b@),
    {
        Block {
            id: 0,
            nonce: 7028,
            timestamp: 1_000_000_000,
            data: "genesis".to_owned(),
            previous_hash: "0000".to_owned(),
            hash: "000070b5e654cb2f8d04cb9b409eecf73a32016093a73b2f16adbd150730efd4".to_owned(),
        }
    }

    /// Decides whether this block is the valid successor of `previous`:
    /// the previous-hash link, the difficulty rule, the index link, and
    /// the recomputed hash are all checked.
    pub fn is_valid(&self, previous: &Block) -> (r: bool)
        ensures
            r == block_valid(self@, previous@),
    {
        proof {
            reveal(block_mined);
        }
        if !self.previous_hash.eq(&previous.hash) {
            return false;
        }
        if previous.id == u64::MAX {
            return false;
        }
        if self.id != previous.id + 1 {
            return false;
        }
        let preimage = build_preimage(
            self.id,
            self.nonce,
            self.timestamp,
            self.data.as_str(),
            self.previous_hash.as_str(),
        );
        let digest = sha256_digest(preimage.as_str());
        if !check_difficulty(&digest) {
            return false;
        }
        let recomputed = hex_encode(&digest);
        recomputed.eq(&self.hash)
    }
}

impl Default for Block {
    /// The genesis block.
    fn default() -> (b: Self)
        ensures
            is_genesis(b@),
    {
        Block::genesis()
    }
}

/// The unrecoverable conditions: they correspond to states the design
/// treats as fatal invariant violations, surfaced as explicit errors
/// rather than aborts.
#[derive(Clone, Copy, Debug, PartialEq, Eq, Structural)]
pub enum LedgerError {
    /// The chain holds no block at all; the genesis invariant is broken.
    EmptyChain,
    /// The tail already carries the greatest representable index.
    IndexSpaceExhausted,
    /// The whole nonce space held no hash meeting the difficulty rule.
    MiningExhausted,
    /// Both the local and the remote chain fail validation.
    BothChainsInvalid,
}

/// The outcome of the fork-choice rule.
#[derive(Clone, Copy, Debug, PartialEq, Eq, Structural)]
pub enum ForkChoice {
    /// The local chain is kept.
    LocalWins,
    /// The remote chain replaces the local one.
    RemoteWins,
    /// Both chains are invalid; no side may be picked.
    Incomparable,
}

/// A chain is valid when every adjacent pair of blocks validates
/// pairwise; chains shorter than two blocks are trivially valid.
pub open spec fn chain_valid(blocks: Seq<BlockView>) -> bool {
    forall|i: int| 1 <= i < blocks.len() ==> block_valid(#[trigger] blocks[i], blocks[i - 1])
}

/// The fork-choice rule: if exactly one chain is valid it wins; if both
/// are valid the longer wins, ties keeping the local side; if neither
/// is valid no side may be picked.
pub open spec fn fork_choice(local: Seq<BlockView>, remote: Seq<BlockView>) -> ForkChoice {
    if !chain_valid(local) && !chain_valid(remote) {
        ForkChoice::Incomparable
    } else if !chain_valid(local) {
        ForkChoice::RemoteWins
    } else if !chain_valid(remote) {
        ForkChoice::LocalWins
    } else if remote.len() > local.len() {
        ForkChoice::RemoteWins
    } else {
        ForkChoice::LocalWins
    }
}

/// Appending a block that validates against the tail preserves chain
/// validity: a chain built solely by such appends is valid at every
/// length.
pub proof fn lemma_chain_valid_push(blocks: Seq<BlockView>, b: BlockView)
    requires
        blocks.len() >= 1,
        chain_valid(blocks),
        block_valid(b, blocks.last()),
    ensures
        chain_valid(blocks.push(b)),
{
    let pushed = blocks.push(b);
    assert forall|i: int| 1 <= i < pushed.len() implies block_valid(
        #[trigger] pushed[i],
        pushed[i - 1],
    ) by {
        if i < blocks.len() {
            assert(pushed[i] == blocks[i]);
            assert(pushed[i - 1] == blocks[i - 1]);
        } else {
            assert(pushed[i] == b);
            assert(pushed[i - 1] == blocks.last());
        }
    }
}

/// The ordered, non-empty sequence of blocks a node maintains; index 0
/// is the genesis block.
#[derive(Debug)]
pub struct Chain {
    pub blocks: Vec<Block>,
}

fn clone_blocks(v: &Vec<Block>) -> (r: Vec<Block>)
    ensures
        r@ == v@,
{
    let mut r: Vec<Block> = Vec::new();
    let n = v.len();
    let mut i: usize = 0;
    while i < n
        invariant
            n == v@.len(),
            i <= n,
            r@ =~= v@.take(i as int),
        decreases n - i,
    {
        r.push(v[i].clone());
        proof {
            assert(v@.take(i + 1 as int) =~= v@.take(i as int).push(v@[i as int]));
        }
        i = i + 1;
    }
    proof {
        assert(v@.take(n as int) =~= v@);
    }
    r
}

impl Clone for Chain {
    fn clone(&self) -> (r: Self)
        ensures
            r.blocks@ == self.blocks@,
    {
        Chain { blocks: clone_blocks(&self.blocks) }
    }
}

impl Default for Chain {
    /// A chain holding only the genesis block; trivially valid.
    fn default() -> (c: Self)
        ensures
            c.blocks@.len() == 1,
            is_genesis(c.blocks.deep_view()[0]),
            chain_valid(c.blocks.deep_view()),
    {
        let mut blocks: Vec<Block> = Vec::new();
        blocks.push(Block::genesis());
        Chain { blocks }
    }
}

impl Chain {
    /// Validates the candidate against the current tail; appends it and
    /// returns true exactly when it is valid. This is the only mutation
    /// path for externally sourced single blocks: it never rewinds or
    /// replaces history.
    pub fn try_add_block(&mut self, block: Block) -> (r: bool)
        requires
            old(self).blocks@.len() >= 1,
        ensures
            r == block_valid(block@, old(self).blocks.deep_view().last()),
            r ==> final(self).blocks@ == old(self).blocks@.push(block),
            !r ==> final(self).blocks@ == old(self).blocks@,
            chain_valid(old(self).blocks.deep_view()) ==> chain_valid(final(self).blocks.deep_view()),
    {
        let ghost old_dv = self.blocks.deep_view();
        let valid = block.is_valid(&self.blocks[self.blocks.len() - 1]);
        proof {
            assert(old_dv.last() == self.blocks@[self.blocks@.len() - 1]@);
        }
        if valid {
            proof {
                if chain_valid(old_dv) {
                    lemma_chain_valid_push(old_dv, block@);
                }
            }
            self.blocks.push(block);
            proof {
                assert(self.blocks.deep_view() =~= old_dv.push(block@));
            }
            true
        } else {
            false
        }
    }

    /// Mines a block over the payload, chained off the current tail,
    /// appends it, and returns it for broadcast. Errors are the fatal
    /// conditions (no genesis, index space spent) and the nonce space
    /// holding no valid hash; the chain is unchanged on any error.
    pub fn add_data(&mut self, data: String) -> (r: Result<Block, LedgerError>)
        ensures
            old(self).blocks@.len() == 0 ==> r == Err::<Block, LedgerError>(
                LedgerError::EmptyChain,
            ),
            old(self).blocks@.len() >= 1 && old(self).blocks.deep_view().last().id == u64::MAX
                ==> r == Err::<Block, LedgerError>(LedgerError::IndexSpaceExhausted),
            r matches Ok(b) ==> {
                &&& old(self).blocks@.len() >= 1
                &&& b.id == old(self).blocks.deep_view().last().id + 1
                &&& b.previous_hash@ == old(self).blocks.deep_view().last().hash
                &&& b.data@ == data@
                &&& block_mined(b@)
                &&& block_valid(b@, old(self).blocks.deep_view().last())
                &&& final(self).blocks@ == old(self).blocks@.push(b)
            },
            r matches Ok(b) ==> forall|m: u64|
                m < b.nonce ==> !meets_difficulty(
                    sha256_of(
                        #[trigger] hash_preimage(b.id, m, b.timestamp, data@, b.previous_hash@),
                    ),
                ),
            r matches Ok(b) && chain_valid(old(self).blocks.deep_view()) ==> chain_valid(
                final(self).blocks.deep_view(),
            ),
            r is Err ==> final(self).blocks@ == old(self).blocks@,
            old(self).blocks@.len() >= 1 && old(self).blocks.deep_view().last().id < u64::MAX && r
                is Err ==> r == Err::<Block, LedgerError>(LedgerError::MiningExhausted),
            r == Err::<Block, LedgerError>(LedgerError::MiningExhausted) ==> exists|ts: i64|
                #[trigger] unminable(
                    (old(self).blocks.deep_view().last().id + 1) as u64,
                    ts,
                    data@,
                    old(self).blocks.deep_view().last().hash,
                ),
    {
        if self.blocks.len() == 0 {
            return Err(LedgerError::EmptyChain);
        }
        let ghost old_dv = self.blocks.deep_view();
        proof {
            assert(old_dv.last() == self.blocks@[self.blocks@.len() - 1]@);
        }
        let tail_id = self.blocks[self.blocks.len() - 1].id;
        if tail_id == u64::MAX {
            return Err(LedgerError::IndexSpaceExhausted);
        }
        let tail_hash = self.blocks[self.blocks.len() - 1].hash.clone();
        match Block::new(tail_id + 1, data, tail_hash) {
            Some(b) => {
                let out = b.clone();
                proof {
                    if chain_valid(old_dv) {
                        lemma_chain_valid_push(old_dv, b@);
                    }
                }
                self.blocks.push(b);
                proof {
                    assert(self.blocks.deep_view() =~= old_dv.push(out@));
                }
                Ok(out)
            },
            None => {
                proof {
                    let ts = choose|ts: i64|
                        #[trigger] unminable((tail_id + 1) as u64, ts, data@, tail_hash@);
                    assert(unminable(
                        (old_dv.last().id + 1) as u64,
                        ts,
                        data@,
                        old_dv.last().hash,
                    ));
                }
                Err(LedgerError::MiningExhausted)
            },
        }
    }

    /// Full-chain validation: every adjacent pair must validate.
    pub fn is_valid(&self) -> (r: bool)
        ensures
            r == chain_valid(self.blocks.deep_view()),
    {
        let n = self.blocks.len();
        if n < 2 {
            return true;
        }
        let mut i: usize = 1;
        while i < n
            invariant
                n == self.blocks@.len(),
                1 <= i <= n,
                forall|j: int|
                    1 <= j < i ==> block_valid(
                        #[trigger] self.blocks.deep_view()[j],
                        self.blocks.deep_view()[j - 1],
                    ),
            decreases n - i,
        {
            let pair_ok = self.blocks[i].is_valid(&self.blocks[i - 1]);
            proof {
                assert(self.blocks.deep_view()[i as int] == self.blocks@[i as int]@);
                assert(self.blocks.deep_view()[i - 1 as int] == self.blocks@[i - 1 as int]@);
            }
            if !pair_ok {
                return false;
            }
            i = i + 1;
        }
        true
    }

    /// The fork-choice rule, with this chain as the local side.
    pub fn compare(&self, remote: &Chain) -> (r: ForkChoice)
        ensures
            r == fork_choice(self.blocks.deep_view(), remote.blocks.deep_view()),
    {
        let local_valid = self.is_valid();
        let remote_valid = remote.is_valid();
        if !local_valid && !remote_valid {
            ForkChoice::Incomparable
        } else if !local_valid {
            ForkChoice::RemoteWins
        } else if !remote_valid {
            ForkChoice::LocalWins
        } else if remote.blocks.len() > self.blocks.len() {
            ForkChoice::RemoteWins
        } else {
            ForkChoice::LocalWins
        }
    }

    /// Reconciliation: replaces the local blocks wholesale with the
    /// remote ones exactly when the fork choice says the remote side
    /// wins; keeps them otherwise. Both sides invalid is unrecoverable
    /// local-state corruption and is surfaced as an error, the chain
    /// untouched.
    pub fn choose_chain(&mut self, remote: &Chain) -> (r: Result<(), LedgerError>)
        ensures
            fork_choice(old(self).blocks.deep_view(), remote.blocks.deep_view())
                == ForkChoice::Incomparable ==> r == Err::<(), LedgerError>(
                LedgerError::BothChainsInvalid,
            ) && final(self).blocks@ == old(self).blocks@,
            fork_choice(old(self).blocks.deep_view(), remote.blocks.deep_view())
                == ForkChoice::RemoteWins ==> r == Ok::<(), LedgerError>(()) && final(self).blocks@
                == remote.blocks@,
            fork_choice(old(self).blocks.deep_view(), remote.blocks.deep_view())
                == ForkChoice::LocalWins ==> r == Ok::<(), LedgerError>(()) && final(self).blocks@
                == old(self).blocks@,
    {
        match self.compare(remote) {
            ForkChoice::Incomparable => Err(LedgerError::BothChainsInvalid),
            ForkChoice::RemoteWins => {
                self.blocks = clone_blocks(&remote.blocks);
                Ok(())
            },
            ForkChoice::LocalWins => Ok(()),
        }
    }
}

/// A freshly constructed block chained off a previous block — next
/// index, linked by hash, correctly mined — is valid against it.
pub proof fn lemma_mined_successor_valid(b: BlockView, previous: BlockView)
    requires
        b.id == previous.id + 1,
        b.previous_hash == previous.hash,
        block_mined(b),
    ensures
        block_valid(b, previous),
{
}

/// The hash binds the fields it is linked through: changing a valid
/// block's `id`, `previous_hash` or `hash` alone makes it invalid. (For
/// the fields under the digest — nonce, timestamp, payload — the same
/// claim rests on collision resistance of the digest, which an
/// uninterpreted digest cannot supply; those mutations are exercised by
/// tests.)
pub proof fn lemma_single_field_tamper_detected(b: BlockView, t: BlockView, previous: BlockView)
    requires
        block_valid(b, previous),
        t.nonce == b.nonce && t.timestamp == b.timestamp && t.data == b.data,
        (t.id != b.id && t.previous_hash == b.previous_hash && t.hash == b.hash) || (t.id == b.id
            && t.previous_hash != b.previous_hash && t.hash == b.hash) || (t.id == b.id
            && t.previous_hash == b.previous_hash && t.hash != b.hash),
    ensures
        !block_valid(t, previous),
{
    reveal(block_mined);
    if t.id == b.id && t.previous_hash == b.previous_hash && t.hash != b.hash {
        assert(hash_preimage(t.id, t.nonce, t.timestamp, t.data, t.previous_hash)
            == hash_preimage(b.id, b.nonce, b.timestamp, b.data, b.previous_hash));
    }
}

/// Fork choice is antisymmetric on length for two valid chains of
/// different lengths: the longer side wins no matter which side calls
/// the comparison as local.
pub proof fn lemma_fork_choice_longer_wins(a: Seq<BlockView>, b: Seq<BlockView>)
    requires
        chain_valid(a),
        chain_valid(b),
        a.len() != b.len(),
    ensures
        fork_choice(a, b) == ForkChoice::RemoteWins <==> b.len() > a.len(),
        fork_choice(a, b) == ForkChoice::RemoteWins <==> fork_choice(b, a) == ForkChoice::LocalWins,
{
}

/// Fork-choice ties — equal length, both valid — keep whichever side
/// calls the comparison as local; neither call replaces.
pub proof fn lemma_fork_choice_tie_keeps_local(a: Seq<BlockView>, b: Seq<BlockView>)
    requires
        chain_valid(a),
        chain_valid(b),
        a.len() == b.len(),
    ensures
        fork_choice(a, b) == ForkChoice::LocalWins,
        fork_choice(b, a) == ForkChoice::LocalWins,
{
}

} // verus!
