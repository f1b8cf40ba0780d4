use crate::digest::{digest_meets_difficulty, meets_difficulty, sha256, sha256_digest};
use crate::encoding::{
    append_decimal, canonical_prefix, canonical_text, encode, encode_prefix,
    lemma_canonical_text_unambiguous,
};
use crate::error::Error;
use vstd::prelude::*;

verus! {

/// One link of the chain.
#[derive(Debug, Clone)]
pub struct Block {
    prev_hash: crate::digest::Hash,
    generation: u64,
    difficulty: u8,
    data: String,
    proof: Option<u64>,
}

/// What a block holds, as plain values.
pub struct BlockView {
    /// The digest of the preceding block, all zero for a first block.
    pub prev_hash: Seq<u8>,
    /// The number of blocks before this one.
    pub generation: u64,
    /// The number of zero bits that the block's digest must end in.
    pub difficulty: u8,
    /// The payload.
    pub payload: Seq<char>,
    /// The proof, once the block is mined.
    pub proof: Option<u64>,
}

impl BlockView {
    /// The canonical text of the block up to its proof.
    pub open spec fn text_prefix(self) -> Seq<char> {
        canonical_prefix(self.prev_hash, self.generation, self.difficulty, self.payload)
    }

    /// The canonical text of the block with `proof` as its proof.
    pub open spec fn text_for(self, proof: u64) -> Seq<char> {
        canonical_text(self.prev_hash, self.generation, self.difficulty, self.payload, proof)
    }

    /// The digest that the block would have with `proof` as its proof: a
    /// function of the five fields and nothing else.
    pub open spec fn digest_for(self, proof: u64) -> Seq<u8> {
        sha256(vstd::utf8::encode_utf8(self.text_for(proof)))
    }

    /// Whether `proof` gives the block a digest that meets its difficulty.
    pub open spec fn accepts(self, proof: u64) -> bool {
        meets_difficulty(self.digest_for(proof), self.difficulty)
    }

    /// Whether the block is mined and its proof is accepted.
    pub open spec fn is_valid(self) -> bool {
        match self.proof {
            Some(p) => self.accepts(p),
            None => false,
        }
    }

    /// Whether no candidate in `[min, max)` is accepted.
    pub open spec fn rejects_all(self, min: u64, max: u64) -> bool {
        forall|q: u64| min <= q < max ==> !#[trigger] self.accepts(q)
    }

    /// Whether `found` is what a scan of `[min, max)` from below yields: the
    /// least accepted candidate of the range, or nothing where it has none.
    pub open spec fn first_accepted(self, min: u64, max: u64, found: Option<u64>) -> bool {
        match found {
            Some(p) => min <= p < max && self.accepts(p) && self.rejects_all(min, p),
            None => self.rejects_all(min, max),
        }
    }

    /// The same block with `proof` as its proof.
    pub open spec fn with_proof(self, proof: u64) -> BlockView {
        BlockView { proof: Some(proof), ..self }
    }
}

impl View for Block {
    type V = BlockView;

    closed spec fn view(&self) -> BlockView {
        BlockView {
            prev_hash: self.prev_hash@,
            generation: self.generation,
            difficulty: self.difficulty,
            payload: self.data@,
            proof: self.proof,
        }
    }
}

impl Block {
    /// The first block of a chain: no predecessor, no payload, not mined.
    pub fn initial(difficulty: u8) -> (block: Block)
        ensures
            block@ == (BlockView {
                prev_hash: Seq::new(32, |i: int| 0u8),
                generation: 0,
                difficulty,
                payload: Seq::empty(),
                proof: None,
            }),
    {
        let block = Block {
            prev_hash: [0u8; 32],
            generation: 0,
            difficulty,
            data: String::new(),
            proof: None,
        };
        assert(block.prev_hash@ =~= Seq::new(32, |i: int| 0u8));
        block
    }

    /// A block that can follow `previous`, which must be mined: it commits to
    /// the digest of `previous`, is one generation later and keeps the
    /// difficulty.
    pub fn next(previous: &Block, data: String) -> (result: Result<Block, Error>)
        requires
            previous@.generation < u64::MAX,
        ensures
            match result {
                Ok(block) => match previous@.proof {
                    Some(p) => block@ == (BlockView {
                        prev_hash: previous@.digest_for(p),
                        generation: (previous@.generation + 1) as u64,
                        difficulty: previous@.difficulty,
                        payload: data@,
                        proof: None,
                    }),
                    None => false,
                },
                Err(e) => e == Error::NotMined && previous@.proof is None,
            },
    {
        match previous.hash() {
            Ok(prev_hash) => Ok(
                Block {
                    prev_hash,
                    generation: previous.generation + 1,
                    difficulty: previous.difficulty,
                    data,
                    proof: None,
                },
            ),
            Err(e) => Err(e),
        }
    }

    /// The canonical text of the block with `proof` as its proof.
    pub fn hash_string_for_proof(&self, proof: u64) -> (text: String)
        ensures
            text@ == self@.text_for(proof),
    {
        encode(&self.prev_hash, self.generation, self.difficulty, self.data.as_str(), proof)
    }

    /// The canonical text of a mined block.
    pub fn hash_string(&self) -> (result: Result<String, Error>)
        ensures
            match result {
                Ok(text) => match self@.proof {
                    Some(p) => text@ == self@.text_for(p),
                    None => false,
                },
                Err(e) => e == Error::NotMined && self@.proof is None,
            },
    {
        match self.proof {
            Some(p) => Ok(self.hash_string_for_proof(p)),
            None => Err(Error::NotMined),
        }
    }

    /// The digest that the block would have with `proof` as its proof.
    pub fn hash_for_proof(&self, proof: u64) -> (digest: crate::digest::Hash)
        ensures
            digest@ == self@.digest_for(proof),
    {
        let text = self.hash_string_for_proof(proof);
        sha256_digest(text.as_str().as_bytes())
    }

    /// The digest of a mined block.
    pub fn hash(&self) -> (result: Result<crate::digest::Hash, Error>)
        ensures
            match result {
                Ok(digest) => match self@.proof {
                    Some(p) => digest@ == self@.digest_for(p),
                    None => false,
                },
                Err(e) => e == Error::NotMined && self@.proof is None,
            },
    {
        match self.proof {
            Some(p) => Ok(self.hash_for_proof(p)),
            None => Err(Error::NotMined),
        }
    }

    /// Sets the proof, valid or not.
    pub fn set_proof(&mut self, proof: u64)
        ensures
            final(self)@ == old(self)@.with_proof(proof),
    {
        self.proof = Some(proof);
    }

    /// Whether `proof` gives the block a digest that meets its difficulty.
    pub fn is_valid_for_proof(&self, proof: u64) -> (ok: bool)
        ensures
            ok == self@.accepts(proof),
    {
        let digest = self.hash_for_proof(proof);
        digest_meets_difficulty(&digest, self.difficulty)
    }

    /// Whether the block is mined and its proof is accepted.
    pub fn is_valid(&self) -> (ok: bool)
        ensures
            ok == self@.is_valid(),
    {
        match self.proof {
            Some(p) => self.is_valid_for_proof(p),
            None => false,
        }
    }

    /// Whether `proof` is accepted, given the block's text up to the proof.
    fn accepts_after(&self, prefix: &String, proof: u64) -> (ok: bool)
        requires
            prefix@ == self@.text_prefix(),
        ensures
            ok == self@.accepts(proof),
    {
        let mut text = prefix.clone();
        append_decimal(&mut text, proof);
        let digest = sha256_digest(text.as_str().as_bytes());
        digest_meets_difficulty(&digest, self.difficulty)
    }

    /// Tries the candidates of `[min, max)` from below and yields the first
    /// that is accepted.
    pub fn search(&self, min: u64, max: u64) -> (found: Option<u64>)
        ensures
            self@.first_accepted(min, max, found),
    {
        let prefix = encode_prefix(
            &self.prev_hash,
            self.generation,
            self.difficulty,
            self.data.as_str(),
        );
        let mut p: u64 = min;
        while p < max
            invariant
                min <= p,
                p <= max || max < min,
                prefix@ == self@.text_prefix(),
                self@.rejects_all(min, p),
            decreases max - p,
        {
            if self.accepts_after(&prefix, p) {
                return Some(p);
            }
            p += 1;
        }
        None
    }

    /// Mines by trying 0, 1, 2, ... in turn: the block gets the least proof
    /// that is accepted. Where no 64-bit proof is accepted the block stays as
    /// it is.
    pub fn mine_serial(&mut self) -> (result: Result<(), Error>)
        ensures
            match result {
                Ok(()) => exists|p: u64|
                    {
                        &&& final(self)@ == old(self)@.with_proof(p)
                        &&& #[trigger] old(self)@.accepts(p)
                        &&& old(self)@.rejects_all(0, p)
                    },
                Err(e) => {
                    &&& e == Error::ExhaustedSearch
                    &&& final(self)@ == old(self)@
                    &&& forall|q: u64| !#[trigger] old(self)@.accepts(q)
                },
            },
            result is Ok ==> final(self)@.is_valid(),
    {
        let found = match self.search(0, u64::MAX) {
            Some(p) => Some(p),
            None => if self.is_valid_for_proof(u64::MAX) {
                Some(u64::MAX)
            } else {
                None
            },
        };
        match found {
            Some(p) => {
                self.proof = Some(p);
                Ok(())
            },
            None => Err(Error::ExhaustedSearch),
        }
    }

    /// A copy of the block.
    pub fn snapshot(&self) -> (copy: Block)
        ensures
            copy@ == self@,
    {
        Block {
            prev_hash: self.prev_hash,
            generation: self.generation,
            difficulty: self.difficulty,
            data: self.data.clone(),
            proof: self.proof,
        }
    }

    /// The digest of the preceding block.
    pub fn prev_hash(&self) -> (digest: crate::digest::Hash)
        ensures
            digest@ == self@.prev_hash,
    {
        self.prev_hash
    }

    /// The number of blocks before this one.
    pub fn generation(&self) -> (generation: u64)
        ensures
            generation == self@.generation,
    {
        self.generation
    }

    /// The number of zero bits that the block's digest must end in.
    pub fn difficulty(&self) -> (difficulty: u8)
        ensures
            difficulty == self@.difficulty,
    {
        self.difficulty
    }

    /// The payload.
    pub fn data(&self) -> (data: &str)
        ensures
            data@ == self@.payload,
    {
        self.data.as_str()
    }

    /// The proof, once the block is mined.
    pub fn current_proof(&self) -> (current: Option<u64>)
        ensures
            current == self@.proof,
    {
        self.proof
    }
}

/// The digest is a function of the block's fields and the proof: blocks that
/// hold the same values get the same digest, and so the same verdict, for
/// every proof.
pub proof fn lemma_digest_is_repeatable(a: Block, b: Block, proof: u64)
    requires
        a@ == b@,
    ensures
        a@.digest_for(proof) == b@.digest_for(proof),
        a@.accepts(proof) == b@.accepts(proof),
{
}

/// The canonical text tells blocks apart: two blocks get the same text, each
/// with its candidate proof, only where they hold the same predecessor digest,
/// generation, difficulty and payload and the candidates are the same.
pub proof fn lemma_text_identifies_block(a: BlockView, p: u64, b: BlockView, q: u64)
    requires
        a.text_for(p) == b.text_for(q),
    ensures
        a.prev_hash == b.prev_hash,
        a.generation == b.generation,
        a.difficulty == b.difficulty,
        a.payload == b.payload,
        p == q,
{
    lemma_canonical_text_unambiguous(
        a.prev_hash,
        a.generation,
        a.difficulty,
        a.payload,
        p,
        b.prev_hash,
        b.generation,
        b.difficulty,
        b.payload,
        q,
    );
}

/// A block whose proof was found by a scan from below is valid.
pub proof fn lemma_found_proof_makes_valid(block: BlockView, min: u64, max: u64, p: u64)
    requires
        block.first_accepted(min, max, Some(p)),
    ensures
        block.with_proof(p).is_valid(),
{
}

} // verus!
