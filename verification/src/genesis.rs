//! The genesis variant of blocks and headers: the block that opens an
//! epoch, carrying the slot-leader schedule instead of transactions.

use vstd::prelude::*;

verus! {

use crate::cbor::{
    Value,
    ValueModel,
    DecodeError,
    ErrorKind,
    result_models,
    value_models,
    spec_u32,
    spec_array,
    spec_iarray,
    expect_u32,
    expect_array,
    expect_iarray,
    take_field,
    array2,
    array3,
    array5,
    clone_value,
    clone_value_vec,
    iarray_from,
};
use crate::types::{ProtocolMagic, HeaderHash, BlockHeaderAttributes, HASH_SIZE};

/// The proof binding a genesis header to its body: one digest.
#[derive(Debug, PartialEq, Eq)]
pub struct BodyProof(pub HeaderHash);

impl View for BodyProof {
    type V = Seq<u8>;

    open spec fn view(&self) -> Seq<u8> {
        self.0@
    }
}

impl BodyProof {
    /// The tree a genesis body proof encodes to: its digest bytes.
    pub open spec fn model_encoded(m: Seq<u8>) -> ValueModel {
        ValueModel::Bytes(m)
    }

    /// The proof a tree decodes to: a 32-byte digest.
    pub open spec fn spec_decoded(v: ValueModel) -> Result<Seq<u8>, ErrorKind> {
        HeaderHash::spec_decoded(v)
    }

    pub fn encode(&self) -> (r: Value)
        ensures
            r@ == Self::model_encoded(self@),
    {
        self.0.encode()
    }

    pub fn decode(value: Value) -> (r: Result<BodyProof, DecodeError>)
        ensures
            result_models(r, Self::spec_decoded(value@)),
    {
        match HeaderHash::decode(value) {
            Ok(h) => Ok(BodyProof(h)),
            Err(e) => Err(e.embed("While decoding BodyProof")),
        }
    }

    /// Decoding an encoded genesis body proof gives it back.
    pub proof fn lemma_roundtrip(m: Seq<u8>)
        requires
            m.len() == HASH_SIZE,
        ensures
            Self::spec_decoded(Self::model_encoded(m)) == Ok::<Seq<u8>, ErrorKind>(m),
    {
    }
}

/// The body of a genesis block: the slot-leader schedule of the opening
/// epoch, kept as raw trees.
#[derive(Debug, PartialEq, Eq)]
pub struct Body {
    pub slot_leaders: Vec<Value>,
}

impl View for Body {
    type V = Seq<ValueModel>;

    open spec fn view(&self) -> Seq<ValueModel> {
        value_models(self.slot_leaders@)
    }
}

impl Body {
    /// The tree a genesis body encodes to: the leaders, one after another.
    pub open spec fn model_encoded(m: Seq<ValueModel>) -> ValueModel {
        ValueModel::IArray(m)
    }

    /// The body a tree decodes to: any indefinite-length array, whole.
    pub open spec fn spec_decoded(v: ValueModel) -> Result<Seq<ValueModel>, ErrorKind> {
        spec_iarray(v)
    }

    pub fn encode(&self) -> (r: Value)
        ensures
            r@ == Self::model_encoded(self@),
    {
        iarray_from(clone_value_vec(&self.slot_leaders))
    }

    pub fn decode(value: Value) -> (r: Result<Body, DecodeError>)
        ensures
            r matches Ok(b) ==> Self::spec_decoded(value@) == Ok::<_, ErrorKind>(b@),
            r matches Err(e) ==> Self::spec_decoded(value@) matches Err(k) && e.kind() == k,
    {
        match expect_iarray(value) {
            Ok(elems) => Ok(Body { slot_leaders: elems }),
            Err(e) => Err(e.embed("While decoding genesis::Body")),
        }
    }

    /// Decoding an encoded genesis body gives it back.
    pub proof fn lemma_roundtrip(m: Seq<ValueModel>)
        ensures
            Self::spec_decoded(Self::model_encoded(m)) == Ok::<Seq<ValueModel>, ErrorKind>(m),
    {
    }
}

/// The consensus data of a genesis header: the epoch it opens and the chain
/// difficulty reached there.
#[derive(Debug, Clone, Copy, PartialEq, Eq, Structural)]
pub struct Consensus {
    pub epoch: u32,
    pub chain_difficulty: u32,
}

impl View for Consensus {
    type V = Consensus;

    open spec fn view(&self) -> Consensus {
        *self
    }
}

impl Consensus {
    /// The tree genesis consensus data encodes to.  The difficulty is
    /// carried wrapped in a one-element array.
    pub open spec fn spec_encoded(self) -> ValueModel {
        ValueModel::Array(
            seq![
                ValueModel::U64(self.epoch as u64),
                ValueModel::Array(seq![ValueModel::U64(self.chain_difficulty as u64)]),
            ],
        )
    }

    /// The consensus data a tree decodes to.  The difficulty array must
    /// hold at least one element; the first one counts.
    pub open spec fn spec_decoded(v: ValueModel) -> Result<Consensus, ErrorKind> {
        match spec_array(v) {
            Err(k) => Err(k),
            Ok(s) => if s.len() < 1 {
                Err(ErrorKind::MissingField)
            } else {
                match spec_u32(s[0]) {
                    Err(k) => Err(k),
                    Ok(epoch) => if s.len() < 2 {
                        Err(ErrorKind::MissingField)
                    } else {
                        match spec_array(s[1]) {
                            Err(k) => Err(k),
                            Ok(inner) => if inner.len() < 1 {
                                Err(ErrorKind::MissingField)
                            } else {
                                match spec_u32(inner[0]) {
                                    Err(k) => Err(k),
                                    Ok(chain_difficulty) => if s.len() > 2 {
                                        Err(ErrorKind::UnparsedValues)
                                    } else {
                                        Ok(Consensus { epoch, chain_difficulty })
                                    },
                                }
                            },
                        }
                    },
                }
            },
        }
    }

    pub fn encode(&self) -> (r: Value)
        ensures
            r@ == self.spec_encoded(),
    {
        let mut inner: Vec<Value> = Vec::new();
        inner.push(Value::U64(self.chain_difficulty as u64));
        proof {
            crate::cbor::lemma_value_models_index(inner@);
            assert(value_models(inner@) =~= seq![ValueModel::U64(self.chain_difficulty as u64)]);
        }
        array2(Value::U64(self.epoch as u64), Value::Array(inner))
    }

    pub fn decode(value: Value) -> (r: Result<Consensus, DecodeError>)
        ensures
            result_models(r, Self::spec_decoded(value@)),
    {
        let mut arr = match expect_array(value) {
            Ok(a) => a,
            Err(e) => {
                return Err(e.embed("While decoding genesis::Consensus"));
            },
        };
        let f0 = match take_field(&mut arr, "epoch") {
            Ok(v) => v,
            Err(e) => {
                return Err(e.embed("While decoding genesis::Consensus"));
            },
        };
        let epoch = match expect_u32(f0) {
            Ok(n) => n,
            Err(e) => {
                return Err(e.embed("epoch").embed("While decoding genesis::Consensus"));
            },
        };
        let f1 = match take_field(&mut arr, "chain_difficulty") {
            Ok(v) => v,
            Err(e) => {
                return Err(e.embed("While decoding genesis::Consensus"));
            },
        };
        let mut inner = match expect_array(f1) {
            Ok(a) => a,
            Err(e) => {
                return Err(e.embed("chain_difficulty").embed("While decoding genesis::Consensus"));
            },
        };
        let d0 = match take_field(&mut inner, "chain_difficulty") {
            Ok(v) => v,
            Err(e) => {
                return Err(e.embed("chain_difficulty").embed("While decoding genesis::Consensus"));
            },
        };
        let chain_difficulty = match expect_u32(d0) {
            Ok(n) => n,
            Err(e) => {
                return Err(e.embed("chain_difficulty").embed("While decoding genesis::Consensus"));
            },
        };
        if arr.len() > 0 {
            return Err(DecodeError::Cause(ErrorKind::UnparsedValues).embed(
                "While decoding genesis::Consensus",
            ));
        }
        Ok(Consensus { epoch, chain_difficulty })
    }

    /// Decoding encoded genesis consensus data gives it back.
    pub proof fn lemma_roundtrip(self)
        ensures
            Self::spec_decoded(self.spec_encoded()) == Ok::<Consensus, ErrorKind>(self),
    {
    }
}

/// The model of a genesis block header.
pub struct BlockHeaderModel {
    pub protocol_magic: ProtocolMagic,
    pub previous_header: Seq<u8>,
    pub body_proof: Seq<u8>,
    pub consensus: Consensus,
    pub extra_data: ValueModel,
}

/// A genesis block header.  Its previous-header digest points at the last
/// block of the epoch before.
#[derive(Debug, PartialEq, Eq)]
pub struct BlockHeader {
    pub protocol_magic: ProtocolMagic,
    pub previous_header: HeaderHash,
    pub body_proof: BodyProof,
    pub consensus: Consensus,
    pub extra_data: BlockHeaderAttributes,
}

impl View for BlockHeader {
    type V = BlockHeaderModel;

    open spec fn view(&self) -> BlockHeaderModel {
        BlockHeaderModel {
            protocol_magic: self.protocol_magic@,
            previous_header: self.previous_header@,
            body_proof: self.body_proof@,
            consensus: self.consensus@,
            extra_data: self.extra_data@,
        }
    }
}

impl BlockHeader {
    pub fn new(
        pm: ProtocolMagic,
        pb: HeaderHash,
        bp: BodyProof,
        c: Consensus,
        ed: BlockHeaderAttributes,
    ) -> (r: BlockHeader)
        ensures
            r@ == (BlockHeaderModel {
                protocol_magic: pm@,
                previous_header: pb@,
                body_proof: bp@,
                consensus: c@,
                extra_data: ed@,
            }),
    {
        BlockHeader {
            protocol_magic: pm,
            previous_header: pb,
            body_proof: bp,
            consensus: c,
            extra_data: ed,
        }
    }

    /// The tree a genesis header encodes to: the five fields in order.
    pub open spec fn model_encoded(m: BlockHeaderModel) -> ValueModel {
        ValueModel::Array(
            seq![
                m.protocol_magic.spec_encoded(),
                ValueModel::Bytes(m.previous_header),
                BodyProof::model_encoded(m.body_proof),
                m.consensus.spec_encoded(),
                m.extra_data,
            ],
        )
    }

    /// The genesis header a tree decodes to, or why it is refused.
    pub open spec fn spec_decoded(v: ValueModel) -> Result<BlockHeaderModel, ErrorKind> {
        match spec_array(v) {
            Err(k) => Err(k),
            Ok(s) => if s.len() < 1 {
                Err(ErrorKind::MissingField)
            } else {
                match ProtocolMagic::spec_decoded(s[0]) {
                    Err(k) => Err(k),
                    Ok(protocol_magic) => if s.len() < 2 {
                        Err(ErrorKind::MissingField)
                    } else {
                        match HeaderHash::spec_decoded(s[1]) {
                            Err(k) => Err(k),
                            Ok(previous_header) => if s.len() < 3 {
                                Err(ErrorKind::MissingField)
                            } else {
                                match BodyProof::spec_decoded(s[2]) {
                                    Err(k) => Err(k),
                                    Ok(body_proof) => if s.len() < 4 {
                                        Err(ErrorKind::MissingField)
                                    } else {
                                        match Consensus::spec_decoded(s[3]) {
                                            Err(k) => Err(k),
                                            Ok(consensus) => if s.len() < 5 {
                                                Err(ErrorKind::MissingField)
                                            } else {
                                                let extra_data = s[4];
                                                if s.len() > 5 {
                                                    Err(ErrorKind::UnparsedValues)
                                                } else {
                                                    Ok(
                                                        BlockHeaderModel {
                                                            protocol_magic,
                                                            previous_header,
                                                            body_proof,
                                                            consensus,
                                                            extra_data,
                                                        },
                                                    )
                                                }
                                            },
                                        }
                                    },
                                }
                            },
                        }
                    },
                }
            },
        }
    }

    pub fn encode(&self) -> (r: Value)
        ensures
            r@ == Self::model_encoded(self@),
    {
        array5(
            self.protocol_magic.encode(),
            self.previous_header.encode(),
            self.body_proof.encode(),
            self.consensus.encode(),
            self.extra_data.encode(),
        )
    }

    pub fn decode(value: Value) -> (r: Result<BlockHeader, DecodeError>)
        ensures
            result_models(r, Self::spec_decoded(value@)),
    {
        let mut arr = match expect_array(value) {
            Ok(a) => a,
            Err(e) => {
                return Err(e.embed("While decoding a genesis::BlockHeader"));
            },
        };
        let f0 = match take_field(&mut arr, "protocol magic") {
            Ok(v) => v,
            Err(e) => {
                return Err(e.embed("While decoding a genesis::BlockHeader"));
            },
        };
        let protocol_magic = match ProtocolMagic::decode(f0) {
            Ok(x) => x,
            Err(e) => {
                return Err(e.embed("protocol magic").embed("While decoding a genesis::BlockHeader"));
            },
        };
        let f1 = match take_field(&mut arr, "Previous Header Hash") {
            Ok(v) => v,
            Err(e) => {
                return Err(e.embed("While decoding a genesis::BlockHeader"));
            },
        };
        let previous_header = match HeaderHash::decode(f1) {
            Ok(x) => x,
            Err(e) => {
                return Err(e.embed("Previous Header Hash").embed(
                    "While decoding a genesis::BlockHeader",
                ));
            },
        };
        let f2 = match take_field(&mut arr, "body proof") {
            Ok(v) => v,
            Err(e) => {
                return Err(e.embed("While decoding a genesis::BlockHeader"));
            },
        };
        let body_proof = match BodyProof::decode(f2) {
            Ok(x) => x,
            Err(e) => {
                return Err(e.embed("body proof").embed("While decoding a genesis::BlockHeader"));
            },
        };
        let f3 = match take_field(&mut arr, "consensus") {
            Ok(v) => v,
            Err(e) => {
                return Err(e.embed("While decoding a genesis::BlockHeader"));
            },
        };
        let consensus = match Consensus::decode(f3) {
            Ok(x) => x,
            Err(e) => {
                return Err(e.embed("consensus").embed("While decoding a genesis::BlockHeader"));
            },
        };
        let f4 = match take_field(&mut arr, "extra_data") {
            Ok(v) => v,
            Err(e) => {
                return Err(e.embed("While decoding a genesis::BlockHeader"));
            },
        };
        let extra_data = match BlockHeaderAttributes::decode(f4) {
            Ok(x) => x,
            Err(e) => {
                return Err(e.embed("extra_data").embed("While decoding a genesis::BlockHeader"));
            },
        };
        if arr.len() > 0 {
            return Err(DecodeError::Cause(ErrorKind::UnparsedValues).embed(
                "While decoding a genesis::BlockHeader",
            ));
        }
        Ok(BlockHeader { protocol_magic, previous_header, body_proof, consensus, extra_data })
    }

    /// Decoding an encoded genesis header gives it back.
    pub proof fn lemma_roundtrip(m: BlockHeaderModel)
        requires
            m.previous_header.len() == HASH_SIZE,
            m.body_proof.len() == HASH_SIZE,
        ensures
            Self::spec_decoded(Self::model_encoded(m)) == Ok::<BlockHeaderModel, ErrorKind>(m),
    {
        m.protocol_magic.lemma_roundtrip();
        m.consensus.lemma_roundtrip();
    }
}

/// The model of a genesis block.
pub struct BlockModel {
    pub header: BlockHeaderModel,
    pub body: Seq<ValueModel>,
    pub extra: ValueModel,
}

/// A genesis block: its header, the slot-leader body, and an opaque extra
/// payload.
#[derive(Debug, PartialEq, Eq)]
pub struct Block {
    pub header: BlockHeader,
    pub body: Body,
    pub extra: Value,
}

impl View for Block {
    type V = BlockModel;

    open spec fn view(&self) -> BlockModel {
        BlockModel { header: self.header@, body: self.body@, extra: self.extra@ }
    }
}

impl Block {
    /// The tree a genesis block encodes to: header, body, extra payload.
    pub open spec fn model_encoded(m: BlockModel) -> ValueModel {
        ValueModel::Array(
            seq![BlockHeader::model_encoded(m.header), Body::model_encoded(m.body), m.extra],
        )
    }

    /// The genesis block a tree decodes to, or why it is refused.
    pub open spec fn spec_decoded(v: ValueModel) -> Result<BlockModel, ErrorKind> {
        match spec_array(v) {
            Err(k) => Err(k),
            Ok(s) => if s.len() < 1 {
                Err(ErrorKind::MissingField)
            } else {
                match BlockHeader::spec_decoded(s[0]) {
                    Err(k) => Err(k),
                    Ok(header) => if s.len() < 2 {
                        Err(ErrorKind::MissingField)
                    } else {
                        match Body::spec_decoded(s[1]) {
                            Err(k) => Err(k),
                            Ok(body) => if s.len() < 3 {
                                Err(ErrorKind::MissingField)
                            } else {
                                let extra = s[2];
                                if s.len() > 3 {
                                    Err(ErrorKind::UnparsedValues)
                                } else {
                                    Ok(BlockModel { header, body, extra })
                                }
                            },
                        }
                    },
                }
            },
        }
    }

    pub fn encode(&self) -> (r: Value)
        ensures
            r@ == Self::model_encoded(self@),
    {
        array3(self.header.encode(), self.body.encode(), clone_value(&self.extra))
    }

    pub fn decode(value: Value) -> (r: Result<Block, DecodeError>)
        ensures
            result_models(r, Self::spec_decoded(value@)),
    {
        let mut arr = match expect_array(value) {
            Ok(a) => a,
            Err(e) => {
                return Err(e.embed("While decoding genesis::Block"));
            },
        };
        let f0 = match take_field(&mut arr, "header") {
            Ok(v) => v,
            Err(e) => {
                return Err(e.embed("While decoding genesis::Block"));
            },
        };
        let header = match BlockHeader::decode(f0) {
            Ok(x) => x,
            Err(e) => {
                return Err(e.embed("header").embed("While decoding genesis::Block"));
            },
        };
        let f1 = match take_field(&mut arr, "body") {
            Ok(v) => v,
            Err(e) => {
                return Err(e.embed("While decoding genesis::Block"));
            },
        };
        let body = match Body::decode(f1) {
            Ok(x) => x,
            Err(e) => {
                return Err(e.embed("body").embed("While decoding genesis::Block"));
            },
        };
        let f2 = match take_field(&mut arr, "extra") {
            Ok(v) => v,
            Err(e) => {
                return Err(e.embed("While decoding genesis::Block"));
            },
        };
        if arr.len() > 0 {
            return Err(DecodeError::Cause(ErrorKind::UnparsedValues).embed(
                "While decoding genesis::Block",
            ));
        }
        Ok(Block { header, body, extra: f2 })
    }

    /// Decoding an encoded genesis block gives it back.
    pub proof fn lemma_roundtrip(m: BlockModel)
        requires
            m.header.previous_header.len() == HASH_SIZE,
            m.header.body_proof.len() == HASH_SIZE,
        ensures
            Self::spec_decoded(Self::model_encoded(m)) == Ok::<BlockModel, ErrorKind>(m),
    {
        BlockHeader::lemma_roundtrip(m.header);
    }
}

} // verus!
