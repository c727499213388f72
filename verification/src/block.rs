//! The block and header sum types: a genesis or a main variant, told apart
//! by a leading discriminant on the wire.

use vstd::prelude::*;

verus! {

use crate::cbor::{
    Value,
    ValueModel,
    DecodeError,
    ErrorKind,
    result_models,
    spec_u64,
    spec_array,
    expect_u64,
    expect_array,
    take_field,
    array2,
};
use crate::genesis;
use crate::normal;
use crate::types::HeaderHash;
use crate::normal::SlotId;

/// The model of a block header of either kind.
pub enum BlockHeaderModel {
    GenesisBlockHeader(genesis::BlockHeaderModel),
    MainBlockHeader(normal::MainBlockHeaderModel),
}

impl BlockHeaderModel {
    /// The digest of the block before this header's block on the chain.
    pub open spec fn previous_header(self) -> Seq<u8> {
        match self {
            BlockHeaderModel::GenesisBlockHeader(h) => h.previous_header,
            BlockHeaderModel::MainBlockHeader(h) => h.previous_header,
        }
    }

    /// Every digest, key and signature in the header has its exact size.
    pub open spec fn wf(self) -> bool {
        match self {
            BlockHeaderModel::GenesisBlockHeader(h) => h.previous_header.len()
                == crate::types::HASH_SIZE && h.body_proof.len() == crate::types::HASH_SIZE,
            BlockHeaderModel::MainBlockHeader(h) => h.wf(),
        }
    }
}

/// A block header: the genesis header that opens an epoch, or the header
/// of a main block.
#[derive(Debug, PartialEq, Eq)]
pub enum BlockHeader {
    GenesisBlockHeader(genesis::BlockHeader),
    MainBlockHeader(normal::MainBlockHeader),
}

impl View for BlockHeader {
    type V = BlockHeaderModel;

    open spec fn view(&self) -> BlockHeaderModel {
        match self {
            BlockHeader::GenesisBlockHeader(h) => BlockHeaderModel::GenesisBlockHeader(h@),
            BlockHeader::MainBlockHeader(h) => BlockHeaderModel::MainBlockHeader(h@),
        }
    }
}

impl BlockHeader {
    /// The digest of the block before this header's block on the chain.
    pub fn get_previous_header(&self) -> (r: HeaderHash)
        ensures
            r@ == self@.previous_header(),
    {
        match self {
            BlockHeader::GenesisBlockHeader(h) => h.previous_header.clone(),
            BlockHeader::MainBlockHeader(h) => h.previous_header.clone(),
        }
    }

    /// The slot a main header was minted in; a genesis header has none.
    pub fn get_slotid(&self) -> (r: Option<SlotId>)
        ensures
            match self@ {
                BlockHeaderModel::MainBlockHeader(h) => r == Some(h.consensus.slot_id),
                BlockHeaderModel::GenesisBlockHeader(_) => r is None,
            },
    {
        match self {
            BlockHeader::GenesisBlockHeader(_) => None,
            BlockHeader::MainBlockHeader(h) => Some(h.get_slotid()),
        }
    }

    /// The tree a header encodes to: the variant discriminant, then the
    /// header record.
    pub open spec fn model_encoded(m: BlockHeaderModel) -> ValueModel {
        match m {
            BlockHeaderModel::GenesisBlockHeader(h) => ValueModel::Array(
                seq![ValueModel::U64(0), genesis::BlockHeader::model_encoded(h)],
            ),
            BlockHeaderModel::MainBlockHeader(h) => ValueModel::Array(
                seq![ValueModel::U64(1), normal::MainBlockHeader::model_encoded(h)],
            ),
        }
    }

    /// The header a tree decodes to; an unknown discriminant is refused
    /// with that discriminant.
    pub open spec fn spec_decoded(v: ValueModel) -> Result<BlockHeaderModel, ErrorKind> {
        match spec_array(v) {
            Err(k) => Err(k),
            Ok(s) => if s.len() < 1 {
                Err(ErrorKind::MissingField)
            } else {
                match spec_u64(s[0]) {
                    Err(k) => Err(k),
                    Ok(code) => if code == 0 {
                        if s.len() < 2 {
                            Err(ErrorKind::MissingField)
                        } else {
                            match genesis::BlockHeader::spec_decoded(s[1]) {
                                Err(k) => Err(k),
                                Ok(h) => if s.len() > 2 {
                                    Err(ErrorKind::UnparsedValues)
                                } else {
                                    Ok(BlockHeaderModel::GenesisBlockHeader(h))
                                },
                            }
                        }
                    } else if code == 1 {
                        if s.len() < 2 {
                            Err(ErrorKind::MissingField)
                        } else {
                            match normal::MainBlockHeader::spec_decoded(s[1]) {
                                Err(k) => Err(k),
                                Ok(h) => if s.len() > 2 {
                                    Err(ErrorKind::UnparsedValues)
                                } else {
                                    Ok(BlockHeaderModel::MainBlockHeader(h))
                                },
                            }
                        }
                    } else {
                        Err(ErrorKind::InvalidSumtype(code))
                    },
                }
            },
        }
    }

    pub fn encode(&self) -> (r: Value)
        ensures
            r@ == Self::model_encoded(self@),
    {
        match self {
            BlockHeader::GenesisBlockHeader(h) => array2(Value::U64(0), h.encode()),
            BlockHeader::MainBlockHeader(h) => array2(Value::U64(1), h.encode()),
        }
    }

    pub fn decode(value: Value) -> (r: Result<BlockHeader, DecodeError>)
        ensures
            result_models(r, Self::spec_decoded(value@)),
    {
        let mut arr = match expect_array(value) {
            Ok(a) => a,
            Err(e) => {
                return Err(e);
            },
        };
        let f0 = match take_field(&mut arr, "enumeration code") {
            Ok(v) => v,
            Err(e) => {
                return Err(e);
            },
        };
        let code = match expect_u64(f0) {
            Ok(n) => n,
            Err(e) => {
                return Err(e.embed("enumeration code"));
            },
        };
        if code == 0 {
            let f1 = match take_field(&mut arr, "genesis header") {
                Ok(v) => v,
                Err(e) => {
                    return Err(e);
                },
            };
            let h = match genesis::BlockHeader::decode(f1) {
                Ok(x) => x,
                Err(e) => {
                    return Err(e);
                },
            };
            if arr.len() > 0 {
                return Err(DecodeError::Cause(ErrorKind::UnparsedValues));
            }
            Ok(BlockHeader::GenesisBlockHeader(h))
        } else if code == 1 {
            let f1 = match take_field(&mut arr, "main header") {
                Ok(v) => v,
                Err(e) => {
                    return Err(e);
                },
            };
            let h = match normal::MainBlockHeader::decode(f1) {
                Ok(x) => x,
                Err(e) => {
                    return Err(e);
                },
            };
            if arr.len() > 0 {
                return Err(DecodeError::Cause(ErrorKind::UnparsedValues));
            }
            Ok(BlockHeader::MainBlockHeader(h))
        } else {
            Err(DecodeError::Cause(ErrorKind::InvalidSumtype(code)))
        }
    }

    /// Decoding an encoded header of either kind gives it back.
    pub proof fn lemma_roundtrip(m: BlockHeaderModel)
        requires
            m.wf(),
        ensures
            Self::spec_decoded(Self::model_encoded(m)) == Ok::<BlockHeaderModel, ErrorKind>(m),
    {
        match m {
            BlockHeaderModel::GenesisBlockHeader(h) => {
                genesis::BlockHeader::lemma_roundtrip(h);
            },
            BlockHeaderModel::MainBlockHeader(h) => {
                normal::MainBlockHeader::lemma_roundtrip(h);
            },
        }
    }
}

/// The model of a block of either kind.
pub enum BlockModel {
    GenesisBlock(genesis::BlockModel),
    MainBlock(normal::BlockModel),
}

/// A block: the genesis block that opens an epoch, or a main block that
/// carries transactions.
#[derive(Debug, PartialEq, Eq)]
pub enum Block {
    GenesisBlock(genesis::Block),
    MainBlock(normal::Block),
}

impl View for Block {
    type V = BlockModel;

    open spec fn view(&self) -> BlockModel {
        match self {
            Block::GenesisBlock(b) => BlockModel::GenesisBlock(b@),
            Block::MainBlock(b) => BlockModel::MainBlock(b@),
        }
    }
}

impl Block {
    /// The header of the block, of the matching kind.
    pub fn get_header(&self) -> (r: BlockHeader)
        ensures
            match self@ {
                BlockModel::GenesisBlock(b) => r@ == BlockHeaderModel::GenesisBlockHeader(b.header),
                BlockModel::MainBlock(b) => r@ == BlockHeaderModel::MainBlockHeader(b.header),
            },
    {
        match self {
            Block::GenesisBlock(b) => BlockHeader::GenesisBlockHeader(
                genesis::BlockHeader {
                    protocol_magic: b.header.protocol_magic,
                    previous_header: b.header.previous_header.clone(),
                    body_proof: genesis::BodyProof(b.header.body_proof.0.clone()),
                    consensus: b.header.consensus,
                    extra_data: crate::types::BlockHeaderAttributes(
                        crate::cbor::clone_value(&b.header.extra_data.0),
                    ),
                },
            ),
            Block::MainBlock(b) => {
                let h = &b.header;
                BlockHeader::MainBlockHeader(
                    normal::MainBlockHeader {
                        protocol_magic: h.protocol_magic,
                        previous_header: h.previous_header.clone(),
                        body_proof: Self::clone_body_proof(&h.body_proof),
                        consensus: Self::clone_consensus(&h.consensus),
                        extra_data: Self::clone_extra_data(&h.extra_data),
                    },
                )
            },
        }
    }

    fn clone_body_proof(p: &normal::BodyProof) -> (r: normal::BodyProof)
        ensures
            r@ == p@,
    {
        normal::BodyProof {
            tx: normal::TxProof {
                number: p.tx.number,
                root: p.tx.root.clone(),
                witnesses_hash: p.tx.witnesses_hash.clone(),
            },
            mpc: Self::clone_ssc_proof(&p.mpc),
            proxy_sk: p.proxy_sk.clone(),
            update: p.update.clone(),
        }
    }

    fn clone_ssc_proof(p: &crate::types::SscProof) -> (r: crate::types::SscProof)
        ensures
            r@ == p@,
    {
        match p {
            crate::types::SscProof::Commitments(a, b) => crate::types::SscProof::Commitments(
                a.clone(),
                b.clone(),
            ),
            crate::types::SscProof::Openings(a, b) => crate::types::SscProof::Openings(
                a.clone(),
                b.clone(),
            ),
            crate::types::SscProof::Shares(a, b) => crate::types::SscProof::Shares(
                a.clone(),
                b.clone(),
            ),
            crate::types::SscProof::Certificate(a) => crate::types::SscProof::Certificate(
                a.clone(),
            ),
        }
    }

    fn clone_consensus(c: &normal::Consensus) -> (r: normal::Consensus)
        ensures
            r@ == c@,
    {
        normal::Consensus {
            slot_id: c.slot_id,
            leader_key: crate::cbor::clone_byte_vec(&c.leader_key),
            chain_difficulty: c.chain_difficulty,
            block_signature: match &c.block_signature {
                normal::BlockSignature::Signature(s) => normal::BlockSignature::Signature(
                    crate::cbor::clone_byte_vec(s),
                ),
                normal::BlockSignature::ProxyLight(vs) => normal::BlockSignature::ProxyLight(
                    crate::cbor::clone_value_vec(vs),
                ),
                normal::BlockSignature::ProxyHeavy(vs) => normal::BlockSignature::ProxyHeavy(
                    crate::cbor::clone_value_vec(vs),
                ),
            },
        }
    }

    fn clone_extra_data(e: &crate::types::HeaderExtraData) -> (r: crate::types::HeaderExtraData)
        ensures
            r@ == e@,
    {
        crate::types::HeaderExtraData {
            block_version: e.block_version,
            software_version: e.software_version.clone(),
            attributes: crate::types::BlockHeaderAttributes(
                crate::cbor::clone_value(&e.attributes.0),
            ),
            extra_data_proof: e.extra_data_proof.clone(),
        }
    }

    /// The tree a block encodes to: the variant discriminant, then the
    /// block record.
    pub open spec fn model_encoded(m: BlockModel) -> ValueModel {
        match m {
            BlockModel::GenesisBlock(b) => ValueModel::Array(
                seq![ValueModel::U64(0), genesis::Block::model_encoded(b)],
            ),
            BlockModel::MainBlock(b) => ValueModel::Array(
                seq![ValueModel::U64(1), normal::Block::model_encoded(b)],
            ),
        }
    }

    /// The block a tree decodes to; an unknown discriminant is refused
    /// with that discriminant.
    pub open spec fn spec_decoded(v: ValueModel) -> Result<BlockModel, ErrorKind> {
        match spec_array(v) {
            Err(k) => Err(k),
            Ok(s) => if s.len() < 1 {
                Err(ErrorKind::MissingField)
            } else {
                match spec_u64(s[0]) {
                    Err(k) => Err(k),
                    Ok(code) => if code == 0 {
                        if s.len() < 2 {
                            Err(ErrorKind::MissingField)
                        } else {
                            match genesis::Block::spec_decoded(s[1]) {
                                Err(k) => Err(k),
                                Ok(b) => if s.len() > 2 {
                                    Err(ErrorKind::UnparsedValues)
                                } else {
                                    Ok(BlockModel::GenesisBlock(b))
                                },
                            }
                        }
                    } else if code == 1 {
                        if s.len() < 2 {
                            Err(ErrorKind::MissingField)
                        } else {
                            match normal::Block::spec_decoded(s[1]) {
                                Err(k) => Err(k),
                                Ok(b) => if s.len() > 2 {
                                    Err(ErrorKind::UnparsedValues)
                                } else {
                                    Ok(BlockModel::MainBlock(b))
                                },
                            }
                        }
                    } else {
                        Err(ErrorKind::InvalidSumtype(code))
                    },
                }
            },
        }
    }

    pub fn encode(&self) -> (r: Value)
        ensures
            r@ == Self::model_encoded(self@),
    {
        match self {
            Block::GenesisBlock(b) => array2(Value::U64(0), b.encode()),
            Block::MainBlock(b) => array2(Value::U64(1), b.encode()),
        }
    }

    pub fn decode(value: Value) -> (r: Result<Block, DecodeError>)
        ensures
            result_models(r, Self::spec_decoded(value@)),
    {
        let mut arr = match expect_array(value) {
            Ok(a) => a,
            Err(e) => {
                return Err(e.embed("While decoding block::Block"));
            },
        };
        let f0 = match take_field(&mut arr, "enumeration code") {
            Ok(v) => v,
            Err(e) => {
                return Err(e.embed("While decoding block::Block"));
            },
        };
        let code = match expect_u64(f0) {
            Ok(n) => n,
            Err(e) => {
                return Err(e.embed("enumeration code").embed("While decoding block::Block"));
            },
        };
        if code == 0 {
            let f1 = match take_field(&mut arr, "genesis block") {
                Ok(v) => v,
                Err(e) => {
                    return Err(e.embed("While decoding block::Block"));
                },
            };
            let b = match genesis::Block::decode(f1) {
                Ok(x) => x,
                Err(e) => {
                    return Err(e.embed("While decoding block::Block"));
                },
            };
            if arr.len() > 0 {
                return Err(DecodeError::Cause(ErrorKind::UnparsedValues).embed(
                    "While decoding block::Block",
                ));
            }
            Ok(Block::GenesisBlock(b))
        } else if code == 1 {
            let f1 = match take_field(&mut arr, "main block") {
                Ok(v) => v,
                Err(e) => {
                    return Err(e.embed("While decoding block::Block"));
                },
            };
            let b = match normal::Block::decode(f1) {
                Ok(x) => x,
                Err(e) => {
                    return Err(e.embed("While decoding block::Block"));
                },
            };
            if arr.len() > 0 {
                return Err(DecodeError::Cause(ErrorKind::UnparsedValues).embed(
                    "While decoding block::Block",
                ));
            }
            Ok(Block::MainBlock(b))
        } else {
            Err(DecodeError::Cause(ErrorKind::InvalidSumtype(code)).embed(
                "While decoding block::Block",
            ))
        }
    }

    /// Decoding an encoded block of either kind gives it back.
    pub proof fn lemma_roundtrip(m: BlockModel)
        requires
            match m {
                BlockModel::GenesisBlock(b) => BlockHeaderModel::GenesisBlockHeader(b.header).wf(),
                BlockModel::MainBlock(b) => b.header.wf(),
            },
        ensures
            Self::spec_decoded(Self::model_encoded(m)) == Ok::<BlockModel, ErrorKind>(m),
    {
        match m {
            BlockModel::GenesisBlock(b) => {
                genesis::Block::lemma_roundtrip(b);
            },
            BlockModel::MainBlock(b) => {
                normal::Block::lemma_roundtrip(b);
            },
        }
    }
}

} // verus!
