//! The main variant of blocks and headers: the blocks that carry
//! transactions, with the consensus data and proofs that bind them to their
//! slot, leader and body.

use vstd::prelude::*;

verus! {

use crate::cbor::{
    Value,
    ValueModel,
    DecodeError,
    ErrorKind,
    result_models,
    value_models,
    spec_u32,
    spec_u64,
    spec_bytes,
    spec_array,
    spec_iarray,
    expect_u32,
    expect_u64,
    expect_bytes,
    expect_array,
    expect_iarray,
    take_field,
    array2,
    array3,
    array4,
    array5,
    array_with_code,
    clone_value,
    clone_value_vec,
    iarray_from,
};
use crate::types::{
    ProtocolMagic,
    HeaderHash,
    HeaderExtraData,
    HeaderExtraDataModel,
    SscProof,
    SscProofModel,
    HASH_SIZE,
};

/// The exact length of a signature or of an extended public key, in bytes.
pub const KEY_SIZE: usize = 64;

/// The byte string of a signature or extended public key: exactly 64
/// bytes; any other length is refused with the expected size.
pub open spec fn spec_sized64(v: ValueModel) -> Result<Seq<u8>, ErrorKind> {
    match spec_bytes(v) {
        Err(k) => Err(k),
        Ok(b) => if b.len() == KEY_SIZE {
            Ok(b)
        } else {
            Err(ErrorKind::InvalidSize(KEY_SIZE as u64))
        },
    }
}

fn expect_sized64(value: Value) -> (r: Result<Vec<u8>, DecodeError>)
    ensures
        result_models(r, spec_sized64(value@)),
{
    let b = match expect_bytes(value) {
        Ok(b) => b,
        Err(e) => {
            return Err(e);
        },
    };
    if b.len() != KEY_SIZE {
        return Err(DecodeError::Cause(ErrorKind::InvalidSize(KEY_SIZE as u64)));
    }
    Ok(b)
}

/// The transaction payload of a main block: the signed transactions in
/// order, kept as raw trees.
#[derive(Debug, PartialEq, Eq)]
pub struct TxPayload {
    txaux: Vec<Value>,
}

impl View for TxPayload {
    type V = Seq<ValueModel>;

    closed spec fn view(&self) -> Seq<ValueModel> {
        value_models(self.txaux@)
    }
}

impl TxPayload {
    pub fn new(txaux: Vec<Value>) -> (r: TxPayload)
        ensures
            r@ == value_models(txaux@),
    {
        TxPayload { txaux }
    }

    /// A payload with no transactions.
    pub fn empty() -> (r: TxPayload)
        ensures
            r@ == Seq::<ValueModel>::empty(),
    {
        TxPayload { txaux: Vec::new() }
    }

    /// Grants read access to the transactions, in order.
    pub fn iter(&self) -> (r: &Vec<Value>)
        ensures
            value_models(r@) == self@,
    {
        &self.txaux
    }

    /// The tree a payload encodes to: the transactions, one after another.
    pub open spec fn model_encoded(m: Seq<ValueModel>) -> ValueModel {
        ValueModel::IArray(m)
    }

    /// The payload a tree decodes to: any indefinite-length array, whole.
    pub open spec fn spec_decoded(v: ValueModel) -> Result<Seq<ValueModel>, ErrorKind> {
        spec_iarray(v)
    }

    pub fn encode(&self) -> (r: Value)
        ensures
            r@ == Self::model_encoded(self@),
    {
        iarray_from(clone_value_vec(&self.txaux))
    }

    pub fn decode(value: Value) -> (r: Result<TxPayload, DecodeError>)
        ensures
            r matches Ok(p) ==> Self::spec_decoded(value@) == Ok::<_, ErrorKind>(p@),
            r matches Err(e) ==> Self::spec_decoded(value@) matches Err(k) && e.kind() == k,
    {
        match expect_iarray(value) {
            Ok(elems) => Ok(TxPayload { txaux: elems }),
            Err(e) => Err(e.embed("While decoding TxPayload")),
        }
    }

    /// Decoding an encoded payload gives it back.
    pub proof fn lemma_roundtrip(m: Seq<ValueModel>)
        ensures
            Self::spec_decoded(Self::model_encoded(m)) == Ok::<Seq<ValueModel>, ErrorKind>(m),
    {
    }
}

/// The model of a main block body.
pub struct BodyModel {
    pub tx: Seq<ValueModel>,
    pub scc: ValueModel,
    pub delegation: ValueModel,
    pub update: ValueModel,
}

/// The body of a main block: the transaction payload and three opaque
/// payload slots.
#[derive(Debug, PartialEq, Eq)]
pub struct Body {
    pub tx: TxPayload,
    pub scc: Value,
    pub delegation: Value,
    pub update: Value,
}

impl View for Body {
    type V = BodyModel;

    open spec fn view(&self) -> BodyModel {
        BodyModel {
            tx: self.tx@,
            scc: self.scc@,
            delegation: self.delegation@,
            update: self.update@,
        }
    }
}

impl Body {
    pub fn new(tx: TxPayload, scc: Value, dlg: Value, upd: Value) -> (r: Body)
        ensures
            r@ == (BodyModel { tx: tx@, scc: scc@, delegation: dlg@, update: upd@ }),
    {
        Body { tx, scc, delegation: dlg, update: upd }
    }

    /// The tree a body encodes to: the four payload slots in order.
    pub open spec fn model_encoded(m: BodyModel) -> ValueModel {
        ValueModel::Array(seq![TxPayload::model_encoded(m.tx), m.scc, m.delegation, m.update])
    }

    /// The body a tree decodes to, or why it is refused.
    pub open spec fn spec_decoded(v: ValueModel) -> Result<BodyModel, ErrorKind> {
        match spec_array(v) {
            Err(k) => Err(k),
            Ok(s) => if s.len() < 1 {
                Err(ErrorKind::MissingField)
            } else {
                match TxPayload::spec_decoded(s[0]) {
                    Err(k) => Err(k),
                    Ok(tx) => if s.len() < 2 {
                        Err(ErrorKind::MissingField)
                    } else {
                        let scc = s[1];
                        if s.len() < 3 {
                            Err(ErrorKind::MissingField)
                        } else {
                            let delegation = s[2];
                            if s.len() < 4 {
                                Err(ErrorKind::MissingField)
                            } else {
                                let update = s[3];
                                if s.len() > 4 {
                                    Err(ErrorKind::UnparsedValues)
                                } else {
                                    Ok(BodyModel { tx, scc, delegation, update })
                                }
                            }
                        }
                    },
                }
            },
        }
    }

    pub fn encode(&self) -> (r: Value)
        ensures
            r@ == Self::model_encoded(self@),
    {
        array4(
            self.tx.encode(),
            clone_value(&self.scc),
            clone_value(&self.delegation),
            clone_value(&self.update),
        )
    }

    pub fn decode(value: Value) -> (r: Result<Body, DecodeError>)
        ensures
            result_models(r, Self::spec_decoded(value@)),
    {
        let mut arr = match expect_array(value) {
            Ok(a) => a,
            Err(e) => {
                return Err(e.embed("While decoding Body"));
            },
        };
        let f0 = match take_field(&mut arr, "tx") {
            Ok(v) => v,
            Err(e) => {
                return Err(e.embed("While decoding Body"));
            },
        };
        let tx = match TxPayload::decode(f0) {
            Ok(x) => x,
            Err(e) => {
                return Err(e.embed("tx").embed("While decoding Body"));
            },
        };
        let scc = match take_field(&mut arr, "scc") {
            Ok(v) => v,
            Err(e) => {
                return Err(e.embed("While decoding Body"));
            },
        };
        let delegation = match take_field(&mut arr, "dlg") {
            Ok(v) => v,
            Err(e) => {
                return Err(e.embed("While decoding Body"));
            },
        };
        let update = match take_field(&mut arr, "update") {
            Ok(v) => v,
            Err(e) => {
                return Err(e.embed("While decoding Body"));
            },
        };
        if arr.len() > 0 {
            return Err(DecodeError::Cause(ErrorKind::UnparsedValues).embed("While decoding Body"));
        }
        Ok(Body { tx, scc, delegation, update })
    }

    /// Decoding an encoded body gives it back.
    pub proof fn lemma_roundtrip(m: BodyModel)
        ensures
            Self::spec_decoded(Self::model_encoded(m)) == Ok::<BodyModel, ErrorKind>(m),
    {
    }
}

/// The slot a main block was minted in: an epoch and a slot number within
/// it.  Slots are ordered by epoch first, then by slot number.
#[derive(Debug, Clone, Copy, PartialEq, Eq, PartialOrd, Ord, Structural)]
pub struct SlotId {
    pub epoch: u32,
    pub slotid: u32,
}

impl View for SlotId {
    type V = SlotId;

    open spec fn view(&self) -> SlotId {
        *self
    }
}

impl SlotId {
    /// The total order on slots: by epoch, then by slot number.
    pub open spec fn spec_le(self, other: SlotId) -> bool {
        self.epoch < other.epoch || (self.epoch == other.epoch && self.slotid <= other.slotid)
    }

    /// Whether this slot comes no later than the other.
    pub fn le(&self, other: &SlotId) -> (r: bool)
        ensures
            r == self.spec_le(*other),
    {
        self.epoch < other.epoch || (self.epoch == other.epoch && self.slotid <= other.slotid)
    }

    /// The tree a slot encodes to: epoch, then slot number.
    pub open spec fn spec_encoded(self) -> ValueModel {
        ValueModel::Array(
            seq![ValueModel::U64(self.epoch as u64), ValueModel::U64(self.slotid as u64)],
        )
    }

    /// The slot a tree decodes to, or why it is refused.
    pub open spec fn spec_decoded(v: ValueModel) -> Result<SlotId, ErrorKind> {
        match spec_array(v) {
            Err(k) => Err(k),
            Ok(s) => if s.len() < 1 {
                Err(ErrorKind::MissingField)
            } else {
                match spec_u32(s[0]) {
                    Err(k) => Err(k),
                    Ok(epoch) => if s.len() < 2 {
                        Err(ErrorKind::MissingField)
                    } else {
                        match spec_u32(s[1]) {
                            Err(k) => Err(k),
                            Ok(slotid) => if s.len() > 2 {
                                Err(ErrorKind::UnparsedValues)
                            } else {
                                Ok(SlotId { epoch, slotid })
                            },
                        }
                    },
                }
            },
        }
    }

    pub fn encode(&self) -> (r: Value)
        ensures
            r@ == self.spec_encoded(),
    {
        array2(Value::U64(self.epoch as u64), Value::U64(self.slotid as u64))
    }

    pub fn decode(value: Value) -> (r: Result<SlotId, DecodeError>)
        ensures
            result_models(r, Self::spec_decoded(value@)),
            r matches Err(e) ==> (e.kind() == ErrorKind::MissingField ==> ({
                &&& spec_array(value@) matches Ok(s)
                &&& s.len() < 2
                &&& e.innermost_context() == (if s.len() == 0 {
                    "epoch"@
                } else {
                    "slotid"@
                })
            })),
    {
        let mut arr = match expect_array(value) {
            Ok(a) => a,
            Err(e) => {
                return Err(e.embed("While decoding Slotid"));
            },
        };
        proof {
            reveal_strlit("epoch");
            reveal_strlit("slotid");
        }
        let f0 = match take_field(&mut arr, "epoch") {
            Ok(v) => v,
            Err(e) => {
                return Err(e.embed("While decoding Slotid"));
            },
        };
        let epoch = match expect_u32(f0) {
            Ok(n) => n,
            Err(e) => {
                return Err(e.embed("epoch").embed("While decoding Slotid"));
            },
        };
        let f1 = match take_field(&mut arr, "slotid") {
            Ok(v) => v,
            Err(e) => {
                return Err(e.embed("While decoding Slotid"));
            },
        };
        let slotid = match expect_u32(f1) {
            Ok(n) => n,
            Err(e) => {
                return Err(e.embed("slotid").embed("While decoding Slotid"));
            },
        };
        if arr.len() > 0 {
            return Err(DecodeError::Cause(ErrorKind::UnparsedValues).embed(
                "While decoding Slotid",
            ));
        }
        Ok(SlotId { epoch, slotid })
    }

    /// Decoding an encoded slot gives it back.
    pub proof fn lemma_roundtrip(self)
        ensures
            Self::spec_decoded(self.spec_encoded()) == Ok::<SlotId, ErrorKind>(self),
    {
    }
}

/// The model of a block signature.
pub enum BlockSignatureModel {
    Signature(Seq<u8>),
    ProxyLight(Seq<ValueModel>),
    ProxyHeavy(Seq<ValueModel>),
}

/// How a main block was signed: directly by the slot leader, or through a
/// light or heavy delegation proof, kept as raw trees.
#[derive(Debug, PartialEq, Eq)]
pub enum BlockSignature {
    Signature(Vec<u8>),
    ProxyLight(Vec<Value>),
    ProxyHeavy(Vec<Value>),
}

impl View for BlockSignature {
    type V = BlockSignatureModel;

    open spec fn view(&self) -> BlockSignatureModel {
        match self {
            BlockSignature::Signature(s) => BlockSignatureModel::Signature(s@),
            BlockSignature::ProxyLight(vs) => BlockSignatureModel::ProxyLight(value_models(vs@)),
            BlockSignature::ProxyHeavy(vs) => BlockSignatureModel::ProxyHeavy(value_models(vs@)),
        }
    }
}

impl BlockSignature {
    /// The tree a signature encodes to: the kind discriminant, then the
    /// signature bytes or the proof fields.
    pub open spec fn model_encoded(m: BlockSignatureModel) -> ValueModel {
        match m {
            BlockSignatureModel::Signature(s) => ValueModel::Array(
                seq![ValueModel::U64(0), ValueModel::Bytes(s)],
            ),
            BlockSignatureModel::ProxyLight(vs) => ValueModel::Array(
                seq![ValueModel::U64(1)] + vs,
            ),
            BlockSignatureModel::ProxyHeavy(vs) => ValueModel::Array(
                seq![ValueModel::U64(2)] + vs,
            ),
        }
    }

    /// The signature a tree decodes to.  A direct signature must hold
    /// exactly 64 bytes; the proxy kinds keep the remaining fields whole;
    /// an unknown discriminant is refused with that discriminant.
    pub open spec fn spec_decoded(v: ValueModel) -> Result<BlockSignatureModel, ErrorKind> {
        match spec_array(v) {
            Err(k) => Err(k),
            Ok(s) => if s.len() < 1 {
                Err(ErrorKind::MissingField)
            } else {
                match spec_u64(s[0]) {
                    Err(k) => Err(k),
                    Ok(code) => if code == 0 {
                        if s.len() < 2 {
                            Err(ErrorKind::MissingField)
                        } else {
                            match spec_sized64(s[1]) {
                                Err(k) => Err(k),
                                Ok(sig) => if s.len() > 2 {
                                    Err(ErrorKind::UnparsedValues)
                                } else {
                                    Ok(BlockSignatureModel::Signature(sig))
                                },
                            }
                        }
                    } else if code == 1 {
                        Ok(BlockSignatureModel::ProxyLight(s.drop_first()))
                    } else if code == 2 {
                        Ok(BlockSignatureModel::ProxyHeavy(s.drop_first()))
                    } else {
                        Err(ErrorKind::InvalidSumtype(code))
                    },
                }
            },
        }
    }

    pub fn encode(&self) -> (r: Value)
        ensures
            r@ == Self::model_encoded(self@),
    {
        match self {
            BlockSignature::Signature(s) => array2(
                Value::U64(0),
                Value::Bytes(crate::cbor::clone_byte_vec(s)),
            ),
            BlockSignature::ProxyLight(vs) => array_with_code(1, clone_value_vec(vs)),
            BlockSignature::ProxyHeavy(vs) => array_with_code(2, clone_value_vec(vs)),
        }
    }

    pub fn decode(value: Value) -> (r: Result<BlockSignature, DecodeError>)
        ensures
            result_models(r, Self::spec_decoded(value@)),
    {
        let mut arr = match expect_array(value) {
            Ok(a) => a,
            Err(e) => {
                return Err(e.embed("While decoding main::BlockSignature"));
            },
        };
        let f0 = match take_field(&mut arr, "enumeration code") {
            Ok(v) => v,
            Err(e) => {
                return Err(e.embed("While decoding main::BlockSignature"));
            },
        };
        let code = match expect_u64(f0) {
            Ok(n) => n,
            Err(e) => {
                return Err(e.embed("enumeration code").embed("While decoding main::BlockSignature"));
            },
        };
        if code == 0 {
            let f1 = match take_field(&mut arr, "signature") {
                Ok(v) => v,
                Err(e) => {
                    return Err(e.embed("While decoding main::BlockSignature"));
                },
            };
            let sig = match expect_sized64(f1) {
                Ok(s) => s,
                Err(e) => {
                    return Err(e.embed("While decoding main::BlockSignature"));
                },
            };
            if arr.len() > 0 {
                return Err(DecodeError::Cause(ErrorKind::UnparsedValues).embed(
                    "While decoding main::BlockSignature",
                ));
            }
            Ok(BlockSignature::Signature(sig))
        } else if code == 1 {
            Ok(BlockSignature::ProxyLight(arr))
        } else if code == 2 {
            Ok(BlockSignature::ProxyHeavy(arr))
        } else {
            Err(DecodeError::Cause(ErrorKind::InvalidSumtype(code)).embed(
                "While decoding main::BlockSignature",
            ))
        }
    }

    /// Decoding an encoded signature gives it back.
    pub proof fn lemma_roundtrip(m: BlockSignatureModel)
        requires
            m matches BlockSignatureModel::Signature(s) ==> s.len() == KEY_SIZE,
        ensures
            Self::spec_decoded(Self::model_encoded(m)) == Ok::<BlockSignatureModel, ErrorKind>(m),
    {
        match m {
            BlockSignatureModel::ProxyLight(vs) => {
                assert((seq![ValueModel::U64(1)] + vs).drop_first() =~= vs);
            },
            BlockSignatureModel::ProxyHeavy(vs) => {
                assert((seq![ValueModel::U64(2)] + vs).drop_first() =~= vs);
            },
            BlockSignatureModel::Signature(s) => {},
        }
    }
}

/// The model of the consensus data of a main block header.
pub struct ConsensusModel {
    pub slot_id: SlotId,
    pub leader_key: Seq<u8>,
    pub chain_difficulty: u64,
    pub block_signature: BlockSignatureModel,
}

/// The consensus data of a main block header: the slot, the leader's key,
/// the chain difficulty reached, and the block signature.
#[derive(Debug, PartialEq, Eq)]
pub struct Consensus {
    pub slot_id: SlotId,
    pub leader_key: Vec<u8>,
    pub chain_difficulty: u64,
    pub block_signature: BlockSignature,
}

impl View for Consensus {
    type V = ConsensusModel;

    open spec fn view(&self) -> ConsensusModel {
        ConsensusModel {
            slot_id: self.slot_id@,
            leader_key: self.leader_key@,
            chain_difficulty: self.chain_difficulty,
            block_signature: self.block_signature@,
        }
    }
}

impl Consensus {
    /// The tree consensus data encodes to.  The difficulty is carried
    /// wrapped in a one-element array.
    pub open spec fn model_encoded(m: ConsensusModel) -> ValueModel {
        ValueModel::Array(
            seq![
                m.slot_id.spec_encoded(),
                ValueModel::Bytes(m.leader_key),
                ValueModel::Array(seq![ValueModel::U64(m.chain_difficulty)]),
                BlockSignature::model_encoded(m.block_signature),
            ],
        )
    }

    /// The consensus data a tree decodes to.  The difficulty array must
    /// hold at least one element; the first one counts.
    pub open spec fn spec_decoded(v: ValueModel) -> Result<ConsensusModel, ErrorKind> {
        match spec_array(v) {
            Err(k) => Err(k),
            Ok(s) => if s.len() < 1 {
                Err(ErrorKind::MissingField)
            } else {
                match SlotId::spec_decoded(s[0]) {
                    Err(k) => Err(k),
                    Ok(slot_id) => if s.len() < 2 {
                        Err(ErrorKind::MissingField)
                    } else {
                        match spec_sized64(s[1]) {
                            Err(k) => Err(k),
                            Ok(leader_key) => if s.len() < 3 {
                                Err(ErrorKind::MissingField)
                            } else {
                                match spec_array(s[2]) {
                                    Err(k) => Err(k),
                                    Ok(inner) => if inner.len() < 1 {
                                        Err(ErrorKind::MissingField)
                                    } else {
                                        match spec_u64(inner[0]) {
                                            Err(k) => Err(k),
                                            Ok(chain_difficulty) => if s.len() < 4 {
                                                Err(ErrorKind::MissingField)
                                            } else {
                                                match BlockSignature::spec_decoded(s[3]) {
                                                    Err(k) => Err(k),
                                                    Ok(block_signature) => if s.len() > 4 {
                                                        Err(ErrorKind::UnparsedValues)
                                                    } else {
                                                        Ok(
                                                            ConsensusModel {
                                                                slot_id,
                                                                leader_key,
                                                                chain_difficulty,
                                                                block_signature,
                                                            },
                                                        )
                                                    },
                                                }
                                            },
                                        }
                                    },
                                }
                            },
                        }
                    },
                }
            },
        }
    }

    pub fn encode(&self) -> (r: Value)
        ensures
            r@ == Self::model_encoded(self@),
    {
        let mut inner: Vec<Value> = Vec::new();
        inner.push(Value::U64(self.chain_difficulty));
        proof {
            crate::cbor::lemma_value_models_index(inner@);
            assert(value_models(inner@) =~= seq![ValueModel::U64(self.chain_difficulty)]);
        }
        array4(
            self.slot_id.encode(),
            Value::Bytes(crate::cbor::clone_byte_vec(&self.leader_key)),
            Value::Array(inner),
            self.block_signature.encode(),
        )
    }

    pub fn decode(value: Value) -> (r: Result<Consensus, DecodeError>)
        ensures
            result_models(r, Self::spec_decoded(value@)),
    {
        let mut arr = match expect_array(value) {
            Ok(a) => a,
            Err(e) => {
                return Err(e.embed("While decoding main::Consensus"));
            },
        };
        let f0 = match take_field(&mut arr, "slotid code") {
            Ok(v) => v,
            Err(e) => {
                return Err(e.embed("While decoding main::Consensus"));
            },
        };
        let slot_id = match SlotId::decode(f0) {
            Ok(x) => x,
            Err(e) => {
                return Err(e.embed("slotid code").embed("While decoding main::Consensus"));
            },
        };
        let f1 = match take_field(&mut arr, "leader key") {
            Ok(v) => v,
            Err(e) => {
                return Err(e.embed("While decoding main::Consensus"));
            },
        };
        let leader_key = match expect_sized64(f1) {
            Ok(x) => x,
            Err(e) => {
                return Err(e.embed("leader key").embed("While decoding main::Consensus"));
            },
        };
        let f2 = match take_field(&mut arr, "chain difficulty") {
            Ok(v) => v,
            Err(e) => {
                return Err(e.embed("While decoding main::Consensus"));
            },
        };
        let mut inner = match expect_array(f2) {
            Ok(a) => a,
            Err(e) => {
                return Err(e.embed("chain difficulty").embed("While decoding main::Consensus"));
            },
        };
        let d0 = match take_field(&mut inner, "chain difficulty") {
            Ok(v) => v,
            Err(e) => {
                return Err(e.embed("chain difficulty").embed("While decoding main::Consensus"));
            },
        };
        let chain_difficulty = match expect_u64(d0) {
            Ok(n) => n,
            Err(e) => {
                return Err(e.embed("chain difficulty").embed("While decoding main::Consensus"));
            },
        };
        let f3 = match take_field(&mut arr, "block signature") {
            Ok(v) => v,
            Err(e) => {
                return Err(e.embed("While decoding main::Consensus"));
            },
        };
        let block_signature = match BlockSignature::decode(f3) {
            Ok(x) => x,
            Err(e) => {
                return Err(e.embed("block signature").embed("While decoding main::Consensus"));
            },
        };
        if arr.len() > 0 {
            return Err(DecodeError::Cause(ErrorKind::UnparsedValues).embed(
                "While decoding main::Consensus",
            ));
        }
        Ok(Consensus { slot_id, leader_key, chain_difficulty, block_signature })
    }

    /// Decoding encoded consensus data gives it back.
    pub proof fn lemma_roundtrip(m: ConsensusModel)
        requires
            m.leader_key.len() == KEY_SIZE,
            m.block_signature matches BlockSignatureModel::Signature(s) ==> s.len() == KEY_SIZE,
        ensures
            Self::spec_decoded(Self::model_encoded(m)) == Ok::<ConsensusModel, ErrorKind>(m),
    {
        m.slot_id.lemma_roundtrip();
        BlockSignature::lemma_roundtrip(m.block_signature);
    }
}

/// The model of a transaction proof.
pub struct TxProofModel {
    pub number: u32,
    pub root: Seq<u8>,
    pub witnesses_hash: Seq<u8>,
}

/// The proof binding a header to the transaction payload: how many
/// transactions there are, the root of their merkle tree, and the digest of
/// their witnesses.
#[derive(Debug, PartialEq, Eq)]
pub struct TxProof {
    pub number: u32,
    pub root: HeaderHash,
    pub witnesses_hash: HeaderHash,
}

impl View for TxProof {
    type V = TxProofModel;

    open spec fn view(&self) -> TxProofModel {
        TxProofModel {
            number: self.number,
            root: self.root@,
            witnesses_hash: self.witnesses_hash@,
        }
    }
}

impl TxProof {
    /// The tree a transaction proof encodes to: count, root, witnesses.
    pub open spec fn model_encoded(m: TxProofModel) -> ValueModel {
        ValueModel::Array(
            seq![
                ValueModel::U64(m.number as u64),
                ValueModel::Bytes(m.root),
                ValueModel::Bytes(m.witnesses_hash),
            ],
        )
    }

    /// The transaction proof a tree decodes to, or why it is refused.
    pub open spec fn spec_decoded(v: ValueModel) -> Result<TxProofModel, ErrorKind> {
        match spec_array(v) {
            Err(k) => Err(k),
            Ok(s) => if s.len() < 1 {
                Err(ErrorKind::MissingField)
            } else {
                match spec_u32(s[0]) {
                    Err(k) => Err(k),
                    Ok(number) => if s.len() < 2 {
                        Err(ErrorKind::MissingField)
                    } else {
                        match HeaderHash::spec_decoded(s[1]) {
                            Err(k) => Err(k),
                            Ok(root) => if s.len() < 3 {
                                Err(ErrorKind::MissingField)
                            } else {
                                match HeaderHash::spec_decoded(s[2]) {
                                    Err(k) => Err(k),
                                    Ok(witnesses_hash) => if s.len() > 3 {
                                        Err(ErrorKind::UnparsedValues)
                                    } else {
                                        Ok(TxProofModel { number, root, witnesses_hash })
                                    },
                                }
                            },
                        }
                    },
                }
            },
        }
    }

    pub fn encode(&self) -> (r: Value)
        ensures
            r@ == Self::model_encoded(self@),
    {
        array3(
            Value::U64(self.number as u64),
            self.root.encode(),
            self.witnesses_hash.encode(),
        )
    }

    pub fn decode(value: Value) -> (r: Result<TxProof, DecodeError>)
        ensures
            result_models(r, Self::spec_decoded(value@)),
            r matches Err(e) ==> (e.kind() == ErrorKind::MissingField ==> ({
                &&& spec_array(value@) matches Ok(s)
                &&& s.len() < 3
                &&& e.innermost_context() == (if s.len() == 0 {
                    "number"@
                } else if s.len() == 1 {
                    "root"@
                } else {
                    "witnesses"@
                })
            })),
    {
        let mut arr = match expect_array(value) {
            Ok(a) => a,
            Err(e) => {
                return Err(e.embed("While decoding TxProof"));
            },
        };
        proof {
            reveal_strlit("number");
            reveal_strlit("root");
            reveal_strlit("witnesses");
        }
        let f0 = match take_field(&mut arr, "number") {
            Ok(v) => v,
            Err(e) => {
                return Err(e.embed("While decoding TxProof"));
            },
        };
        let number = match expect_u32(f0) {
            Ok(n) => n,
            Err(e) => {
                return Err(e.embed("number").embed("While decoding TxProof"));
            },
        };
        let f1 = match take_field(&mut arr, "root") {
            Ok(v) => v,
            Err(e) => {
                return Err(e.embed("While decoding TxProof"));
            },
        };
        let root = match HeaderHash::decode(f1) {
            Ok(x) => x,
            Err(e) => {
                return Err(e.embed("root").embed("While decoding TxProof"));
            },
        };
        let f2 = match take_field(&mut arr, "witnesses") {
            Ok(v) => v,
            Err(e) => {
                return Err(e.embed("While decoding TxProof"));
            },
        };
        let witnesses_hash = match HeaderHash::decode(f2) {
            Ok(x) => x,
            Err(e) => {
                return Err(e.embed("witnesses").embed("While decoding TxProof"));
            },
        };
        if arr.len() > 0 {
            return Err(DecodeError::Cause(ErrorKind::UnparsedValues).embed(
                "While decoding TxProof",
            ));
        }
        Ok(TxProof { number, root, witnesses_hash })
    }

    /// Decoding an encoded transaction proof gives it back.
    pub proof fn lemma_roundtrip(m: TxProofModel)
        requires
            m.root.len() == HASH_SIZE,
            m.witnesses_hash.len() == HASH_SIZE,
        ensures
            Self::spec_decoded(Self::model_encoded(m)) == Ok::<TxProofModel, ErrorKind>(m),
    {
    }
}

/// The model of a main body proof.
pub struct BodyProofModel {
    pub tx: TxProofModel,
    pub mpc: SscProofModel,
    pub proxy_sk: Seq<u8>,
    pub update: Seq<u8>,
}

/// The proof binding a main header to its body: the transaction proof, the
/// shared-secret proof, and the delegation and update digests.
#[derive(Debug, PartialEq, Eq)]
pub struct BodyProof {
    pub tx: TxProof,
    pub mpc: SscProof,
    pub proxy_sk: HeaderHash,
    pub update: HeaderHash,
}

impl View for BodyProof {
    type V = BodyProofModel;

    open spec fn view(&self) -> BodyProofModel {
        BodyProofModel {
            tx: self.tx@,
            mpc: self.mpc@,
            proxy_sk: self.proxy_sk@,
            update: self.update@,
        }
    }
}

impl BodyProof {
    pub fn new(tx: TxProof, mpc: SscProof, proxy_sk: HeaderHash, update: HeaderHash) -> (r:
        BodyProof)
        ensures
            r@ == (BodyProofModel { tx: tx@, mpc: mpc@, proxy_sk: proxy_sk@, update: update@ }),
    {
        BodyProof { tx, mpc, proxy_sk, update }
    }

    /// The tree a body proof encodes to: the four proofs in order.
    pub open spec fn model_encoded(m: BodyProofModel) -> ValueModel {
        ValueModel::Array(
            seq![
                TxProof::model_encoded(m.tx),
                SscProof::model_encoded(m.mpc),
                ValueModel::Bytes(m.proxy_sk),
                ValueModel::Bytes(m.update),
            ],
        )
    }

    /// The body proof a tree decodes to, or why it is refused.
    pub open spec fn spec_decoded(v: ValueModel) -> Result<BodyProofModel, ErrorKind> {
        match spec_array(v) {
            Err(k) => Err(k),
            Ok(s) => if s.len() < 1 {
                Err(ErrorKind::MissingField)
            } else {
                match TxProof::spec_decoded(s[0]) {
                    Err(k) => Err(k),
                    Ok(tx) => if s.len() < 2 {
                        Err(ErrorKind::MissingField)
                    } else {
                        match SscProof::spec_decoded(s[1]) {
                            Err(k) => Err(k),
                            Ok(mpc) => if s.len() < 3 {
                                Err(ErrorKind::MissingField)
                            } else {
                                match HeaderHash::spec_decoded(s[2]) {
                                    Err(k) => Err(k),
                                    Ok(proxy_sk) => if s.len() < 4 {
                                        Err(ErrorKind::MissingField)
                                    } else {
                                        match HeaderHash::spec_decoded(s[3]) {
                                            Err(k) => Err(k),
                                            Ok(update) => if s.len() > 4 {
                                                Err(ErrorKind::UnparsedValues)
                                            } else {
                                                Ok(BodyProofModel { tx, mpc, proxy_sk, update })
                                            },
                                        }
                                    },
                                }
                            },
                        }
                    },
                }
            },
        }
    }

    pub fn encode(&self) -> (r: Value)
        ensures
            r@ == Self::model_encoded(self@),
    {
        array4(
            self.tx.encode(),
            self.mpc.encode(),
            self.proxy_sk.encode(),
            self.update.encode(),
        )
    }

    pub fn decode(value: Value) -> (r: Result<BodyProof, DecodeError>)
        ensures
            result_models(r, Self::spec_decoded(value@)),
    {
        let mut arr = match expect_array(value) {
            Ok(a) => a,
            Err(e) => {
                return Err(e.embed("While decoding BodyProof"));
            },
        };
        let f0 = match take_field(&mut arr, "tx") {
            Ok(v) => v,
            Err(e) => {
                return Err(e.embed("While decoding BodyProof"));
            },
        };
        let tx = match TxProof::decode(f0) {
            Ok(x) => x,
            Err(e) => {
                return Err(e.embed("tx").embed("While decoding BodyProof"));
            },
        };
        let f1 = match take_field(&mut arr, "mpc") {
            Ok(v) => v,
            Err(e) => {
                return Err(e.embed("While decoding BodyProof"));
            },
        };
        let mpc = match SscProof::decode(f1) {
            Ok(x) => x,
            Err(e) => {
                return Err(e.embed("mpc").embed("While decoding BodyProof"));
            },
        };
        let f2 = match take_field(&mut arr, "proxy_sk") {
            Ok(v) => v,
            Err(e) => {
                return Err(e.embed("While decoding BodyProof"));
            },
        };
        let proxy_sk = match HeaderHash::decode(f2) {
            Ok(x) => x,
            Err(e) => {
                return Err(e.embed("proxy_sk").embed("While decoding BodyProof"));
            },
        };
        let f3 = match take_field(&mut arr, "update") {
            Ok(v) => v,
            Err(e) => {
                return Err(e.embed("While decoding BodyProof"));
            },
        };
        let update = match HeaderHash::decode(f3) {
            Ok(x) => x,
            Err(e) => {
                return Err(e.embed("update").embed("While decoding BodyProof"));
            },
        };
        if arr.len() > 0 {
            return Err(DecodeError::Cause(ErrorKind::UnparsedValues).embed(
                "While decoding BodyProof",
            ));
        }
        Ok(BodyProof { tx, mpc, proxy_sk, update })
    }

    /// Decoding an encoded body proof gives it back.
    pub proof fn lemma_roundtrip(m: BodyProofModel)
        requires
            m.tx.root.len() == HASH_SIZE,
            m.tx.witnesses_hash.len() == HASH_SIZE,
            match m.mpc {
                SscProofModel::Commitments(a, b) => a.len() == HASH_SIZE && b.len() == HASH_SIZE,
                SscProofModel::Openings(a, b) => a.len() == HASH_SIZE && b.len() == HASH_SIZE,
                SscProofModel::Shares(a, b) => a.len() == HASH_SIZE && b.len() == HASH_SIZE,
                SscProofModel::Certificate(a) => a.len() == HASH_SIZE,
            },
            m.proxy_sk.len() == HASH_SIZE,
            m.update.len() == HASH_SIZE,
        ensures
            Self::spec_decoded(Self::model_encoded(m)) == Ok::<BodyProofModel, ErrorKind>(m),
    {
        TxProof::lemma_roundtrip(m.tx);
        SscProof::lemma_roundtrip(m.mpc);
    }
}

/// The model of a main block header.
pub struct MainBlockHeaderModel {
    pub protocol_magic: ProtocolMagic,
    pub previous_header: Seq<u8>,
    pub body_proof: BodyProofModel,
    pub consensus: ConsensusModel,
    pub extra_data: HeaderExtraDataModel,
}

impl MainBlockHeaderModel {
    /// Every digest, key and signature in the header has its exact size.
    pub open spec fn wf(self) -> bool {
        &&& self.previous_header.len() == HASH_SIZE
        &&& self.body_proof.tx.root.len() == HASH_SIZE
        &&& self.body_proof.tx.witnesses_hash.len() == HASH_SIZE
        &&& match self.body_proof.mpc {
            SscProofModel::Commitments(a, b) => a.len() == HASH_SIZE && b.len() == HASH_SIZE,
            SscProofModel::Openings(a, b) => a.len() == HASH_SIZE && b.len() == HASH_SIZE,
            SscProofModel::Shares(a, b) => a.len() == HASH_SIZE && b.len() == HASH_SIZE,
            SscProofModel::Certificate(a) => a.len() == HASH_SIZE,
        }
        &&& self.body_proof.proxy_sk.len() == HASH_SIZE
        &&& self.body_proof.update.len() == HASH_SIZE
        &&& self.consensus.leader_key.len() == KEY_SIZE
        &&& (self.consensus.block_signature matches BlockSignatureModel::Signature(s) ==> s.len()
            == KEY_SIZE)
        &&& self.extra_data.extra_data_proof.len() == HASH_SIZE
    }
}

/// A main block header.  Its previous-header digest points at the block
/// before it on the chain.
#[derive(Debug, PartialEq, Eq)]
pub struct MainBlockHeader {
    pub protocol_magic: ProtocolMagic,
    pub previous_header: HeaderHash,
    pub body_proof: BodyProof,
    pub consensus: Consensus,
    pub extra_data: HeaderExtraData,
}

impl View for MainBlockHeader {
    type V = MainBlockHeaderModel;

    open spec fn view(&self) -> MainBlockHeaderModel {
        MainBlockHeaderModel {
            protocol_magic: self.protocol_magic@,
            previous_header: self.previous_header@,
            body_proof: self.body_proof@,
            consensus: self.consensus@,
            extra_data: self.extra_data@,
        }
    }
}

impl MainBlockHeader {
    pub fn new(
        pm: ProtocolMagic,
        pb: HeaderHash,
        bp: BodyProof,
        c: Consensus,
        ed: HeaderExtraData,
    ) -> (r: MainBlockHeader)
        ensures
            r@ == (MainBlockHeaderModel {
                protocol_magic: pm@,
                previous_header: pb@,
                body_proof: bp@,
                consensus: c@,
                extra_data: ed@,
            }),
    {
        MainBlockHeader {
            protocol_magic: pm,
            previous_header: pb,
            body_proof: bp,
            consensus: c,
            extra_data: ed,
        }
    }

    /// The digest of the block before this one on the chain.
    pub fn get_previous_header(&self) -> (r: HeaderHash)
        ensures
            r@ == self@.previous_header,
    {
        self.previous_header.clone()
    }

    /// The slot this block was minted in.
    pub fn get_slotid(&self) -> (r: SlotId)
        ensures
            r == self@.consensus.slot_id,
    {
        self.consensus.slot_id
    }

    /// The tree a main header encodes to: the five fields in order.
    pub open spec fn model_encoded(m: MainBlockHeaderModel) -> ValueModel {
        ValueModel::Array(
            seq![
                m.protocol_magic.spec_encoded(),
                ValueModel::Bytes(m.previous_header),
                BodyProof::model_encoded(m.body_proof),
                Consensus::model_encoded(m.consensus),
                HeaderExtraData::model_encoded(m.extra_data),
            ],
        )
    }

    /// The main header a tree decodes to, or why it is refused.
    pub open spec fn spec_decoded(v: ValueModel) -> Result<MainBlockHeaderModel, ErrorKind> {
        match spec_array(v) {
            Err(k) => Err(k),
            Ok(s) => if s.len() < 1 {
                Err(ErrorKind::MissingField)
            } else {
                match ProtocolMagic::spec_decoded(s[0]) {
                    Err(k) => Err(k),
                    Ok(protocol_magic) => if s.len() < 2 {
                        Err(ErrorKind::MissingField)
                    } else {
                        match HeaderHash::spec_decoded(s[1]) {
                            Err(k) => Err(k),
                            Ok(previous_header) => if s.len() < 3 {
                                Err(ErrorKind::MissingField)
                            } else {
                                match BodyProof::spec_decoded(s[2]) {
                                    Err(k) => Err(k),
                                    Ok(body_proof) => if s.len() < 4 {
                                        Err(ErrorKind::MissingField)
                                    } else {
                                        match Consensus::spec_decoded(s[3]) {
                                            Err(k) => Err(k),
                                            Ok(consensus) => if s.len() < 5 {
                                                Err(ErrorKind::MissingField)
                                            } else {
                                                match HeaderExtraData::spec_decoded(s[4]) {
                                                    Err(k) => Err(k),
                                                    Ok(extra_data) => if s.len() > 5 {
                                                        Err(ErrorKind::UnparsedValues)
                                                    } else {
                                                        Ok(
                                                            MainBlockHeaderModel {
                                                                protocol_magic,
                                                                previous_header,
                                                                body_proof,
                                                                consensus,
                                                                extra_data,
                                                            },
                                                        )
                                                    },
                                                }
                                            },
                                        }
                                    },
                                }
                            },
                        }
                    },
                }
            },
        }
    }

    pub fn encode(&self) -> (r: Value)
        ensures
            r@ == Self::model_encoded(self@),
    {
        array5(
            self.protocol_magic.encode(),
            self.previous_header.encode(),
            self.body_proof.encode(),
            self.consensus.encode(),
            self.extra_data.encode(),
        )
    }

    pub fn decode(value: Value) -> (r: Result<MainBlockHeader, DecodeError>)
        ensures
            result_models(r, Self::spec_decoded(value@)),
    {
        let mut arr = match expect_array(value) {
            Ok(a) => a,
            Err(e) => {
                return Err(e.embed("While decoding a MainBlockHeader"));
            },
        };
        let f0 = match take_field(&mut arr, "protocol magic") {
            Ok(v) => v,
            Err(e) => {
                return Err(e.embed("While decoding a MainBlockHeader"));
            },
        };
        let protocol_magic = match ProtocolMagic::decode(f0) {
            Ok(x) => x,
            Err(e) => {
                return Err(e.embed("protocol magic").embed("While decoding a MainBlockHeader"));
            },
        };
        let f1 = match take_field(&mut arr, "Previous Header Hash") {
            Ok(v) => v,
            Err(e) => {
                return Err(e.embed("While decoding a MainBlockHeader"));
            },
        };
        let previous_header = match HeaderHash::decode(f1) {
            Ok(x) => x,
            Err(e) => {
                return Err(e.embed("Previous Header Hash").embed(
                    "While decoding a MainBlockHeader",
                ));
            },
        };
        let f2 = match take_field(&mut arr, "body proof") {
            Ok(v) => v,
            Err(e) => {
                return Err(e.embed("While decoding a MainBlockHeader"));
            },
        };
        let body_proof = match BodyProof::decode(f2) {
            Ok(x) => x,
            Err(e) => {
                return Err(e.embed("body proof").embed("While decoding a MainBlockHeader"));
            },
        };
        let f3 = match take_field(&mut arr, "consensus") {
            Ok(v) => v,
            Err(e) => {
                return Err(e.embed("While decoding a MainBlockHeader"));
            },
        };
        let consensus = match Consensus::decode(f3) {
            Ok(x) => x,
            Err(e) => {
                return Err(e.embed("consensus").embed("While decoding a MainBlockHeader"));
            },
        };
        let f4 = match take_field(&mut arr, "extra_data") {
            Ok(v) => v,
            Err(e) => {
                return Err(e.embed("While decoding a MainBlockHeader"));
            },
        };
        let extra_data = match HeaderExtraData::decode(f4) {
            Ok(x) => x,
            Err(e) => {
                return Err(e.embed("extra_data").embed("While decoding a MainBlockHeader"));
            },
        };
        if arr.len() > 0 {
            return Err(DecodeError::Cause(ErrorKind::UnparsedValues).embed(
                "While decoding a MainBlockHeader",
            ));
        }
        Ok(MainBlockHeader { protocol_magic, previous_header, body_proof, consensus, extra_data })
    }

    /// Decoding an encoded main header gives it back.
    pub proof fn lemma_roundtrip(m: MainBlockHeaderModel)
        requires
            m.previous_header.len() == HASH_SIZE,
            m.body_proof.tx.root.len() == HASH_SIZE,
            m.body_proof.tx.witnesses_hash.len() == HASH_SIZE,
            match m.body_proof.mpc {
                SscProofModel::Commitments(a, b) => a.len() == HASH_SIZE && b.len() == HASH_SIZE,
                SscProofModel::Openings(a, b) => a.len() == HASH_SIZE && b.len() == HASH_SIZE,
                SscProofModel::Shares(a, b) => a.len() == HASH_SIZE && b.len() == HASH_SIZE,
                SscProofModel::Certificate(a) => a.len() == HASH_SIZE,
            },
            m.body_proof.proxy_sk.len() == HASH_SIZE,
            m.body_proof.update.len() == HASH_SIZE,
            m.consensus.leader_key.len() == KEY_SIZE,
            m.consensus.block_signature matches BlockSignatureModel::Signature(s) ==> s.len()
                == KEY_SIZE,
            m.extra_data.extra_data_proof.len() == HASH_SIZE,
        ensures
            Self::spec_decoded(Self::model_encoded(m)) == Ok::<MainBlockHeaderModel, ErrorKind>(m),
    {
        m.protocol_magic.lemma_roundtrip();
        BodyProof::lemma_roundtrip(m.body_proof);
        Consensus::lemma_roundtrip(m.consensus);
        HeaderExtraData::lemma_roundtrip(m.extra_data);
    }
}

/// The model of a main block.
pub struct BlockModel {
    pub header: MainBlockHeaderModel,
    pub body: BodyModel,
    pub extra: ValueModel,
}

/// A main block: its header, the payload body, and an opaque extra
/// payload.
#[derive(Debug, PartialEq, Eq)]
pub struct Block {
    pub header: MainBlockHeader,
    pub body: Body,
    pub extra: Value,
}

impl View for Block {
    type V = BlockModel;

    open spec fn view(&self) -> BlockModel {
        BlockModel { header: self.header@, body: self.body@, extra: self.extra@ }
    }
}

impl Block {
    pub fn new(h: MainBlockHeader, b: Body, e: Value) -> (r: Block)
        ensures
            r@ == (BlockModel { header: h@, body: b@, extra: e@ }),
    {
        Block { header: h, body: b, extra: e }
    }

    /// The tree a main block encodes to: header, body, extra payload.
    pub open spec fn model_encoded(m: BlockModel) -> ValueModel {
        ValueModel::Array(
            seq![
                MainBlockHeader::model_encoded(m.header),
                Body::model_encoded(m.body),
                m.extra,
            ],
        )
    }

    /// The main block a tree decodes to, or why it is refused.
    pub open spec fn spec_decoded(v: ValueModel) -> Result<BlockModel, ErrorKind> {
        match spec_array(v) {
            Err(k) => Err(k),
            Ok(s) => if s.len() < 1 {
                Err(ErrorKind::MissingField)
            } else {
                match MainBlockHeader::spec_decoded(s[0]) {
                    Err(k) => Err(k),
                    Ok(header) => if s.len() < 2 {
                        Err(ErrorKind::MissingField)
                    } else {
                        match Body::spec_decoded(s[1]) {
                            Err(k) => Err(k),
                            Ok(body) => if s.len() < 3 {
                                Err(ErrorKind::MissingField)
                            } else {
                                let extra = s[2];
                                if s.len() > 3 {
                                    Err(ErrorKind::UnparsedValues)
                                } else {
                                    Ok(BlockModel { header, body, extra })
                                }
                            },
                        }
                    },
                }
            },
        }
    }

    pub fn encode(&self) -> (r: Value)
        ensures
            r@ == Self::model_encoded(self@),
    {
        array3(self.header.encode(), self.body.encode(), clone_value(&self.extra))
    }

    pub fn decode(value: Value) -> (r: Result<Block, DecodeError>)
        ensures
            result_models(r, Self::spec_decoded(value@)),
    {
        let mut arr = match expect_array(value) {
            Ok(a) => a,
            Err(e) => {
                return Err(e.embed("While decoding block::Block"));
            },
        };
        let f0 = match take_field(&mut arr, "header") {
            Ok(v) => v,
            Err(e) => {
                return Err(e.embed("While decoding block::Block"));
            },
        };
        let header = match MainBlockHeader::decode(f0) {
            Ok(x) => x,
            Err(e) => {
                return Err(e.embed("header").embed("While decoding block::Block"));
            },
        };
        let f1 = match take_field(&mut arr, "body") {
            Ok(v) => v,
            Err(e) => {
                return Err(e.embed("While decoding block::Block"));
            },
        };
        let body = match Body::decode(f1) {
            Ok(x) => x,
            Err(e) => {
                return Err(e.embed("body").embed("While decoding block::Block"));
            },
        };
        let f2 = match take_field(&mut arr, "extra") {
            Ok(v) => v,
            Err(e) => {
                return Err(e.embed("While decoding block::Block"));
            },
        };
        if arr.len() > 0 {
            return Err(DecodeError::Cause(ErrorKind::UnparsedValues).embed(
                "While decoding block::Block",
            ));
        }
        Ok(Block { header, body, extra: f2 })
    }

    /// Decoding an encoded main block gives it back.
    pub proof fn lemma_roundtrip(m: BlockModel)
        requires
            m.header.previous_header.len() == HASH_SIZE,
            m.header.body_proof.tx.root.len() == HASH_SIZE,
            m.header.body_proof.tx.witnesses_hash.len() == HASH_SIZE,
            match m.header.body_proof.mpc {
                SscProofModel::Commitments(a, b) => a.len() == HASH_SIZE && b.len() == HASH_SIZE,
                SscProofModel::Openings(a, b) => a.len() == HASH_SIZE && b.len() == HASH_SIZE,
                SscProofModel::Shares(a, b) => a.len() == HASH_SIZE && b.len() == HASH_SIZE,
                SscProofModel::Certificate(a) => a.len() == HASH_SIZE,
            },
            m.header.body_proof.proxy_sk.len() == HASH_SIZE,
            m.header.body_proof.update.len() == HASH_SIZE,
            m.header.consensus.leader_key.len() == KEY_SIZE,
            m.header.consensus.block_signature matches BlockSignatureModel::Signature(s)
                ==> s.len() == KEY_SIZE,
            m.header.extra_data.extra_data_proof.len() == HASH_SIZE,
        ensures
            Self::spec_decoded(Self::model_encoded(m)) == Ok::<BlockModel, ErrorKind>(m),
    {
        MainBlockHeader::lemma_roundtrip(m.header);
    }
}

} // verus!
