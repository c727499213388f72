//! The wire message layer: the handshake sent when a connection opens, the
//! framing of the requests for headers and blocks, and the response that
//! carries headers back.
//!
//! Every message is a tag byte and a payload; the payload is the canonical
//! wire form of a value tree that the contracts here spell out in full.

use vstd::prelude::*;

verus! {

use crate::cbor::{
    Value,
    ValueModel,
    DecodeError,
    ErrorKind,
    encoded,
    encode_to_cbor,
    result_models,
    value_models,
    value_model,
    lemma_value_models_index,
    lemma_pair_models_index,
    pair_models,
    spec_u64,
    spec_array,
    spec_iarray,
    expect_u64,
    expect_array,
    expect_iarray,
    take_field,
    array2,
    array3,
    array4,
    clone_byte_vec,
};
use crate::block::{BlockHeader, BlockHeaderModel};
use crate::types::HeaderHash;

/// A wire message: its tag byte and its encoded payload.
pub type Message = (u8, Vec<u8>);

/// The request kinds the peer understands.
#[derive(Debug, Clone, Copy, PartialEq, Eq, Structural)]
pub enum MsgType {
    MsgSubscribe,
    MsgGetHeaders,
    MsgGetBlocks,
}

impl MsgType {
    /// The tag byte of the request kind.
    pub fn to_u8(self) -> (r: u8)
        ensures
            self == MsgType::MsgSubscribe ==> r == 0x0e,
            self == MsgType::MsgGetHeaders ==> r == 0x04,
            self == MsgType::MsgGetBlocks ==> r == 0x06,
    {
        match self {
            MsgType::MsgSubscribe => 0x0e,
            MsgType::MsgGetHeaders => 0x04,
            MsgType::MsgGetBlocks => 0x06,
        }
    }
}

/// The digests of a sequence of hashes.
pub open spec fn hashes_view(s: Seq<HeaderHash>) -> Seq<Seq<u8>> {
    Seq::new(s.len(), |i: int| s[i]@)
}

/// A capability table as plain data: a message tag with the bytes of its
/// framing descriptor.
pub open spec fn caps_view(caps: Seq<(u64, Vec<u8>)>) -> Seq<(u64, Seq<u8>)> {
    Seq::new(caps.len(), |i: int| (caps[i].0, caps[i].1@))
}

/// The tree a capability table encodes to: each tag keyed to a pair of a
/// zero and its framing descriptor bytes under the encoded-value tag.
pub open spec fn caps_model(caps: Seq<(u64, Seq<u8>)>) -> Seq<(ValueModel, ValueModel)> {
    Seq::new(
        caps.len(),
        |i: int|
            (
                ValueModel::U64(caps[i].0),
                ValueModel::Array(
                    seq![
                        ValueModel::U64(0),
                        ValueModel::Tag(24, Box::new(ValueModel::Bytes(caps[i].1))),
                    ],
                ),
            ),
    )
}

/// The tree a handshake encodes to: the protocol magic, the protocol
/// version triple, and the two capability tables.
pub open spec fn handshake_model(
    magic: u64,
    ins: Seq<(u64, Seq<u8>)>,
    outs: Seq<(u64, Seq<u8>)>,
) -> ValueModel {
    ValueModel::Array(
        seq![
            ValueModel::U64(magic),
            ValueModel::Array(seq![ValueModel::U64(0), ValueModel::U64(1), ValueModel::U64(0)]),
            ValueModel::Object(caps_model(ins)),
            ValueModel::Object(caps_model(outs)),
        ],
    )
}

fn caps_object(caps: &Vec<(u64, Vec<u8>)>) -> (r: Value)
    ensures
        r@ == ValueModel::Object(caps_model(caps_view(caps@))),
{
    let mut pairs: Vec<(Value, Value)> = Vec::new();
    let mut i: usize = 0;
    while i < caps.len()
        invariant
            i <= caps.len(),
            pairs@.len() == i,
            forall|j: int|
                0 <= j < i ==> value_model(#[trigger] pairs@[j].0) == ValueModel::U64(caps@[j].0)
                    && value_model(pairs@[j].1) == ValueModel::Array(
                    seq![
                        ValueModel::U64(0),
                        ValueModel::Tag(24, Box::new(ValueModel::Bytes(caps@[j].1@))),
                    ],
                ),
        decreases caps.len() - i,
    {
        let kk = caps[i].0;
        let cb = clone_byte_vec(&caps[i].1);
        let ghost cbm = cb@;
        let bv = Value::Bytes(cb);
        proof {
            assert(bv@ == ValueModel::Bytes(cbm));
        }
        let tagv = Value::Tag(24, Box::new(bv));
        proof {
            assert(tagv@ == ValueModel::Tag(24, Box::new(ValueModel::Bytes(cbm))));
        }
        let descr = array2(Value::U64(0), tagv);
        let ghost dm = descr@;
        proof {
            assert(dm == ValueModel::Array(
                seq![
                    ValueModel::U64(0),
                    ValueModel::Tag(24, Box::new(ValueModel::Bytes(caps@[i as int].1@))),
                ],
            ));
        }
        let ghost pairs_before = pairs@;
        pairs.push((Value::U64(kk), descr));
        proof {
            assert forall|j: int|
                0 <= j < i + 1 implies (value_model(#[trigger] pairs@[j].0) == ValueModel::U64(
                caps@[j].0,
            ) && value_model(pairs@[j].1) == ValueModel::Array(
                seq![
                    ValueModel::U64(0),
                    ValueModel::Tag(24, Box::new(ValueModel::Bytes(caps@[j].1@))),
                ],
            )) by {
                if j < i as int {
                    assert(pairs@[j] == pairs_before[j]);
                    assert(value_model(pairs_before[j].0) == ValueModel::U64(caps@[j].0));
                } else {
                    assert(pairs@[j].0 == Value::U64(kk));
                    assert(value_model(pairs@[j].1) == dm);
                }
            }
        }
        i = i + 1;
    }
    proof {
        lemma_pair_models_index(pairs@);
        assert forall|j: int| 0 <= j < pairs@.len() implies pair_models(pairs@)[j] == caps_model(
            caps_view(caps@),
        )[j] by {
            assert(pair_models(pairs@)[j] == (value_model(pairs@[j].0), value_model(pairs@[j].1)));
        }
        assert(pair_models(pairs@) =~= caps_model(caps_view(caps@)));
    }
    Value::Object(pairs)
}

/// Builds the handshake tree from the protocol magic and the two
/// capability tables, each a list of message tags with their framing
/// descriptor bytes.
pub fn handshake(
    protocol_magic: u32,
    in_caps: &Vec<(u64, Vec<u8>)>,
    out_caps: &Vec<(u64, Vec<u8>)>,
) -> (r: Value)
    ensures
        r@ == handshake_model(
            protocol_magic as u64,
            caps_view(in_caps@),
            caps_view(out_caps@),
        ),
{
    array4(
        Value::U64(protocol_magic as u64),
        array3(Value::U64(0), Value::U64(1), Value::U64(0)),
        caps_object(in_caps),
        caps_object(out_caps),
    )
}

/// The capability table declared for incoming messages.
pub open spec fn mainnet_in_caps() -> Seq<(u64, Seq<u8>)> {
    seq![
        (4u64, seq![0x05u8]),
        (5u64, seq![0x04u8]),
        (6u64, seq![0x07u8]),
        (34u64, seq![0x18u8, 0x5eu8]),
        (37u64, seq![0x18u8, 0x5eu8]),
        (43u64, seq![0x18u8, 0x5du8]),
        (49u64, seq![0x18u8, 0x5cu8]),
        (55u64, seq![0x18u8, 0x62u8]),
        (61u64, seq![0x18u8, 0x61u8]),
        (67u64, seq![0x18u8, 0x60u8]),
        (73u64, seq![0x18u8, 0x5fu8]),
        (83u64, seq![0x00u8]),
        (92u64, seq![0x18u8, 0x31u8]),
        (93u64, seq![0x18u8, 0x2bu8]),
        (94u64, seq![0x18u8, 0x25u8]),
        (95u64, seq![0x18u8, 0x49u8]),
        (96u64, seq![0x18u8, 0x43u8]),
        (97u64, seq![0x18u8, 0x3du8]),
        (98u64, seq![0x18u8, 0x37u8]),
    ]
}

/// The capability table declared for outgoing messages.
pub open spec fn mainnet_out_caps() -> Seq<(u64, Seq<u8>)> {
    seq![
        (4u64, seq![0x05u8]),
        (5u64, seq![0x04u8]),
        (6u64, seq![0x07u8]),
        (13u64, seq![0x00u8]),
        (14u64, seq![0x00u8]),
        (37u64, seq![0x18u8, 0x5eu8]),
        (43u64, seq![0x18u8, 0x5du8]),
        (49u64, seq![0x18u8, 0x5cu8]),
        (55u64, seq![0x18u8, 0x62u8]),
        (61u64, seq![0x18u8, 0x61u8]),
        (67u64, seq![0x18u8, 0x60u8]),
        (73u64, seq![0x18u8, 0x5fu8]),
        (83u64, seq![0x00u8]),
    ]
}

fn push_cap1(caps: &mut Vec<(u64, Vec<u8>)>, k: u64, a: u8)
    ensures
        caps_view(final(caps)@) == caps_view(old(caps)@).push((k, seq![a])),
{
    let mut b: Vec<u8> = Vec::new();
    b.push(a);
    proof {
        assert(b@ =~= seq![a]);
    }
    caps.push((k, b));
    proof {
        assert(caps_view(caps@) =~~= caps_view(old(caps)@).push((k, seq![a])));
    }
}

fn push_cap2(caps: &mut Vec<(u64, Vec<u8>)>, k: u64, a: u8, b: u8)
    ensures
        caps_view(final(caps)@) == caps_view(old(caps)@).push((k, seq![a, b])),
{
    let mut v: Vec<u8> = Vec::new();
    v.push(a);
    v.push(b);
    proof {
        assert(v@ =~= seq![a, b]);
    }
    caps.push((k, v));
    proof {
        assert(caps_view(caps@) =~~= caps_view(old(caps)@).push((k, seq![a, b])));
    }
}

/// The handshake sent once when a connection opens: the protocol magic and
/// the supported message tags, dynamically encoded.
pub fn send_handshake(protocol_magic: u32) -> (r: Vec<u8>)
    ensures
        r@ == encoded(
            handshake_model(protocol_magic as u64, mainnet_in_caps(), mainnet_out_caps()),
        ),
{
    let mut ins: Vec<(u64, Vec<u8>)> = Vec::new();
    push_cap1(&mut ins, 4, 0x05);
    push_cap1(&mut ins, 5, 0x04);
    push_cap1(&mut ins, 6, 0x07);
    push_cap2(&mut ins, 34, 0x18, 0x5e);
    push_cap2(&mut ins, 37, 0x18, 0x5e);
    push_cap2(&mut ins, 43, 0x18, 0x5d);
    push_cap2(&mut ins, 49, 0x18, 0x5c);
    push_cap2(&mut ins, 55, 0x18, 0x62);
    push_cap2(&mut ins, 61, 0x18, 0x61);
    push_cap2(&mut ins, 67, 0x18, 0x60);
    push_cap2(&mut ins, 73, 0x18, 0x5f);
    push_cap1(&mut ins, 83, 0x00);
    push_cap2(&mut ins, 92, 0x18, 0x31);
    push_cap2(&mut ins, 93, 0x18, 0x2b);
    push_cap2(&mut ins, 94, 0x18, 0x25);
    push_cap2(&mut ins, 95, 0x18, 0x49);
    push_cap2(&mut ins, 96, 0x18, 0x43);
    push_cap2(&mut ins, 97, 0x18, 0x3d);
    push_cap2(&mut ins, 98, 0x18, 0x37);
    proof {
        assert(caps_view(ins@) =~~= mainnet_in_caps());
    }
    let mut outs: Vec<(u64, Vec<u8>)> = Vec::new();
    push_cap1(&mut outs, 4, 0x05);
    push_cap1(&mut outs, 5, 0x04);
    push_cap1(&mut outs, 6, 0x07);
    push_cap1(&mut outs, 13, 0x00);
    push_cap1(&mut outs, 14, 0x00);
    push_cap2(&mut outs, 37, 0x18, 0x5e);
    push_cap2(&mut outs, 43, 0x18, 0x5d);
    push_cap2(&mut outs, 49, 0x18, 0x5c);
    push_cap2(&mut outs, 55, 0x18, 0x62);
    push_cap2(&mut outs, 61, 0x18, 0x61);
    push_cap2(&mut outs, 67, 0x18, 0x60);
    push_cap2(&mut outs, 73, 0x18, 0x5f);
    push_cap1(&mut outs, 83, 0x00);
    proof {
        assert(caps_view(outs@) =~~= mainnet_out_caps());
    }
    let v = handshake(protocol_magic, &ins, &outs);
    encode_to_cbor(&v)
}

/// The fixed acknowledgement bytes sent right after the handshake.
pub fn send_hardcoded_blob_after_handshake() -> (r: Vec<u8>)
    ensures
        r@ == seq![0x53u8, 0x78u8, 0x29u8, 0x6eu8, 0xc5u8, 0xd4u8, 0x5cu8, 0x95u8, 0x24u8],
{
    let mut v: Vec<u8> = Vec::new();
    v.push(0x53);
    v.push(0x78);
    v.push(0x29);
    v.push(0x6e);
    v.push(0xc5);
    v.push(0xd4);
    v.push(0x5c);
    v.push(0x95);
    v.push(0x24);
    proof {
        assert(v@ =~= seq![0x53u8, 0x78u8, 0x29u8, 0x6eu8, 0xc5u8, 0xd4u8, 0x5cu8, 0x95u8, 0x24u8]);
    }
    v
}

/// Asks the peer to keep sending new headers; the payload is a single
/// integer telling whether the subscription should be kept alive.
pub fn send_msg_subscribe(keep_alive: bool) -> (r: Message)
    ensures
        r.0 == 0x0e,
        r.1@ == encoded(
            ValueModel::U64(
                if keep_alive {
                    43u64
                } else {
                    42u64
                },
            ),
        ),
{
    let value: u64 = if keep_alive {
        43
    } else {
        42
    };
    let dat = encode_to_cbor(&Value::U64(value));
    (0x0e, dat)
}

/// The tree a get-headers request encodes to: the known digests to start
/// from, and the digest to stop at, if one is given.
pub open spec fn getheaders_model(froms: Seq<Seq<u8>>, to: Option<Seq<u8>>) -> ValueModel {
    ValueModel::Array(
        seq![
            ValueModel::IArray(Seq::new(froms.len(), |i: int| ValueModel::Bytes(froms[i]))),
            match to {
                None => ValueModel::Array(Seq::<ValueModel>::empty()),
                Some(h) => ValueModel::Array(seq![ValueModel::Bytes(h)]),
            },
        ],
    )
}

/// Asks the peer for the headers between the known digests and the target.
pub fn send_msg_getheaders(froms: &Vec<HeaderHash>, to: Option<&HeaderHash>) -> (r: Message)
    ensures
        r.0 == 0x04,
        r.1@ == encoded(
            getheaders_model(
                hashes_view(froms@),
                match to {
                    None => None,
                    Some(h) => Some(h@),
                },
            ),
        ),
{
    let mut from_encoded: Vec<Value> = Vec::new();
    let mut i: usize = 0;
    while i < froms.len()
        invariant
            i <= froms.len(),
            from_encoded@.len() == i,
            forall|j: int|
                0 <= j < i ==> value_model(#[trigger] from_encoded@[j]) == ValueModel::Bytes(
                    froms@[j]@,
                ),
        decreases froms.len() - i,
    {
        from_encoded.push(Value::Bytes(clone_byte_vec(froms[i].bytes())));
        i = i + 1;
    }
    proof {
        lemma_value_models_index(from_encoded@);
        assert forall|j: int|
            0 <= j < from_encoded@.len() implies value_models(from_encoded@)[j]
            == ValueModel::Bytes(hashes_view(froms@)[j]) by {
            assert(value_models(from_encoded@)[j] == value_model(from_encoded@[j]));
            assert(hashes_view(froms@)[j] == froms@[j]@);
        }
        assert(value_models(from_encoded@) =~= Seq::new(
            hashes_view(froms@).len(),
            |i: int| ValueModel::Bytes(hashes_view(froms@)[i]),
        ));
    }
    let to_encoded = match to {
        None => {
            let none_arr: Vec<Value> = Vec::new();
            proof {
                assert(value_models(none_arr@) =~= Seq::<ValueModel>::empty());
            }
            Value::Array(none_arr)
        },
        Some(h) => {
            let mut one: Vec<Value> = Vec::new();
            one.push(Value::Bytes(clone_byte_vec(h.bytes())));
            proof {
                lemma_value_models_index(one@);
                assert(value_models(one@) =~= seq![ValueModel::Bytes(h@)]);
            }
            Value::Array(one)
        },
    };
    proof {
        let tm = (match to {
            None => ValueModel::Array(Seq::<ValueModel>::empty()),
            Some(h) => ValueModel::Array(seq![ValueModel::Bytes(h@)]),
        });
        assert(to_encoded@ == tm);
    }
    let ghost fe = value_models(from_encoded@);
    let ghost tm2 = to_encoded@;
    let v = array2(Value::IArray(from_encoded), to_encoded);
    proof {
        let m = getheaders_model(
            hashes_view(froms@),
            match to {
                None => None,
                Some(h) => Some(h@),
            },
        );
        assert(seq![ValueModel::IArray(fe), tm2] =~= (match m {
            ValueModel::Array(s) => s,
            _ => Seq::<ValueModel>::empty(),
        }));
        assert(v@ == m);
    }
    let dat = encode_to_cbor(&v);
    (0x04, dat)
}

/// Asks the peer for the raw blocks in the inclusive digest range.
pub fn send_msg_getblocks(from: &HeaderHash, to: &HeaderHash) -> (r: Message)
    ensures
        r.0 == 0x06,
        r.1@ == encoded(
            ValueModel::Array(seq![ValueModel::Bytes(from@), ValueModel::Bytes(to@)]),
        ),
{
    let v = array2(
        Value::Bytes(clone_byte_vec(from.bytes())),
        Value::Bytes(clone_byte_vec(to.bytes())),
    );
    let dat = encode_to_cbor(&v);
    (0x06, dat)
}

/// The headers a sequence of trees decodes to: each in turn, stopping at
/// the first refusal.
pub open spec fn headers_decoded(s: Seq<ValueModel>) -> Result<Seq<BlockHeaderModel>, ErrorKind>
    decreases s.len(),
{
    if s.len() == 0 {
        Ok(Seq::empty())
    } else {
        match headers_decoded(s.drop_last()) {
            Err(k) => Err(k),
            Ok(rest) => match BlockHeader::spec_decoded(s.last()) {
                Err(k) => Err(k),
                Ok(h) => Ok(rest.push(h)),
            },
        }
    }
}

/// If every tree before `i` decodes and the tree at `i` is refused, the
/// whole sequence is refused with that cause.
proof fn lemma_headers_first_error(s: Seq<ValueModel>, i: int, k: ErrorKind)
    requires
        0 <= i < s.len(),
        headers_decoded(s.subrange(0, i)) is Ok,
        BlockHeader::spec_decoded(s[i]) == Err::<BlockHeaderModel, ErrorKind>(k),
    ensures
        headers_decoded(s) == Err::<Seq<BlockHeaderModel>, ErrorKind>(k),
    decreases s.len(),
{
    if i == s.len() - 1 {
        assert(s.drop_last() =~= s.subrange(0, i));
    } else {
        assert(s.drop_last().subrange(0, i) =~= s.subrange(0, i));
        lemma_headers_first_error(s.drop_last(), i, k);
    }
}

/// The models of a sequence of headers.
pub open spec fn headers_view(s: Seq<BlockHeader>) -> Seq<BlockHeaderModel> {
    Seq::new(s.len(), |i: int| s[i]@)
}

/// Decoding the encodings of a sequence of well-formed headers gives the
/// sequence back.
pub proof fn lemma_headers_roundtrip(hs: Seq<BlockHeaderModel>)
    requires
        forall|i: int| 0 <= i < hs.len() ==> (#[trigger] hs[i]).wf(),
    ensures
        headers_decoded(Seq::new(hs.len(), |i: int| BlockHeader::model_encoded(hs[i]))) == Ok::<
            Seq<BlockHeaderModel>,
            ErrorKind,
        >(hs),
    decreases hs.len(),
{
    let enc = Seq::new(hs.len(), |i: int| BlockHeader::model_encoded(hs[i]));
    if hs.len() == 0 {
        assert(hs =~= Seq::<BlockHeaderModel>::empty());
    } else {
        let prefix = hs.drop_last();
        lemma_headers_roundtrip(prefix);
        assert(enc.drop_last() =~= Seq::new(
            prefix.len(),
            |i: int| BlockHeader::model_encoded(prefix[i]),
        ));
        BlockHeader::lemma_roundtrip(hs.last());
        assert(enc.last() == BlockHeader::model_encoded(hs.last()));
        assert(prefix.push(hs.last()) =~= hs);
    }
}

/// The model of a header response.
pub enum BlockHeaderResponseModel {
    Headers(Seq<BlockHeaderModel>),
}

/// The peer's answer to a get-headers request: the headers, newest first
/// as the peer sent them.
#[derive(Debug, PartialEq, Eq)]
pub enum BlockHeaderResponse {
    Headers(Vec<BlockHeader>),
}

impl View for BlockHeaderResponse {
    type V = BlockHeaderResponseModel;

    open spec fn view(&self) -> BlockHeaderResponseModel {
        match self {
            BlockHeaderResponse::Headers(hs) => BlockHeaderResponseModel::Headers(headers_view(hs@)),
        }
    }
}

impl BlockHeaderResponse {
    /// The tree a response encodes to: the success discriminant, then the
    /// headers one after another.
    pub open spec fn model_encoded(m: BlockHeaderResponseModel) -> ValueModel {
        match m {
            BlockHeaderResponseModel::Headers(hs) => ValueModel::Array(
                seq![
                    ValueModel::U64(0),
                    ValueModel::IArray(
                        Seq::new(hs.len(), |i: int| BlockHeader::model_encoded(hs[i])),
                    ),
                ],
            ),
        }
    }

    /// The response a tree decodes to; an unknown discriminant is refused
    /// with that discriminant.
    pub open spec fn spec_decoded(v: ValueModel) -> Result<BlockHeaderResponseModel, ErrorKind> {
        match spec_array(v) {
            Err(k) => Err(k),
            Ok(s) => if s.len() < 1 {
                Err(ErrorKind::MissingField)
            } else {
                match spec_u64(s[0]) {
                    Err(k) => Err(k),
                    Ok(code) => if code == 0 {
                        if s.len() < 2 {
                            Err(ErrorKind::MissingField)
                        } else {
                            match spec_iarray(s[1]) {
                                Err(k) => Err(k),
                                Ok(hs) => match headers_decoded(hs) {
                                    Err(k) => Err(k),
                                    Ok(list) => if s.len() > 2 {
                                        Err(ErrorKind::UnparsedValues)
                                    } else {
                                        Ok(BlockHeaderResponseModel::Headers(list))
                                    },
                                },
                            }
                        }
                    } else {
                        Err(ErrorKind::InvalidSumtype(code))
                    },
                }
            },
        }
    }

    pub fn encode(&self) -> (r: Value)
        ensures
            r@ == Self::model_encoded(self@),
    {
        match self {
            BlockHeaderResponse::Headers(hs) => {
                let mut elems: Vec<Value> = Vec::new();
                let mut i: usize = 0;
                while i < hs.len()
                    invariant
                        i <= hs.len(),
                        elems@.len() == i,
                        forall|j: int|
                            0 <= j < i ==> value_model(#[trigger] elems@[j])
                                == BlockHeader::model_encoded(hs@[j]@),
                    decreases hs.len() - i,
                {
                    elems.push(hs[i].encode());
                    i = i + 1;
                }
                proof {
                    lemma_value_models_index(elems@);
                    assert forall|j: int|
                        0 <= j < elems@.len() implies value_models(elems@)[j]
                        == BlockHeader::model_encoded(headers_view(hs@)[j]) by {
                        assert(value_models(elems@)[j] == value_model(elems@[j]));
                        assert(headers_view(hs@)[j] == hs@[j]@);
                    }
                    assert(value_models(elems@) =~= Seq::new(
                        headers_view(hs@).len(),
                        |i: int| BlockHeader::model_encoded(headers_view(hs@)[i]),
                    ));
                }
                array2(Value::U64(0), Value::IArray(elems))
            },
        }
    }

    #[verifier::loop_isolation(false)]
    pub fn decode(value: Value) -> (r: Result<BlockHeaderResponse, DecodeError>)
        ensures
            result_models(r, Self::spec_decoded(value@)),
    {
        let mut arr = match expect_array(value) {
            Ok(a) => a,
            Err(e) => {
                return Err(e);
            },
        };
        let ghost s = value_models(arr@);
        let f0 = match take_field(&mut arr, "enumeration code") {
            Ok(v) => v,
            Err(e) => {
                return Err(e);
            },
        };
        let code = match expect_u64(f0) {
            Ok(n) => n,
            Err(e) => {
                return Err(e.embed("enumeration code"));
            },
        };
        if code != 0 {
            return Err(DecodeError::Cause(ErrorKind::InvalidSumtype(code)));
        }
        let f1 = match take_field(&mut arr, "headers") {
            Ok(v) => v,
            Err(e) => {
                return Err(e);
            },
        };
        proof {
            assert(value_model(f1) == s.drop_first()[0]);
            assert(s.drop_first()[0] == s[1]);
            assert(value_models(arr@) == s.drop_first().drop_first());
            assert(arr@.len() == s.len() - 2);
        }
        let mut elems = match expect_iarray(f1) {
            Ok(a) => a,
            Err(e) => {
                return Err(e);
            },
        };
        let ghost hs = value_models(elems@);
        let mut out: Vec<BlockHeader> = Vec::new();
        let n0 = elems.len();
        let ghost total = elems@.len();
        let mut k: usize = 0;
        proof {
            crate::cbor::lemma_value_models_index(elems@);
            assert(total == n0 as int);
            assert(hs.subrange(0, 0) =~= Seq::<ValueModel>::empty());
            assert(hs.subrange(0, total as int) =~= hs);
            assert(headers_view(out@) =~= Seq::<BlockHeaderModel>::empty());
        }
        while elems.len() > 0
            invariant
                k + elems@.len() == total,
                total <= usize::MAX,
                hs.len() == total,
                out@.len() == k,
                value_models(elems@) == hs.subrange(k as int, total as int),
                headers_decoded(hs.subrange(0, k as int)) == Ok::<_, ErrorKind>(
                    headers_view(out@),
                ),
            decreases elems@.len(),
        {
            let ghost elems_before = elems@;
            let v = match take_field(&mut elems, "header") {
                Ok(v) => v,
                Err(e) => {
                    return Err(e);
                },
            };
            let ghost pre = hs.subrange(0, k as int);
            proof {
                assert(value_model(v) == value_models(elems_before)[0]);
                assert(value_model(v) == hs[k as int]);
            }
            match BlockHeader::decode(v) {
                Ok(h) => {
                    proof {
                        assert(hs.subrange(0, k + 1 as int).drop_last() =~= pre);
                        assert(hs.subrange(0, k + 1 as int).last() == hs[k as int]);
                        assert(headers_view(out@.push(h)) =~= headers_view(out@).push(h@));
                        assert forall|j: int|
                            0 <= j < elems@.len() implies value_models(elems@)[j] == hs.subrange(
                            k + 1 as int,
                            total as int,
                        )[j] by {
                            assert(value_models(elems@)[j] == value_models(
                                elems_before,
                            ).drop_first()[j]);
                        }
                        assert(value_models(elems@) =~= hs.subrange(k + 1 as int, total as int));
                    }
                    out.push(h);
                    k = k + 1;
                },
                Err(e) => {
                    proof {
                        lemma_headers_first_error(hs, k as int, e.kind());
                    }
                    return Err(e);
                },
            }
        }
        proof {
            assert(hs.subrange(0, total as int) =~= hs);
        }
        if arr.len() > 0 {
            return Err(DecodeError::Cause(ErrorKind::UnparsedValues));
        }
        Ok(BlockHeaderResponse::Headers(out))
    }

    /// Decoding an encoded response gives it back.
    pub proof fn lemma_roundtrip(m: BlockHeaderResponseModel)
        requires
            m matches BlockHeaderResponseModel::Headers(hs) ==> forall|i: int|
                0 <= i < hs.len() ==> (#[trigger] hs[i]).wf(),
        ensures
            Self::spec_decoded(Self::model_encoded(m)) == Ok::<BlockHeaderResponseModel, ErrorKind>(
                m,
            ),
    {
        match m {
            BlockHeaderResponseModel::Headers(hs) => {
                lemma_headers_roundtrip(hs);
            },
        }
    }
}

} // verus!
