//! Decoding and encoding of the typed chain data model.

use lightnode::cbor::{decode_from_cbor, DecodeError, ErrorKind, Value};
use lightnode::types::{
    BlockHeaderAttributes, BlockVersion, HeaderExtraData, HeaderHash, ProtocolMagic,
    SoftwareVersion, SscProof, Version,
};
use lightnode::normal::{
    BlockSignature, Body, BodyProof, Consensus, MainBlockHeader, SlotId, TxPayload, TxProof,
};
use lightnode::genesis;
use lightnode::block::{Block, BlockHeader};
use lightnode::packet::BlockHeaderResponse;

const GET_BLOCK_HEADER_BYTES: [u8; 622] = [
    0x82, 0x00, 0x9f, 0x82, 0x01, 0x85, 0x1a, 0x2d, 0x96, 0x4a, 0x09, 0x58,
    0x20, 0x9d, 0x63, 0xd4, 0x66, 0x7d, 0x43, 0x26, 0x09, 0x8b, 0x1a, 0xb9,
    0xa9, 0x61, 0xef, 0x30, 0x35, 0xbc, 0xe2, 0x49, 0x99, 0x07, 0xa0, 0x31,
    0x24, 0x95, 0x5f, 0xbd, 0x58, 0xaf, 0x3e, 0xb8, 0xdc, 0x84, 0x83, 0x01,
    0x58, 0x20, 0x9a, 0x01, 0x44, 0x1c, 0x71, 0x68, 0x84, 0xd9, 0xe3, 0x20,
    0xc1, 0xdf, 0xd6, 0x1f, 0x4c, 0x6d, 0xd4, 0x17, 0x8c, 0x6d, 0x8c, 0x56,
    0xdb, 0x50, 0x98, 0x60, 0xd8, 0x79, 0x10, 0x89, 0xaf, 0xb3, 0x58, 0x20,
    0xef, 0xe1, 0x25, 0x42, 0xac, 0xc4, 0xc7, 0x7e, 0x48, 0x46, 0x7c, 0xb4,
    0x99, 0xb3, 0xbb, 0xb4, 0x22, 0xd6, 0x52, 0x74, 0x5e, 0x91, 0xf9, 0xc3,
    0x49, 0x82, 0x89, 0xc8, 0xa4, 0xda, 0x21, 0x6b, 0x82, 0x03, 0x58, 0x20,
    0xd3, 0x6a, 0x26, 0x19, 0xa6, 0x72, 0x49, 0x46, 0x04, 0xe1, 0x1b, 0xb4,
    0x47, 0xcb, 0xcf, 0x52, 0x31, 0xe9, 0xf2, 0xba, 0x25, 0xc2, 0x16, 0x91,
    0x77, 0xed, 0xc9, 0x41, 0xbd, 0x50, 0xad, 0x6c, 0x58, 0x20, 0xaf, 0xc0,
    0xda, 0x64, 0x18, 0x3b, 0xf2, 0x66, 0x4f, 0x3d, 0x4e, 0xec, 0x72, 0x38,
    0xd5, 0x24, 0xba, 0x60, 0x7f, 0xae, 0xea, 0xb2, 0x4f, 0xc1, 0x00, 0xeb,
    0x86, 0x1d, 0xba, 0x69, 0x97, 0x1b, 0x58, 0x20, 0x4e, 0x66, 0x28, 0x0c,
    0xd9, 0x4d, 0x59, 0x10, 0x72, 0x34, 0x9b, 0xec, 0x0a, 0x30, 0x90, 0xa5,
    0x3a, 0xa9, 0x45, 0x56, 0x2e, 0xfb, 0x6d, 0x08, 0xd5, 0x6e, 0x53, 0x65,
    0x4b, 0x0e, 0x40, 0x98, 0x84, 0x82, 0x18, 0x2a, 0x19, 0x1e, 0x84, 0x58,
    0x40, 0x26, 0x56, 0x6e, 0x86, 0xfc, 0x6b, 0x9b, 0x17, 0x7c, 0x84, 0x80,
    0xe2, 0x75, 0xb2, 0xb1, 0x12, 0xb5, 0x73, 0xf6, 0xd0, 0x73, 0xf9, 0xde,
    0xea, 0x53, 0xb8, 0xd9, 0x9c, 0x4e, 0xd9, 0x76, 0xb3, 0x35, 0xb2, 0xb3,
    0x84, 0x2f, 0x0e, 0x38, 0x00, 0x01, 0xf0, 0x90, 0xbc, 0x92, 0x3c, 0xaa,
    0x96, 0x91, 0xed, 0x91, 0x15, 0xe2, 0x86, 0xda, 0x94, 0x21, 0xe2, 0x74,
    0x5c, 0x7a, 0xcc, 0x87, 0xf1, 0x81, 0x1a, 0x00, 0x0d, 0xf5, 0xdd, 0x82,
    0x02, 0x82, 0x84, 0x00, 0x58, 0x40, 0x26, 0x56, 0x6e, 0x86, 0xfc, 0x6b,
    0x9b, 0x17, 0x7c, 0x84, 0x80, 0xe2, 0x75, 0xb2, 0xb1, 0x12, 0xb5, 0x73,
    0xf6, 0xd0, 0x73, 0xf9, 0xde, 0xea, 0x53, 0xb8, 0xd9, 0x9c, 0x4e, 0xd9,
    0x76, 0xb3, 0x35, 0xb2, 0xb3, 0x84, 0x2f, 0x0e, 0x38, 0x00, 0x01, 0xf0,
    0x90, 0xbc, 0x92, 0x3c, 0xaa, 0x96, 0x91, 0xed, 0x91, 0x15, 0xe2, 0x86,
    0xda, 0x94, 0x21, 0xe2, 0x74, 0x5c, 0x7a, 0xcc, 0x87, 0xf1, 0x58, 0x40,
    0xf1, 0x4f, 0x71, 0x2d, 0xc6, 0x00, 0xd7, 0x93, 0x05, 0x2d, 0x48, 0x42,
    0xd5, 0x0c, 0xef, 0xa4, 0xe6, 0x58, 0x84, 0xea, 0x6c, 0xf8, 0x37, 0x07,
    0x07, 0x9e, 0xb8, 0xce, 0x30, 0x2e, 0xfc, 0x85, 0xda, 0xe9, 0x22, 0xd5,
    0xeb, 0x38, 0x38, 0xd2, 0xb9, 0x17, 0x84, 0xf0, 0x48, 0x24, 0xd2, 0x67,
    0x67, 0xbf, 0xb6, 0x5b, 0xd3, 0x6a, 0x36, 0xe7, 0x4f, 0xec, 0x46, 0xd0,
    0x9d, 0x98, 0x85, 0x8d, 0x58, 0x40, 0x8a, 0xb4, 0x3e, 0x90, 0x4b, 0x06,
    0xe7, 0x99, 0xc1, 0x81, 0x7c, 0x5c, 0xed, 0x4f, 0x3a, 0x7b, 0xbe, 0x15,
    0xcd, 0xbf, 0x42, 0x2d, 0xea, 0x9d, 0x2d, 0x5d, 0xc2, 0xc6, 0x10, 0x5c,
    0xe2, 0xf4, 0xd4, 0xc7, 0x1e, 0x5d, 0x47, 0x79, 0xf6, 0xc4, 0x4b, 0x77,
    0x0a, 0x13, 0x36, 0x36, 0x10, 0x99, 0x49, 0xe1, 0xf7, 0x78, 0x6a, 0xcb,
    0x5a, 0x73, 0x2b, 0xcd, 0xea, 0x04, 0x70, 0xfe, 0xa4, 0x06, 0x58, 0x40,
    0xc9, 0xd3, 0x57, 0x01, 0x70, 0xd8, 0xa6, 0xb5, 0x16, 0xe2, 0x32, 0xa5,
    0xad, 0x79, 0x32, 0xae, 0x0a, 0x2c, 0x4d, 0x48, 0x5b, 0x8a, 0x23, 0xe5,
    0x68, 0xab, 0x78, 0x43, 0xb6, 0xea, 0x5c, 0xa8, 0x68, 0x75, 0xfa, 0x30,
    0xd0, 0x82, 0x19, 0x14, 0x24, 0x8b, 0x61, 0x6b, 0xbe, 0x71, 0x80, 0x65,
    0xfc, 0x56, 0x55, 0xc5, 0xac, 0xc6, 0x73, 0x94, 0x70, 0xdb, 0xa7, 0xe3,
    0x03, 0x86, 0xd5, 0x05, 0x84, 0x83, 0x00, 0x01, 0x00, 0x82, 0x6a, 0x63,
    0x61, 0x72, 0x64, 0x61, 0x6e, 0x6f, 0x2d, 0x73, 0x6c, 0x00, 0xa0, 0x58,
    0x20, 0x4b, 0xa9, 0x2a, 0xa3, 0x20, 0xc6, 0x0a, 0xcc, 0x9a, 0xd7, 0xb9,
    0xa6, 0x4f, 0x2e, 0xda, 0x55, 0xc4, 0xd2, 0xec, 0x28, 0xe6, 0x04, 0xfa,
    0xf1, 0x86, 0x70, 0x8b, 0x4f, 0x0c, 0x4e, 0x8e, 0xdf, 0xff,
];


fn hash(fill: u8) -> HeaderHash {
    HeaderHash::from_bytes([fill; 32])
}

fn sample_extra_data() -> HeaderExtraData {
    HeaderExtraData::new(
        BlockVersion::new(0, 1, 0),
        SoftwareVersion::new(String::from("lightnode"), 1),
        BlockHeaderAttributes(Value::Object(vec![])),
        hash(7),
    )
}

fn sample_consensus() -> Consensus {
    Consensus {
        slot_id: SlotId { epoch: 42, slotid: 7812 },
        leader_key: vec![9u8; 64],
        chain_difficulty: 914909,
        block_signature: BlockSignature::Signature(vec![3u8; 64]),
    }
}

fn sample_main_header() -> MainBlockHeader {
    MainBlockHeader::new(
        ProtocolMagic(764824073),
        hash(1),
        BodyProof::new(
            TxProof { number: 1, root: hash(2), witnesses_hash: hash(3) },
            SscProof::Certificate(hash(4)),
            hash(5),
            hash(6),
        ),
        sample_consensus(),
        sample_extra_data(),
    )
}

#[test]
fn version_roundtrip() {
    let v = Version::new(1, 2, 3);
    assert_eq!(Version::decode(v.encode()), Ok(v));
}

#[test]
fn block_version_roundtrip() {
    let v = BlockVersion::new(0, 1, 0);
    assert_eq!(BlockVersion::decode(v.encode()), Ok(v));
}

#[test]
fn software_version_roundtrip() {
    let v = SoftwareVersion::new(String::from("lightnode"), 7);
    assert_eq!(SoftwareVersion::decode(v.encode()), Ok(v));
}

#[test]
fn header_hash_roundtrip() {
    let h = hash(0xab);
    assert_eq!(HeaderHash::decode(h.encode()), Ok(h));
}

#[test]
fn protocol_magic_roundtrip() {
    let m = ProtocolMagic(764824073);
    assert_eq!(ProtocolMagic::decode(m.encode()), Ok(m));
}

#[test]
fn attributes_roundtrip() {
    let a = BlockHeaderAttributes(Value::Object(vec![(Value::U64(1), Value::U64(2))]));
    let b = BlockHeaderAttributes::decode(a.encode()).unwrap();
    assert_eq!(a, b);
}

#[test]
fn extra_data_roundtrip() {
    let e = sample_extra_data();
    assert_eq!(HeaderExtraData::decode(e.encode()), Ok(sample_extra_data()));
}

#[test]
fn ssc_proof_roundtrip() {
    let cases = vec![
        SscProof::Commitments(hash(1), hash(2)),
        SscProof::Openings(hash(3), hash(4)),
        SscProof::Shares(hash(5), hash(6)),
        SscProof::Certificate(hash(7)),
    ];
    for p in cases {
        let encoded = p.encode();
        assert_eq!(SscProof::decode(encoded), Ok(p));
    }
}

#[test]
fn slot_id_roundtrip() {
    let s = SlotId { epoch: 5, slotid: 77 };
    assert_eq!(SlotId::decode(s.encode()), Ok(s));
}

#[test]
fn slot_id_order() {
    let a = SlotId { epoch: 1, slotid: 500 };
    let b = SlotId { epoch: 2, slotid: 0 };
    assert!(a.le(&b));
    assert!(!b.le(&a));
    assert!(a.le(&a));
}

#[test]
fn block_signature_roundtrip() {
    let s = BlockSignature::Signature(vec![1u8; 64]);
    assert_eq!(BlockSignature::decode(s.encode()), Ok(BlockSignature::Signature(vec![1u8; 64])));
    let p = BlockSignature::ProxyHeavy(vec![Value::U64(1), Value::Bytes(vec![2, 3])]);
    let q = BlockSignature::decode(p.encode()).unwrap();
    assert_eq!(p, q);
}

#[test]
fn consensus_roundtrip() {
    let c = sample_consensus();
    assert_eq!(Consensus::decode(c.encode()), Ok(sample_consensus()));
}

#[test]
fn tx_proof_roundtrip() {
    let t = TxProof { number: 9, root: hash(1), witnesses_hash: hash(2) };
    let u = TxProof::decode(t.encode()).unwrap();
    assert_eq!(t, u);
}

#[test]
fn main_header_roundtrip() {
    let h = sample_main_header();
    assert_eq!(MainBlockHeader::decode(h.encode()), Ok(sample_main_header()));
}

#[test]
fn genesis_header_roundtrip() {
    let h = genesis::BlockHeader::new(
        ProtocolMagic(764824073),
        hash(1),
        genesis::BodyProof(hash(2)),
        genesis::Consensus { epoch: 3, chain_difficulty: 44 },
        BlockHeaderAttributes(Value::Object(vec![])),
    );
    let g = genesis::BlockHeader::decode(h.encode()).unwrap();
    assert_eq!(g.consensus.epoch, 3);
    assert_eq!(g.consensus.chain_difficulty, 44);
    assert_eq!(g.previous_header, hash(1));
}

#[test]
fn block_roundtrip_both_kinds() {
    let main = Block::MainBlock(lightnode::normal::Block::new(
        sample_main_header(),
        Body::new(
            TxPayload::empty(),
            Value::U64(0),
            Value::U64(1),
            Value::U64(2),
        ),
        Value::U64(9),
    ));
    let decoded = Block::decode(main.encode()).unwrap();
    assert_eq!(main, decoded);

    let genesis_block = Block::GenesisBlock(genesis::Block {
        header: genesis::BlockHeader::new(
            ProtocolMagic(1),
            hash(1),
            genesis::BodyProof(hash(2)),
            genesis::Consensus { epoch: 0, chain_difficulty: 0 },
            BlockHeaderAttributes(Value::Object(vec![])),
        ),
        body: genesis::Body { slot_leaders: vec![Value::Bytes(vec![1, 2, 3])] },
        extra: Value::U64(0),
    });
    let decoded = Block::decode(genesis_block.encode()).unwrap();
    assert_eq!(genesis_block, decoded);
}

#[test]
fn header_enum_roundtrip() {
    let h = BlockHeader::MainBlockHeader(sample_main_header());
    let d = BlockHeader::decode(h.encode()).unwrap();
    assert_eq!(h, d);
}

#[test]
fn sum_type_rejection_block_header() {
    let v = Value::Array(vec![Value::U64(7), Value::U64(0)]);
    let e = BlockHeader::decode(v).unwrap_err();
    assert_eq!(e.root_kind(), ErrorKind::InvalidSumtype(7));
}

#[test]
fn sum_type_rejection_ssc_proof() {
    let v = Value::Array(vec![Value::U64(9), Value::Bytes(vec![0; 32])]);
    let e = SscProof::decode(v).unwrap_err();
    assert_eq!(e.root_kind(), ErrorKind::InvalidSumtype(9));
}

#[test]
fn sum_type_rejection_block() {
    let v = Value::Array(vec![Value::U64(2), Value::U64(0)]);
    let e = Block::decode(v).unwrap_err();
    assert_eq!(e.root_kind(), ErrorKind::InvalidSumtype(2));
}

#[test]
fn sum_type_rejection_response() {
    let v = Value::Array(vec![Value::U64(1), Value::IArray(vec![])]);
    let e = BlockHeaderResponse::decode(v).unwrap_err();
    assert_eq!(e.root_kind(), ErrorKind::InvalidSumtype(1));
}

#[test]
fn record_strictness_trailing() {
    let v = Value::Array(vec![
        Value::U64(1),
        Value::U64(2),
        Value::U64(3),
        Value::U64(4),
    ]);
    let e = Version::decode(v).unwrap_err();
    assert_eq!(e.root_kind(), ErrorKind::UnparsedValues);
}

#[test]
fn record_strictness_missing_field_context() {
    let v = Value::Array(vec![Value::U64(1), Value::U64(2)]);
    let e = Version::decode(v).unwrap_err();
    assert_eq!(e.root_kind(), ErrorKind::MissingField);
    match e {
        DecodeError::Context(outer, inner) => {
            assert_eq!(outer, "while decoding Version");
            match *inner {
                DecodeError::Context(field, _) => assert_eq!(field, "revision"),
                other => panic!("expected a field context, got {:?}", other),
            }
        }
        other => panic!("expected a record context, got {:?}", other),
    }
}

#[test]
fn hash_fixed_size() {
    let e = HeaderHash::decode(Value::Bytes(vec![0; 31])).unwrap_err();
    assert_eq!(e.root_kind(), ErrorKind::InvalidSize(32));
    let e = HeaderHash::decode(Value::Bytes(vec![0; 33])).unwrap_err();
    assert_eq!(e.root_kind(), ErrorKind::InvalidSize(32));
    assert!(HeaderHash::decode(Value::Bytes(vec![0; 32])).is_ok());
}

#[test]
fn signature_fixed_size() {
    let v = Value::Array(vec![Value::U64(0), Value::Bytes(vec![0; 63])]);
    let e = BlockSignature::decode(v).unwrap_err();
    assert_eq!(e.root_kind(), ErrorKind::InvalidSize(64));
}

#[test]
fn parse_get_block_headers_response() {
    let b = decode_from_cbor(&GET_BLOCK_HEADER_BYTES).unwrap();
    match BlockHeaderResponse::decode(b).unwrap() {
        BlockHeaderResponse::Headers(ll) => assert!(ll.len() == 1),
    }
}

#[test]
fn response_single_header_previous_hash() {
    let expected: [u8; 32] = [
        0x9d, 0x63, 0xd4, 0x66, 0x7d, 0x43, 0x26, 0x09, 0x8b, 0x1a, 0xb9, 0xa9, 0x61, 0xef,
        0x30, 0x35, 0xbc, 0xe2, 0x49, 0x99, 0x07, 0xa0, 0x31, 0x24, 0x95, 0x5f, 0xbd, 0x58,
        0xaf, 0x3e, 0xb8, 0xdc,
    ];
    let b = decode_from_cbor(&GET_BLOCK_HEADER_BYTES).unwrap();
    match BlockHeaderResponse::decode(b).unwrap() {
        BlockHeaderResponse::Headers(ll) => {
            assert_eq!(ll.len(), 1);
            let prev = ll[0].get_previous_header();
            assert_eq!(prev.bytes().as_slice(), &expected[..]);
        }
    }
}

#[test]
fn response_roundtrip() {
    let b = decode_from_cbor(&GET_BLOCK_HEADER_BYTES).unwrap();
    let resp = BlockHeaderResponse::decode(b).unwrap();
    let reencoded = resp.encode();
    let again = BlockHeaderResponse::decode(reencoded).unwrap();
    assert_eq!(resp, again);
}

#[test]
fn tx_payload_accessors() {
    let p = TxPayload::new(vec![Value::U64(1), Value::U64(2)]);
    assert_eq!(p.iter().len(), 2);
    assert_eq!(TxPayload::empty().iter().len(), 0);
}

#[test]
fn type_mismatches_are_reported() {
    // an integer where an array was expected
    let e = Version::decode(Value::U64(3)).unwrap_err();
    assert_eq!(e.root_kind(), ErrorKind::ExpectedArray);
    // an array where a byte string was expected
    let e = HeaderHash::decode(Value::Array(vec![])).unwrap_err();
    assert_eq!(e.root_kind(), ErrorKind::ExpectedBytes);
    // a byte string where an unsigned integer was expected
    let v = Value::Array(vec![Value::Bytes(vec![1]), Value::U64(0), Value::U64(0)]);
    let e = Version::decode(v).unwrap_err();
    assert_eq!(e.root_kind(), ErrorKind::ExpectedU64);
    // a byte string where the name text was expected
    let v = Value::Array(vec![Value::Bytes(vec![1]), Value::U64(0)]);
    let e = SoftwareVersion::decode(v).unwrap_err();
    assert_eq!(e.root_kind(), ErrorKind::ExpectedText);
    // a definite array where an indefinite one was expected
    let e = TxPayload::decode(Value::Array(vec![])).unwrap_err();
    assert_eq!(e.root_kind(), ErrorKind::ExpectedIArray);
    // an integer too wide for its field
    let v = Value::Array(vec![Value::U64(1 << 40), Value::U64(0), Value::U64(0)]);
    let e = Version::decode(v).unwrap_err();
    assert_eq!(e.root_kind(), ErrorKind::Between(0, 0xffffffff));
}

#[test]
fn engine_view_of_a_decoded_header() {
    let b = decode_from_cbor(&GET_BLOCK_HEADER_BYTES).unwrap();
    match BlockHeaderResponse::decode(b).unwrap() {
        BlockHeaderResponse::Headers(ll) => {
            let digest = HeaderHash::from_bytes([0x11; 32]);
            let info = lightnode::sync::HeaderInfo::from_header(&ll[0], digest);
            assert_eq!(info.epoch, 42);
            assert_eq!(info.slotid, 7812);
            assert_eq!(info.previous, ll[0].get_previous_header());
            assert_eq!(info.hash, HeaderHash::from_bytes([0x11; 32]));
        }
    }
}
