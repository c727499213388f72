//! Leaf types of the chain data model: digests, version triples and the
//! extra data carried by a main block header.
//!
//! Every type states its wire shape twice: `spec_encoded` gives the value
//! tree a well-formed instance encodes to, and `spec_decoded` says exactly
//! which trees decode to an instance and with which root cause the others
//! are refused.  The executable `encode` and `decode` realise those two
//! functions, and a round-trip lemma per type proves that decoding an
//! encoded instance gives it back.

use vstd::prelude::*;

verus! {

use crate::cbor::{
    Value,
    ValueModel,
    DecodeError,
    ErrorKind,
    result_models,
    spec_u32,
    spec_u16,
    spec_u8,
    spec_bytes,
    spec_text,
    spec_array,
    expect_u32,
    expect_u16,
    expect_u8,
    expect_bytes,
    expect_text,
    expect_array,
    take_field,
    array2,
    array3,
    array4,
    clone_value,
};
use vstd::slice::slice_to_vec;

/// The network a chain belongs to, as carried in every header.
#[derive(Debug, Clone, Copy, PartialEq, Eq, Structural)]
pub struct ProtocolMagic(pub u32);

impl View for ProtocolMagic {
    type V = ProtocolMagic;

    open spec fn view(&self) -> ProtocolMagic {
        *self
    }
}

impl ProtocolMagic {
    /// The tree a protocol magic encodes to.
    pub open spec fn spec_encoded(self) -> ValueModel {
        ValueModel::U64(self.0 as u64)
    }

    /// The protocol magic a tree decodes to, if any.
    pub open spec fn spec_decoded(v: ValueModel) -> Result<ProtocolMagic, ErrorKind> {
        match spec_u32(v) {
            Ok(n) => Ok(ProtocolMagic(n)),
            Err(k) => Err(k),
        }
    }

    pub fn encode(&self) -> (r: Value)
        ensures
            r@ == self.spec_encoded(),
    {
        Value::U64(self.0 as u64)
    }

    pub fn decode(value: Value) -> (r: Result<ProtocolMagic, DecodeError>)
        ensures
            result_models(r, Self::spec_decoded(value@)),
    {
        match expect_u32(value) {
            Ok(n) => Ok(ProtocolMagic(n)),
            Err(e) => Err(e),
        }
    }

    /// Decoding an encoded protocol magic gives it back.
    pub proof fn lemma_roundtrip(self)
        ensures
            Self::spec_decoded(self.spec_encoded()) == Ok::<ProtocolMagic, ErrorKind>(self),
    {
    }
}

/// A software protocol version triple.
#[derive(Debug, Clone, Copy, PartialEq, Eq, PartialOrd, Ord, Structural)]
pub struct Version {
    pub major: u32,
    pub minor: u32,
    pub revision: u32,
}

impl View for Version {
    type V = Version;

    open spec fn view(&self) -> Version {
        *self
    }
}

impl Version {
    pub fn new(major: u32, minor: u32, revision: u32) -> (r: Version)
        ensures
            r == (Version { major, minor, revision }),
    {
        Version { major, minor, revision }
    }

    /// The tree a version encodes to: the three components in order.
    pub open spec fn spec_encoded(self) -> ValueModel {
        ValueModel::Array(
            seq![
                ValueModel::U64(self.major as u64),
                ValueModel::U64(self.minor as u64),
                ValueModel::U64(self.revision as u64),
            ],
        )
    }

    /// The version a tree decodes to, or why it is refused.
    pub open spec fn spec_decoded(v: ValueModel) -> Result<Version, ErrorKind> {
        match spec_array(v) {
            Err(k) => Err(k),
            Ok(s) => if s.len() < 1 {
                Err(ErrorKind::MissingField)
            } else {
                match spec_u32(s[0]) {
                    Err(k) => Err(k),
                    Ok(major) => if s.len() < 2 {
                        Err(ErrorKind::MissingField)
                    } else {
                        match spec_u32(s[1]) {
                            Err(k) => Err(k),
                            Ok(minor) => if s.len() < 3 {
                                Err(ErrorKind::MissingField)
                            } else {
                                match spec_u32(s[2]) {
                                    Err(k) => Err(k),
                                    Ok(revision) => if s.len() > 3 {
                                        Err(ErrorKind::UnparsedValues)
                                    } else {
                                        Ok(Version { major, minor, revision })
                                    },
                                }
                            },
                        }
                    },
                }
            },
        }
    }

    pub fn encode(&self) -> (r: Value)
        ensures
            r@ == self.spec_encoded(),
    {
        array3(
            Value::U64(self.major as u64),
            Value::U64(self.minor as u64),
            Value::U64(self.revision as u64),
        )
    }

    pub fn decode(value: Value) -> (r: Result<Version, DecodeError>)
        ensures
            result_models(r, Self::spec_decoded(value@)),
            r matches Err(e) ==> (e.kind() == ErrorKind::MissingField ==> ({
                &&& spec_array(value@) matches Ok(s)
                &&& s.len() < 3
                &&& e.innermost_context() == (if s.len() == 0 {
                    "major"@
                } else if s.len() == 1 {
                    "minor"@
                } else {
                    "revision"@
                })
            })),
    {
        let mut arr = match expect_array(value) {
            Ok(a) => a,
            Err(e) => {
                return Err(e.embed("while decoding Version"));
            },
        };
        proof {
            reveal_strlit("major");
            reveal_strlit("minor");
            reveal_strlit("revision");
        }
        let ghost s = crate::cbor::value_models(arr@);
        let f0 = match take_field(&mut arr, "major") {
            Ok(v) => v,
            Err(e) => {
                return Err(e.embed("while decoding Version"));
            },
        };
        let major = match expect_u32(f0) {
            Ok(n) => n,
            Err(e) => {
                return Err(e.embed("major").embed("while decoding Version"));
            },
        };
        let f1 = match take_field(&mut arr, "minor") {
            Ok(v) => v,
            Err(e) => {
                return Err(e.embed("while decoding Version"));
            },
        };
        let minor = match expect_u32(f1) {
            Ok(n) => n,
            Err(e) => {
                return Err(e.embed("minor").embed("while decoding Version"));
            },
        };
        let f2 = match take_field(&mut arr, "revision") {
            Ok(v) => v,
            Err(e) => {
                return Err(e.embed("while decoding Version"));
            },
        };
        let revision = match expect_u32(f2) {
            Ok(n) => n,
            Err(e) => {
                return Err(e.embed("revision").embed("while decoding Version"));
            },
        };
        if arr.len() > 0 {
            return Err(DecodeError::Cause(ErrorKind::UnparsedValues).embed(
                "while decoding Version",
            ));
        }
        Ok(Version { major, minor, revision })
    }

    /// Decoding an encoded version gives it back.
    pub proof fn lemma_roundtrip(self)
        ensures
            Self::spec_decoded(self.spec_encoded()) == Ok::<Version, ErrorKind>(self),
    {
    }
}

impl Default for Version {
    fn default() -> (r: Version)
        ensures
            r == (Version { major: 0, minor: 1, revision: 0 }),
    {
        Version::new(0, 1, 0)
    }
}

/// A 32-byte digest.  It identifies a block or header by content, and binds
/// proofs and extra data throughout the data model.
#[derive(Debug, PartialEq, Eq)]
pub struct HeaderHash(Vec<u8>);

/// The exact length of a digest, in bytes.
pub const HASH_SIZE: usize = 32;

impl View for HeaderHash {
    type V = Seq<u8>;

    closed spec fn view(&self) -> Seq<u8> {
        self.0@
    }
}

impl Clone for HeaderHash {
    fn clone(&self) -> (r: HeaderHash)
        ensures
            r@ == self@,
    {
        HeaderHash(slice_to_vec(self.0.as_slice()))
    }
}

impl HeaderHash {
    /// A digest holds exactly 32 bytes.
    pub open spec fn wf(self) -> bool {
        self@.len() == HASH_SIZE
    }

    /// Grants read access to the digest bytes.
    pub fn bytes(&self) -> (r: &Vec<u8>)
        ensures
            r@ == self@,
    {
        &self.0
    }

    pub fn from_bytes(bytes: [u8; 32]) -> (r: HeaderHash)
        ensures
            r@ == bytes@,
            r.wf(),
    {
        HeaderHash(slice_to_vec(bytes.as_slice()))
    }

    /// Reads a digest from a slice of exactly 32 bytes; any other length
    /// gives nothing.
    pub fn from_slice(bytes: &[u8]) -> (r: Option<HeaderHash>)
        ensures
            bytes@.len() == HASH_SIZE ==> ({
                &&& r matches Some(h)
                &&& h@ == bytes@
                &&& h.wf()
            }),
            bytes@.len() != HASH_SIZE ==> r is None,
    {
        if bytes.len() != HASH_SIZE {
            return None;
        }
        Some(HeaderHash(slice_to_vec(bytes)))
    }

    /// Whether two digests hold the same bytes.
    pub fn is_equal(&self, other: &HeaderHash) -> (r: bool)
        ensures
            r == (self@ == other@),
    {
        if self.0.len() != other.0.len() {
            return false;
        }
        let mut i: usize = 0;
        while i < self.0.len()
            invariant
                i <= self.0@.len(),
                self.0@.len() == other.0@.len(),
                forall|j: int| 0 <= j < i ==> self.0@[j] == other.0@[j],
            decreases self.0@.len() - i,
        {
            if self.0[i] != other.0[i] {
                return false;
            }
            i = i + 1;
        }
        proof {
            assert(self.0@ =~= other.0@);
        }
        true
    }

    /// The tree a digest encodes to: its bytes.
    pub open spec fn spec_encoded(self) -> ValueModel {
        ValueModel::Bytes(self@)
    }

    /// The digest bytes a tree decodes to: a byte string of exactly 32
    /// bytes; any other length is refused with the expected size.
    pub open spec fn spec_decoded(v: ValueModel) -> Result<Seq<u8>, ErrorKind> {
        match spec_bytes(v) {
            Err(k) => Err(k),
            Ok(b) => if b.len() == HASH_SIZE {
                Ok(b)
            } else {
                Err(ErrorKind::InvalidSize(HASH_SIZE as u64))
            },
        }
    }

    pub fn encode(&self) -> (r: Value)
        ensures
            r@ == self.spec_encoded(),
    {
        Value::Bytes(slice_to_vec(self.0.as_slice()))
    }

    pub fn decode(value: Value) -> (r: Result<HeaderHash, DecodeError>)
        ensures
            result_models(r, Self::spec_decoded(value@)),
            r matches Ok(h) ==> h.wf(),
    {
        let b = match expect_bytes(value) {
            Ok(b) => b,
            Err(e) => {
                return Err(e.embed("while decoding Hash"));
            },
        };
        if b.len() != HASH_SIZE {
            return Err(DecodeError::Cause(ErrorKind::InvalidSize(HASH_SIZE as u64)).embed(
                "while decoding Hash",
            ));
        }
        Ok(HeaderHash(b))
    }

    /// Decoding an encoded digest gives its bytes back.
    pub proof fn lemma_roundtrip(self)
        requires
            self.wf(),
        ensures
            Self::spec_decoded(self.spec_encoded()) == Ok::<Seq<u8>, ErrorKind>(self@),
    {
    }
}

/// A block format version: two wide components and a revision byte.
#[derive(Debug, Clone, Copy, PartialEq, Eq, PartialOrd, Ord, Structural)]
pub struct BlockVersion(pub u16, pub u16, pub u8);

impl View for BlockVersion {
    type V = BlockVersion;

    open spec fn view(&self) -> BlockVersion {
        *self
    }
}

impl BlockVersion {
    pub fn new(major: u16, minor: u16, revision: u8) -> (r: BlockVersion)
        ensures
            r == BlockVersion(major, minor, revision),
    {
        BlockVersion(major, minor, revision)
    }

    /// The tree a block version encodes to: the three components in order.
    pub open spec fn spec_encoded(self) -> ValueModel {
        ValueModel::Array(
            seq![
                ValueModel::U64(self.0 as u64),
                ValueModel::U64(self.1 as u64),
                ValueModel::U64(self.2 as u64),
            ],
        )
    }

    /// The block version a tree decodes to, or why it is refused.
    pub open spec fn spec_decoded(v: ValueModel) -> Result<BlockVersion, ErrorKind> {
        match spec_array(v) {
            Err(k) => Err(k),
            Ok(s) => if s.len() < 1 {
                Err(ErrorKind::MissingField)
            } else {
                match spec_u16(s[0]) {
                    Err(k) => Err(k),
                    Ok(major) => if s.len() < 2 {
                        Err(ErrorKind::MissingField)
                    } else {
                        match spec_u16(s[1]) {
                            Err(k) => Err(k),
                            Ok(minor) => if s.len() < 3 {
                                Err(ErrorKind::MissingField)
                            } else {
                                match spec_u8(s[2]) {
                                    Err(k) => Err(k),
                                    Ok(revision) => if s.len() > 3 {
                                        Err(ErrorKind::UnparsedValues)
                                    } else {
                                        Ok(BlockVersion(major, minor, revision))
                                    },
                                }
                            },
                        }
                    },
                }
            },
        }
    }

    pub fn encode(&self) -> (r: Value)
        ensures
            r@ == self.spec_encoded(),
    {
        array3(
            Value::U64(self.0 as u64),
            Value::U64(self.1 as u64),
            Value::U64(self.2 as u64),
        )
    }

    pub fn decode(value: Value) -> (r: Result<BlockVersion, DecodeError>)
        ensures
            result_models(r, Self::spec_decoded(value@)),
            r matches Err(e) ==> (e.kind() == ErrorKind::MissingField ==> ({
                &&& spec_array(value@) matches Ok(s)
                &&& s.len() < 3
                &&& e.innermost_context() == (if s.len() == 0 {
                    "major"@
                } else if s.len() == 1 {
                    "minor"@
                } else {
                    "revision"@
                })
            })),
    {
        let mut arr = match expect_array(value) {
            Ok(a) => a,
            Err(e) => {
                return Err(e.embed("While decoding a BlockVersion"));
            },
        };
        proof {
            reveal_strlit("major");
            reveal_strlit("minor");
            reveal_strlit("revision");
        }
        let f0 = match take_field(&mut arr, "major") {
            Ok(v) => v,
            Err(e) => {
                return Err(e.embed("While decoding a BlockVersion"));
            },
        };
        let major = match expect_u16(f0) {
            Ok(n) => n,
            Err(e) => {
                return Err(e.embed("major").embed("While decoding a BlockVersion"));
            },
        };
        let f1 = match take_field(&mut arr, "minor") {
            Ok(v) => v,
            Err(e) => {
                return Err(e.embed("While decoding a BlockVersion"));
            },
        };
        let minor = match expect_u16(f1) {
            Ok(n) => n,
            Err(e) => {
                return Err(e.embed("minor").embed("While decoding a BlockVersion"));
            },
        };
        let f2 = match take_field(&mut arr, "revision") {
            Ok(v) => v,
            Err(e) => {
                return Err(e.embed("While decoding a BlockVersion"));
            },
        };
        let revision = match expect_u8(f2) {
            Ok(n) => n,
            Err(e) => {
                return Err(e.embed("revision").embed("While decoding a BlockVersion"));
            },
        };
        if arr.len() > 0 {
            return Err(DecodeError::Cause(ErrorKind::UnparsedValues).embed(
                "While decoding a BlockVersion",
            ));
        }
        Ok(BlockVersion(major, minor, revision))
    }

    /// Decoding an encoded block version gives it back.
    pub proof fn lemma_roundtrip(self)
        ensures
            Self::spec_decoded(self.spec_encoded()) == Ok::<BlockVersion, ErrorKind>(self),
    {
    }
}

impl Default for BlockVersion {
    fn default() -> (r: BlockVersion)
        ensures
            r == BlockVersion(0, 1, 0),
    {
        BlockVersion::new(0, 1, 0)
    }
}

/// The model of a software version: application name bytes and a version
/// number.
pub struct SoftwareVersionModel {
    pub name: Seq<u8>,
    pub version: u32,
}

/// An application name with its version number.  The name is kept as the
/// raw bytes of the text it was written as on the wire.
#[derive(Debug, PartialEq, Eq, PartialOrd, Ord)]
pub struct SoftwareVersion {
    application_name: Vec<u8>,
    application_version: u32,
}

impl View for SoftwareVersion {
    type V = SoftwareVersionModel;

    closed spec fn view(&self) -> SoftwareVersionModel {
        SoftwareVersionModel { name: self.application_name@, version: self.application_version }
    }
}

impl Clone for SoftwareVersion {
    fn clone(&self) -> (r: SoftwareVersion)
        ensures
            r@ == self@,
    {
        SoftwareVersion {
            application_name: slice_to_vec(self.application_name.as_slice()),
            application_version: self.application_version,
        }
    }
}

impl SoftwareVersion {
    /// Builds a software version from an application name and a number.
    pub fn new(name: String, version: u32) -> (r: SoftwareVersion)
        ensures
            r@ == (SoftwareVersionModel { name: vstd::utf8::encode_utf8(name@), version }),
    {
        SoftwareVersion {
            application_name: slice_to_vec(name.as_str().as_bytes()),
            application_version: version,
        }
    }

    /// Grants read access to the application name bytes.
    pub fn name_bytes(&self) -> (r: &Vec<u8>)
        ensures
            r@ == self@.name,
    {
        &self.application_name
    }

    /// The version number.
    pub fn version(&self) -> (r: u32)
        ensures
            r == self@.version,
    {
        self.application_version
    }

    /// The tree a software version encodes to: name text, then number.
    pub open spec fn model_encoded(m: SoftwareVersionModel) -> ValueModel {
        ValueModel::Array(seq![ValueModel::Text(m.name), ValueModel::U64(m.version as u64)])
    }

    /// The software version a tree decodes to, or why it is refused.
    pub open spec fn spec_decoded(v: ValueModel) -> Result<SoftwareVersionModel, ErrorKind> {
        match spec_array(v) {
            Err(k) => Err(k),
            Ok(s) => if s.len() < 1 {
                Err(ErrorKind::MissingField)
            } else {
                match spec_text(s[0]) {
                    Err(k) => Err(k),
                    Ok(name) => if s.len() < 2 {
                        Err(ErrorKind::MissingField)
                    } else {
                        match spec_u32(s[1]) {
                            Err(k) => Err(k),
                            Ok(version) => if s.len() > 2 {
                                Err(ErrorKind::UnparsedValues)
                            } else {
                                Ok(SoftwareVersionModel { name, version })
                            },
                        }
                    },
                }
            },
        }
    }

    pub fn encode(&self) -> (r: Value)
        ensures
            r@ == Self::model_encoded(self@),
    {
        array2(
            Value::Text(slice_to_vec(self.application_name.as_slice())),
            Value::U64(self.application_version as u64),
        )
    }

    pub fn decode(value: Value) -> (r: Result<SoftwareVersion, DecodeError>)
        ensures
            result_models(r, Self::spec_decoded(value@)),
            r matches Err(e) ==> (e.kind() == ErrorKind::MissingField ==> ({
                &&& spec_array(value@) matches Ok(s)
                &&& s.len() < 2
                &&& e.innermost_context() == (if s.len() == 0 {
                    "name"@
                } else {
                    "version"@
                })
            })),
    {
        let mut arr = match expect_array(value) {
            Ok(a) => a,
            Err(e) => {
                return Err(e.embed("While decoding a SoftwareVersion"));
            },
        };
        proof {
            reveal_strlit("name");
            reveal_strlit("version");
        }
        let f0 = match take_field(&mut arr, "name") {
            Ok(v) => v,
            Err(e) => {
                return Err(e.embed("While decoding a SoftwareVersion"));
            },
        };
        let name = match expect_text(f0) {
            Ok(n) => n,
            Err(e) => {
                return Err(e.embed("name").embed("While decoding a SoftwareVersion"));
            },
        };
        let f1 = match take_field(&mut arr, "version") {
            Ok(v) => v,
            Err(e) => {
                return Err(e.embed("While decoding a SoftwareVersion"));
            },
        };
        let version = match expect_u32(f1) {
            Ok(n) => n,
            Err(e) => {
                return Err(e.embed("version").embed("While decoding a SoftwareVersion"));
            },
        };
        if arr.len() > 0 {
            return Err(DecodeError::Cause(ErrorKind::UnparsedValues).embed(
                "While decoding a SoftwareVersion",
            ));
        }
        Ok(SoftwareVersion { application_name: name, application_version: version })
    }

    /// Decoding an encoded software version gives it back.
    pub proof fn lemma_roundtrip(m: SoftwareVersionModel)
        ensures
            Self::spec_decoded(Self::model_encoded(m)) == Ok::<SoftwareVersionModel, ErrorKind>(m),
    {
    }
}

impl Default for SoftwareVersion {
    /// The version this crate itself would announce.
    fn default() -> (r: SoftwareVersion)
        ensures
            r@ == (SoftwareVersionModel { name: vstd::utf8::encode_utf8("lightnode"@), version: 0 }),
    {
        SoftwareVersion::new(String::from_str("lightnode"), 0)
    }
}

/// Free-form attributes of a block header, kept as the raw tree they were
/// written as.
#[derive(Debug, PartialEq, Eq)]
pub struct BlockHeaderAttributes(pub Value);

impl View for BlockHeaderAttributes {
    type V = ValueModel;

    open spec fn view(&self) -> ValueModel {
        self.0@
    }
}

impl BlockHeaderAttributes {
    /// The tree the attributes encode to: the raw tree itself.
    pub open spec fn spec_encoded(self) -> ValueModel {
        self@
    }

    /// Attributes accept any tree, whole.
    pub open spec fn spec_decoded(v: ValueModel) -> Result<ValueModel, ErrorKind> {
        Ok(v)
    }

    pub fn encode(&self) -> (r: Value)
        ensures
            r@ == self.spec_encoded(),
    {
        clone_value(&self.0)
    }

    pub fn decode(value: Value) -> (r: Result<BlockHeaderAttributes, DecodeError>)
        ensures
            r matches Ok(a) && a@ == value@,
    {
        Ok(BlockHeaderAttributes(value))
    }

    /// Decoding encoded attributes gives them back.
    pub proof fn lemma_roundtrip(m: ValueModel)
        ensures
            Self::spec_decoded(m) == Ok::<ValueModel, ErrorKind>(m),
    {
    }
}

/// The model of the extra data of a main block header.
pub struct HeaderExtraDataModel {
    pub block_version: BlockVersion,
    pub software_version: SoftwareVersionModel,
    pub attributes: ValueModel,
    pub extra_data_proof: Seq<u8>,
}

/// Extra data of a main block header: format and software versions,
/// free-form attributes, and the digest of the extra body data.
#[derive(Debug, PartialEq, Eq)]
pub struct HeaderExtraData {
    pub block_version: BlockVersion,
    pub software_version: SoftwareVersion,
    pub attributes: BlockHeaderAttributes,
    pub extra_data_proof: HeaderHash,
}

impl View for HeaderExtraData {
    type V = HeaderExtraDataModel;

    open spec fn view(&self) -> HeaderExtraDataModel {
        HeaderExtraDataModel {
            block_version: self.block_version@,
            software_version: self.software_version@,
            attributes: self.attributes@,
            extra_data_proof: self.extra_data_proof@,
        }
    }
}

impl HeaderExtraData {
    pub fn new(
        block_version: BlockVersion,
        software_version: SoftwareVersion,
        attributes: BlockHeaderAttributes,
        extra_data_proof: HeaderHash,
    ) -> (r: HeaderExtraData)
        ensures
            r@ == (HeaderExtraDataModel {
                block_version: block_version@,
                software_version: software_version@,
                attributes: attributes@,
                extra_data_proof: extra_data_proof@,
            }),
    {
        HeaderExtraData { block_version, software_version, attributes, extra_data_proof }
    }

    /// The tree the extra data encodes to: the four fields in order.
    pub open spec fn model_encoded(m: HeaderExtraDataModel) -> ValueModel {
        ValueModel::Array(
            seq![
                m.block_version.spec_encoded(),
                SoftwareVersion::model_encoded(m.software_version),
                m.attributes,
                ValueModel::Bytes(m.extra_data_proof),
            ],
        )
    }

    /// The extra data a tree decodes to, or why it is refused.
    pub open spec fn spec_decoded(v: ValueModel) -> Result<HeaderExtraDataModel, ErrorKind> {
        match spec_array(v) {
            Err(k) => Err(k),
            Ok(s) => if s.len() < 1 {
                Err(ErrorKind::MissingField)
            } else {
                match BlockVersion::spec_decoded(s[0]) {
                    Err(k) => Err(k),
                    Ok(block_version) => if s.len() < 2 {
                        Err(ErrorKind::MissingField)
                    } else {
                        match SoftwareVersion::spec_decoded(s[1]) {
                            Err(k) => Err(k),
                            Ok(software_version) => if s.len() < 3 {
                                Err(ErrorKind::MissingField)
                            } else {
                                let attributes = s[2];
                                if s.len() < 4 {
                                    Err(ErrorKind::MissingField)
                                } else {
                                    match HeaderHash::spec_decoded(s[3]) {
                                        Err(k) => Err(k),
                                        Ok(extra_data_proof) => if s.len() > 4 {
                                            Err(ErrorKind::UnparsedValues)
                                        } else {
                                            Ok(
                                                HeaderExtraDataModel {
                                                    block_version,
                                                    software_version,
                                                    attributes,
                                                    extra_data_proof,
                                                },
                                            )
                                        },
                                    }
                                }
                            },
                        }
                    },
                }
            },
        }
    }

    pub fn encode(&self) -> (r: Value)
        ensures
            r@ == Self::model_encoded(self@),
    {
        array4(
            self.block_version.encode(),
            self.software_version.encode(),
            self.attributes.encode(),
            self.extra_data_proof.encode(),
        )
    }

    pub fn decode(value: Value) -> (r: Result<HeaderExtraData, DecodeError>)
        ensures
            result_models(r, Self::spec_decoded(value@)),
    {
        let mut arr = match expect_array(value) {
            Ok(a) => a,
            Err(e) => {
                return Err(e.embed("While decoding a HeaderExtraData"));
            },
        };
        let f0 = match take_field(&mut arr, "block version") {
            Ok(v) => v,
            Err(e) => {
                return Err(e.embed("While decoding a HeaderExtraData"));
            },
        };
        let block_version = match BlockVersion::decode(f0) {
            Ok(x) => x,
            Err(e) => {
                return Err(e.embed("block version").embed("While decoding a HeaderExtraData"));
            },
        };
        let f1 = match take_field(&mut arr, "software version") {
            Ok(v) => v,
            Err(e) => {
                return Err(e.embed("While decoding a HeaderExtraData"));
            },
        };
        let software_version = match SoftwareVersion::decode(f1) {
            Ok(x) => x,
            Err(e) => {
                return Err(e.embed("software version").embed("While decoding a HeaderExtraData"));
            },
        };
        let f2 = match take_field(&mut arr, "attributes") {
            Ok(v) => v,
            Err(e) => {
                return Err(e.embed("While decoding a HeaderExtraData"));
            },
        };
        let attributes = match BlockHeaderAttributes::decode(f2) {
            Ok(x) => x,
            Err(e) => {
                return Err(e.embed("attributes").embed("While decoding a HeaderExtraData"));
            },
        };
        let f3 = match take_field(&mut arr, "extra data proof") {
            Ok(v) => v,
            Err(e) => {
                return Err(e.embed("While decoding a HeaderExtraData"));
            },
        };
        let extra_data_proof = match HeaderHash::decode(f3) {
            Ok(x) => x,
            Err(e) => {
                return Err(e.embed("extra data proof").embed("While decoding a HeaderExtraData"));
            },
        };
        if arr.len() > 0 {
            return Err(DecodeError::Cause(ErrorKind::UnparsedValues).embed(
                "While decoding a HeaderExtraData",
            ));
        }
        Ok(HeaderExtraData { block_version, software_version, attributes, extra_data_proof })
    }

    /// Decoding encoded extra data gives it back.
    pub proof fn lemma_roundtrip(m: HeaderExtraDataModel)
        requires
            m.extra_data_proof.len() == HASH_SIZE,
        ensures
            Self::spec_decoded(Self::model_encoded(m)) == Ok::<HeaderExtraDataModel, ErrorKind>(m),
    {
        m.block_version.lemma_roundtrip();
        SoftwareVersion::lemma_roundtrip(m.software_version);
    }
}

/// The model of a shared-secret-computation proof.
pub enum SscProofModel {
    Commitments(Seq<u8>, Seq<u8>),
    Openings(Seq<u8>, Seq<u8>),
    Shares(Seq<u8>, Seq<u8>),
    Certificate(Seq<u8>),
}

/// A proof of the shared-secret-computation payload: one of four stages,
/// each binding one or two digests.
#[derive(Debug, PartialEq, Eq)]
pub enum SscProof {
    Commitments(HeaderHash, HeaderHash),
    Openings(HeaderHash, HeaderHash),
    Shares(HeaderHash, HeaderHash),
    Certificate(HeaderHash),
}

impl View for SscProof {
    type V = SscProofModel;

    open spec fn view(&self) -> SscProofModel {
        match self {
            SscProof::Commitments(a, b) => SscProofModel::Commitments(a@, b@),
            SscProof::Openings(a, b) => SscProofModel::Openings(a@, b@),
            SscProof::Shares(a, b) => SscProofModel::Shares(a@, b@),
            SscProof::Certificate(a) => SscProofModel::Certificate(a@),
        }
    }
}

impl SscProof {
    /// The tree a proof encodes to: the stage discriminant, then its
    /// digests.
    pub open spec fn model_encoded(m: SscProofModel) -> ValueModel {
        match m {
            SscProofModel::Commitments(a, b) => ValueModel::Array(
                seq![ValueModel::U64(0), ValueModel::Bytes(a), ValueModel::Bytes(b)],
            ),
            SscProofModel::Openings(a, b) => ValueModel::Array(
                seq![ValueModel::U64(1), ValueModel::Bytes(a), ValueModel::Bytes(b)],
            ),
            SscProofModel::Shares(a, b) => ValueModel::Array(
                seq![ValueModel::U64(2), ValueModel::Bytes(a), ValueModel::Bytes(b)],
            ),
            SscProofModel::Certificate(a) => ValueModel::Array(
                seq![ValueModel::U64(3), ValueModel::Bytes(a)],
            ),
        }
    }

    /// The proof a tree decodes to; an unknown discriminant is refused with
    /// that discriminant.
    pub open spec fn spec_decoded(v: ValueModel) -> Result<SscProofModel, ErrorKind> {
        match spec_array(v) {
            Err(k) => Err(k),
            Ok(s) => if s.len() < 1 {
                Err(ErrorKind::MissingField)
            } else {
                match crate::cbor::spec_u64(s[0]) {
                    Err(k) => Err(k),
                    Ok(code) => if code == 0 || code == 1 || code == 2 {
                        if s.len() < 2 {
                            Err(ErrorKind::MissingField)
                        } else {
                            match HeaderHash::spec_decoded(s[1]) {
                                Err(k) => Err(k),
                                Ok(a) => if s.len() < 3 {
                                    Err(ErrorKind::MissingField)
                                } else {
                                    match HeaderHash::spec_decoded(s[2]) {
                                        Err(k) => Err(k),
                                        Ok(b) => if s.len() > 3 {
                                            Err(ErrorKind::UnparsedValues)
                                        } else if code == 0 {
                                            Ok(SscProofModel::Commitments(a, b))
                                        } else if code == 1 {
                                            Ok(SscProofModel::Openings(a, b))
                                        } else {
                                            Ok(SscProofModel::Shares(a, b))
                                        },
                                    }
                                },
                            }
                        }
                    } else if code == 3 {
                        if s.len() < 2 {
                            Err(ErrorKind::MissingField)
                        } else {
                            match HeaderHash::spec_decoded(s[1]) {
                                Err(k) => Err(k),
                                Ok(a) => if s.len() > 2 {
                                    Err(ErrorKind::UnparsedValues)
                                } else {
                                    Ok(SscProofModel::Certificate(a))
                                },
                            }
                        }
                    } else {
                        Err(ErrorKind::InvalidSumtype(code))
                    },
                }
            },
        }
    }

    pub fn encode(&self) -> (r: Value)
        ensures
            r@ == Self::model_encoded(self@),
    {
        match self {
            SscProof::Commitments(a, b) => array3(Value::U64(0), a.encode(), b.encode()),
            SscProof::Openings(a, b) => array3(Value::U64(1), a.encode(), b.encode()),
            SscProof::Shares(a, b) => array3(Value::U64(2), a.encode(), b.encode()),
            SscProof::Certificate(a) => array2(Value::U64(3), a.encode()),
        }
    }

    pub fn decode(value: Value) -> (r: Result<SscProof, DecodeError>)
        ensures
            result_models(r, Self::spec_decoded(value@)),
    {
        let mut arr = match expect_array(value) {
            Ok(a) => a,
            Err(e) => {
                return Err(e.embed("While decoding a SscProof"));
            },
        };
        let f0 = match take_field(&mut arr, "enumeration code") {
            Ok(v) => v,
            Err(e) => {
                return Err(e.embed("While decoding a SscProof"));
            },
        };
        let code = match crate::cbor::expect_u64(f0) {
            Ok(n) => n,
            Err(e) => {
                return Err(e.embed("enumeration code").embed("While decoding a SscProof"));
            },
        };
        if code == 0 || code == 1 || code == 2 {
            let f1 = match take_field(&mut arr, "commitments") {
                Ok(v) => v,
                Err(e) => {
                    return Err(e.embed("While decoding a SscProof"));
                },
            };
            let a = match HeaderHash::decode(f1) {
                Ok(x) => x,
                Err(e) => {
                    return Err(e.embed("While decoding a SscProof"));
                },
            };
            let f2 = match take_field(&mut arr, "vss") {
                Ok(v) => v,
                Err(e) => {
                    return Err(e.embed("While decoding a SscProof"));
                },
            };
            let b = match HeaderHash::decode(f2) {
                Ok(x) => x,
                Err(e) => {
                    return Err(e.embed("While decoding a SscProof"));
                },
            };
            if arr.len() > 0 {
                return Err(DecodeError::Cause(ErrorKind::UnparsedValues).embed(
                    "While decoding a SscProof",
                ));
            }
            if code == 0 {
                Ok(SscProof::Commitments(a, b))
            } else if code == 1 {
                Ok(SscProof::Openings(a, b))
            } else {
                Ok(SscProof::Shares(a, b))
            }
        } else if code == 3 {
            let f1 = match take_field(&mut arr, "certificate") {
                Ok(v) => v,
                Err(e) => {
                    return Err(e.embed("While decoding a SscProof"));
                },
            };
            let a = match HeaderHash::decode(f1) {
                Ok(x) => x,
                Err(e) => {
                    return Err(e.embed("While decoding a SscProof"));
                },
            };
            if arr.len() > 0 {
                return Err(DecodeError::Cause(ErrorKind::UnparsedValues).embed(
                    "While decoding a SscProof",
                ));
            }
            Ok(SscProof::Certificate(a))
        } else {
            Err(DecodeError::Cause(ErrorKind::InvalidSumtype(code)).embed(
                "While decoding a SscProof",
            ))
        }
    }

    /// Decoding an encoded proof gives it back.
    pub proof fn lemma_roundtrip(m: SscProofModel)
        requires
            match m {
                SscProofModel::Commitments(a, b) => a.len() == HASH_SIZE && b.len() == HASH_SIZE,
                SscProofModel::Openings(a, b) => a.len() == HASH_SIZE && b.len() == HASH_SIZE,
                SscProofModel::Shares(a, b) => a.len() == HASH_SIZE && b.len() == HASH_SIZE,
                SscProofModel::Certificate(a) => a.len() == HASH_SIZE,
            },
        ensures
            Self::spec_decoded(Self::model_encoded(m)) == Ok::<SscProofModel, ErrorKind>(m),
    {
    }
}

} // verus!
