//! Self-describing binary value model.
//!
//! A `Value` is a tree of unsigned integers, byte strings, text strings,
//! definite and indefinite arrays, maps and tagged sub-values.  The
//! mathematical model of a tree is a `ValueModel`; the byte-level wire form
//! of a model is given by the spec function `encoded`.  The executable
//! encoder produces exactly `encoded(v@)`, and the executable parser accepts
//! a byte string exactly when it is the wire form of a well-formed tree,
//! returning that tree: soundness and completeness both stand in its
//! contract.

use vstd::prelude::*;

verus! {

use vstd::arithmetic::div_mod::{
    lemma_div_denominator,
    lemma_fundamental_div_mod,
    lemma_fundamental_div_mod_converse,
    lemma_mod_bound,
    lemma_small_mod,
};
use vstd::slice::{slice_subrange, slice_to_vec};

/// An untrusted binary value tree.
#[derive(Debug, PartialEq, Eq)]
pub enum Value {
    /// An unsigned integer.
    U64(u64),
    /// A definite-length byte string.
    Bytes(Vec<u8>),
    /// A definite-length text string, kept as its raw bytes.
    Text(Vec<u8>),
    /// A definite-length array.
    Array(Vec<Value>),
    /// An indefinite-length array.
    IArray(Vec<Value>),
    /// A definite-length map of key/value pairs, in wire order.
    Object(Vec<(Value, Value)>),
    /// A tagged sub-value.
    Tag(u64, Box<Value>),
}

/// The mathematical model of a `Value` tree.
pub enum ValueModel {
    U64(u64),
    Bytes(Seq<u8>),
    Text(Seq<u8>),
    Array(Seq<ValueModel>),
    IArray(Seq<ValueModel>),
    Object(Seq<(ValueModel, ValueModel)>),
    Tag(u64, Box<ValueModel>),
}

pub open spec fn value_model(v: Value) -> ValueModel
    decreases v,
{
    match v {
        Value::U64(n) => ValueModel::U64(n),
        Value::Bytes(b) => ValueModel::Bytes(b@),
        Value::Text(t) => ValueModel::Text(t@),
        Value::Array(elems) => ValueModel::Array(value_models(elems@)),
        Value::IArray(elems) => ValueModel::IArray(value_models(elems@)),
        Value::Object(pairs) => ValueModel::Object(pair_models(pairs@)),
        Value::Tag(t, inner) => ValueModel::Tag(t, Box::new(value_model(*inner))),
    }
}

pub open spec fn value_models(elems: Seq<Value>) -> Seq<ValueModel>
    decreases elems,
{
    if elems.len() == 0 {
        Seq::empty()
    } else {
        value_models(elems.drop_last()).push(value_model(elems.last()))
    }
}

pub open spec fn pair_models(pairs: Seq<(Value, Value)>) -> Seq<(ValueModel, ValueModel)>
    decreases pairs,
{
    if pairs.len() == 0 {
        Seq::empty()
    } else {
        pair_models(pairs.drop_last()).push(
            (value_model(pairs.last().0), value_model(pairs.last().1)),
        )
    }
}

/// The model of a sequence of trees is the sequence of their models.
pub proof fn lemma_value_models_index(elems: Seq<Value>)
    ensures
        value_models(elems).len() == elems.len(),
        forall|i: int|
            0 <= i < elems.len() ==> value_models(elems)[i] == value_model(#[trigger] elems[i]),
    decreases elems.len(),
{
    if elems.len() > 0 {
        lemma_value_models_index(elems.drop_last());
        assert forall|i: int| 0 <= i < elems.len() implies value_models(elems)[i] == value_model(
            #[trigger] elems[i],
        ) by {
            if i < elems.len() - 1 {
                assert(elems.drop_last()[i] == elems[i]);
            } else {
                assert(elems[i] == elems.last());
            }
        }
    }
}

/// The model of a sequence of pairs of trees, taken entry by entry.
pub proof fn lemma_pair_models_index(pairs: Seq<(Value, Value)>)
    ensures
        pair_models(pairs).len() == pairs.len(),
        forall|i: int|
            0 <= i < pairs.len() ==> pair_models(pairs)[i] == (
            value_model(#[trigger] pairs[i].0),
            value_model(pairs[i].1),
            ),
    decreases pairs.len(),
{
    if pairs.len() > 0 {
        lemma_pair_models_index(pairs.drop_last());
        assert forall|i: int| 0 <= i < pairs.len() implies pair_models(pairs)[i] == (
            value_model(#[trigger] pairs[i].0),
            value_model(pairs[i].1),
        ) by {
            if i < pairs.len() - 1 {
                assert(pairs.drop_last()[i] == pairs[i]);
            } else {
                assert(pairs[i] == pairs.last());
            }
        }
    }
}

impl View for Value {
    type V = ValueModel;

    open spec fn view(&self) -> ValueModel {
        value_model(*self)
    }
}

/// Wire form of a length header: the major type in the three high bits and
/// the argument in the low bits, in the shortest form that holds it.
pub open spec fn len_header(major: u64, n: u64) -> Seq<u8> {
    if n < 24 {
        seq![(major * 32 + n) as u8]
    } else if n < 0x100 {
        seq![(major * 32 + 24) as u8, n as u8]
    } else if n < 0x10000 {
        seq![(major * 32 + 25) as u8, (n / 0x100) as u8, (n % 0x100) as u8]
    } else if n < 0x100000000 {
        seq![
            (major * 32 + 26) as u8,
            ((n / 0x1000000) % 0x100) as u8,
            ((n / 0x10000) % 0x100) as u8,
            ((n / 0x100) % 0x100) as u8,
            (n % 0x100) as u8,
        ]
    } else {
        seq![
            (major * 32 + 27) as u8,
            ((n / 0x100000000000000) % 0x100) as u8,
            ((n / 0x1000000000000) % 0x100) as u8,
            ((n / 0x10000000000) % 0x100) as u8,
            ((n / 0x100000000) % 0x100) as u8,
            ((n / 0x1000000) % 0x100) as u8,
            ((n / 0x10000) % 0x100) as u8,
            ((n / 0x100) % 0x100) as u8,
            (n % 0x100) as u8,
        ]
    }
}

/// Wire form of a model tree.
pub open spec fn encoded(m: ValueModel) -> Seq<u8>
    decreases m,
{
    match m {
        ValueModel::U64(n) => len_header(0, n),
        ValueModel::Bytes(b) => len_header(2, b.len() as u64) + b,
        ValueModel::Text(t) => len_header(3, t.len() as u64) + t,
        ValueModel::Array(elems) => len_header(4, elems.len() as u64) + encoded_seq(elems),
        ValueModel::IArray(elems) => seq![0x9fu8] + encoded_seq(elems) + seq![0xffu8],
        ValueModel::Object(pairs) => len_header(5, pairs.len() as u64) + encoded_pairs(pairs),
        ValueModel::Tag(t, inner) => len_header(6, t) + encoded(*inner),
    }
}

/// Wire form of a sequence of models, one after the other.
pub open spec fn encoded_seq(elems: Seq<ValueModel>) -> Seq<u8>
    decreases elems,
{
    if elems.len() == 0 {
        Seq::empty()
    } else {
        encoded(elems[0]) + encoded_seq(elems.drop_first())
    }
}

/// Wire form of a sequence of key/value pairs, each key before its value.
pub open spec fn encoded_pairs(pairs: Seq<(ValueModel, ValueModel)>) -> Seq<u8>
    decreases pairs,
{
    if pairs.len() == 0 {
        Seq::empty()
    } else {
        encoded(pairs[0].0) + encoded(pairs[0].1) + encoded_pairs(pairs.drop_first())
    }
}

/// Appending one model to a sequence appends its wire form.
pub proof fn lemma_encoded_seq_push(s: Seq<ValueModel>, x: ValueModel)
    ensures
        encoded_seq(s.push(x)) == encoded_seq(s) + encoded(x),
    decreases s.len(),
{
    if s.len() == 0 {
        assert(s.push(x)[0] == x);
        assert(s.push(x).drop_first() =~= Seq::<ValueModel>::empty());
        assert(encoded_seq(s.push(x)) == encoded(x) + encoded_seq(Seq::<ValueModel>::empty()));
        assert(encoded(x) + Seq::<u8>::empty() =~= encoded(x));
        assert(Seq::<u8>::empty() + encoded(x) =~= encoded(x));
    } else {
        assert(s.push(x)[0] == s[0]);
        assert(s.push(x).drop_first() =~= s.drop_first().push(x));
        assert(encoded_seq(s.push(x)) == encoded(s[0]) + encoded_seq(s.drop_first().push(x)));
        lemma_encoded_seq_push(s.drop_first(), x);
        assert(encoded_seq(s) == encoded(s[0]) + encoded_seq(s.drop_first()));
        assert(encoded(s[0]) + (encoded_seq(s.drop_first()) + encoded(x)) =~= (encoded(s[0])
            + encoded_seq(s.drop_first())) + encoded(x));
    }
}

/// Appending one pair of models to a sequence appends both wire forms.
pub proof fn lemma_encoded_pairs_push(s: Seq<(ValueModel, ValueModel)>, x: (ValueModel, ValueModel))
    ensures
        encoded_pairs(s.push(x)) == encoded_pairs(s) + encoded(x.0) + encoded(x.1),
    decreases s.len(),
{
    if s.len() == 0 {
        assert(s.push(x)[0] == x);
        assert(s.push(x).drop_first() =~= Seq::<(ValueModel, ValueModel)>::empty());
        assert(encoded_pairs(s.push(x)) == encoded(x.0) + encoded(x.1) + encoded_pairs(
            Seq::<(ValueModel, ValueModel)>::empty(),
        ));
        assert(encoded(x.0) + encoded(x.1) + Seq::<u8>::empty() =~= encoded(x.0) + encoded(x.1));
        assert(Seq::<u8>::empty() + encoded(x.0) + encoded(x.1) =~= encoded(x.0) + encoded(x.1));
    } else {
        assert(s.push(x)[0] == s[0]);
        assert(s.push(x).drop_first() =~= s.drop_first().push(x));
        assert(encoded_pairs(s.push(x)) == encoded(s[0].0) + encoded(s[0].1) + encoded_pairs(
            s.drop_first().push(x),
        ));
        lemma_encoded_pairs_push(s.drop_first(), x);
        assert(encoded_pairs(s) == encoded(s[0].0) + encoded(s[0].1) + encoded_pairs(
            s.drop_first(),
        ));
        assert(encoded(s[0].0) + encoded(s[0].1) + (encoded_pairs(s.drop_first()) + encoded(x.0)
            + encoded(x.1)) =~= (encoded(s[0].0) + encoded(s[0].1) + encoded_pairs(s.drop_first()))
            + encoded(x.0) + encoded(x.1));
    }
}

/// A structural copy of a value tree.
pub fn clone_value(v: &Value) -> (r: Value)
    ensures
        r@ == v@,
    decreases v,
{
    match v {
        Value::U64(n) => Value::U64(*n),
        Value::Bytes(b) => Value::Bytes(clone_byte_vec(b)),
        Value::Text(t) => Value::Text(clone_byte_vec(t)),
        Value::Array(elems) => {
            let out = clone_value_vec(elems);
            Value::Array(out)
        },
        Value::IArray(elems) => {
            let out = clone_value_vec(elems);
            Value::IArray(out)
        },
        Value::Object(pairs) => {
            let out = clone_pair_vec(pairs);
            Value::Object(out)
        },
        Value::Tag(t, inner) => Value::Tag(*t, Box::new(clone_value(inner))),
    }
}

fn clone_pair(p: &(Value, Value)) -> (r: (Value, Value))
    ensures
        value_model(r.0) == value_model(p.0),
        value_model(r.1) == value_model(p.1),
    decreases p,
{
    (clone_value(&p.0), clone_value(&p.1))
}

fn clone_pair_vec(pairs: &Vec<(Value, Value)>) -> (r: Vec<(Value, Value)>)
    ensures
        pair_models(r@) == pair_models(pairs@),
    decreases pairs@,
{
    let mut out: Vec<(Value, Value)> = Vec::new();
    let mut i: usize = 0;
    while i < pairs.len()
        invariant
            i <= pairs.len(),
            out@.len() == i,
            forall|j: int|
                0 <= j < i ==> value_model(#[trigger] out@[j].0) == value_model(pairs@[j].0)
                    && value_model(out@[j].1) == value_model(pairs@[j].1),
        decreases pairs.len() - i,
    {
        let c = clone_pair(&pairs[i]);
        out.push(c);
        i = i + 1;
    }
    proof {
        lemma_pair_models_equal(out@, pairs@);
    }
    out
}

/// A structural copy of a sequence of value trees.
pub fn clone_value_vec(elems: &Vec<Value>) -> (r: Vec<Value>)
    ensures
        value_models(r@) == value_models(elems@),
    decreases elems@,
{
    let mut out: Vec<Value> = Vec::new();
    let mut i: usize = 0;
    while i < elems.len()
        invariant
            i <= elems.len(),
            out@.len() == i,
            forall|j: int|
                0 <= j < i ==> value_model(#[trigger] out@[j]) == value_model(elems@[j]),
        decreases elems.len() - i,
    {
        let c = clone_value(&elems[i]);
        out.push(c);
        i = i + 1;
    }
    proof {
        lemma_value_models_equal(out@, elems@);
    }
    out
}

/// Two sequences of trees with pointwise equal models have equal model sequences.
proof fn lemma_value_models_equal(a: Seq<Value>, b: Seq<Value>)
    requires
        a.len() == b.len(),
        forall|j: int| 0 <= j < a.len() ==> value_model(#[trigger] a[j]) == value_model(b[j]),
    ensures
        value_models(a) == value_models(b),
{
    lemma_value_models_index(a);
    lemma_value_models_index(b);
    assert forall|i: int| 0 <= i < a.len() implies value_models(a)[i] == value_models(b)[i] by {
        assert(value_model(a[i]) == value_model(b[i]));
    }
    assert(value_models(a) =~= value_models(b));
}

proof fn lemma_pair_models_equal(a: Seq<(Value, Value)>, b: Seq<(Value, Value)>)
    requires
        a.len() == b.len(),
        forall|j: int|
            0 <= j < a.len() ==> value_model(#[trigger] a[j].0) == value_model(b[j].0)
                && value_model(a[j].1) == value_model(b[j].1),
    ensures
        pair_models(a) == pair_models(b),
{
    lemma_pair_models_index(a);
    lemma_pair_models_index(b);
    assert forall|i: int| 0 <= i < a.len() implies pair_models(a)[i] == pair_models(b)[i] by {
        assert(value_model(a[i].0) == value_model(b[i].0));
        assert(value_model(a[i].1) == value_model(b[i].1));
    }
    assert(pair_models(a) =~= pair_models(b));
}

/// A copy of a byte vector.
pub fn clone_byte_vec(b: &Vec<u8>) -> (r: Vec<u8>)
    ensures
        r@ == b@,
{
    let mut out: Vec<u8> = Vec::new();
    let mut i: usize = 0;
    while i < b.len()
        invariant
            i <= b.len(),
            out@ == b@.subrange(0, i as int),
        decreases b.len() - i,
    {
        out.push(b[i]);
        proof {
            assert(out@ =~= b@.subrange(0, i + 1 as int));
        }
        i = i + 1;
    }
    proof {
        assert(out@ =~= b@);
    }
    out
}

/// Writes a length header for the given major type and argument, in the
/// shortest form that holds the argument.
fn write_header(out: &mut Vec<u8>, major: u8, n: u64)
    requires
        major < 8,
    ensures
        final(out)@ == old(out)@ + len_header(major as u64, n),
{
    let m: u64 = (major as u64) * 32;
    if n < 24 {
        out.push((m + n) as u8);
    } else if n < 0x100 {
        out.push((m + 24) as u8);
        out.push(n as u8);
    } else if n < 0x10000 {
        out.push((m + 25) as u8);
        out.push((n / 0x100) as u8);
        out.push((n % 0x100) as u8);
    } else if n < 0x100000000 {
        out.push((m + 26) as u8);
        out.push(((n / 0x1000000) % 0x100) as u8);
        out.push(((n / 0x10000) % 0x100) as u8);
        out.push(((n / 0x100) % 0x100) as u8);
        out.push((n % 0x100) as u8);
    } else {
        out.push((m + 27) as u8);
        out.push(((n / 0x100000000000000) % 0x100) as u8);
        out.push(((n / 0x1000000000000) % 0x100) as u8);
        out.push(((n / 0x10000000000) % 0x100) as u8);
        out.push(((n / 0x100000000) % 0x100) as u8);
        out.push(((n / 0x1000000) % 0x100) as u8);
        out.push(((n / 0x10000) % 0x100) as u8);
        out.push(((n / 0x100) % 0x100) as u8);
        out.push((n % 0x100) as u8);
    }
    proof {
        assert(out@ =~= old(out)@ + len_header(major as u64, n));
    }
}

fn push_bytes(out: &mut Vec<u8>, b: &Vec<u8>)
    ensures
        final(out)@ == old(out)@ + b@,
{
    let mut i: usize = 0;
    while i < b.len()
        invariant
            i <= b.len(),
            out@ == old(out)@ + b@.subrange(0, i as int),
        decreases b.len() - i,
    {
        out.push(b[i]);
        proof {
            assert(out@ =~= old(out)@ + b@.subrange(0, i + 1 as int));
        }
        i = i + 1;
    }
    proof {
        assert(out@ =~= old(out)@ + b@);
    }
}

/// Appends the wire form of the tree to the buffer.
pub fn encode_into(v: &Value, out: &mut Vec<u8>)
    ensures
        final(out)@ == old(out)@ + encoded(v@),
    decreases v,
{
    match v {
        Value::U64(n) => {
            write_header(out, 0, *n);
        },
        Value::Bytes(b) => {
            let n = b.len();
            write_header(out, 2, n as u64);
            push_bytes(out, b);
            proof {
                assert(b@.len() == n as int);
                assert(out@ =~= old(out)@ + encoded(v@));
            }
        },
        Value::Text(t) => {
            let n = t.len();
            write_header(out, 3, n as u64);
            push_bytes(out, t);
            proof {
                assert(t@.len() == n as int);
                assert(out@ =~= old(out)@ + encoded(v@));
            }
        },
        Value::Array(elems) => {
            let n = elems.len();
            write_header(out, 4, n as u64);
            encode_seq_into(elems, out);
            proof {
                lemma_value_models_index(elems@);
                assert(value_models(elems@).len() == n as int);
                assert(out@ =~= old(out)@ + encoded(v@));
            }
        },
        Value::IArray(elems) => {
            out.push(0x9f);
            encode_seq_into(elems, out);
            out.push(0xff);
            proof {
                assert(out@ =~= old(out)@ + encoded(v@));
            }
        },
        Value::Object(pairs) => {
            let n = pairs.len();
            write_header(out, 5, n as u64);
            encode_pairs_into(pairs, out);
            proof {
                lemma_pair_models_index(pairs@);
                assert(pair_models(pairs@).len() == n as int);
                assert(out@ =~= old(out)@ + encoded(v@));
            }
        },
        Value::Tag(t, inner) => {
            write_header(out, 6, *t);
            encode_into(inner, out);
            proof {
                assert(out@ =~= old(out)@ + encoded(v@));
            }
        },
    }
}

fn encode_pair_into(p: &(Value, Value), out: &mut Vec<u8>)
    ensures
        final(out)@ == old(out)@ + encoded(value_model(p.0)) + encoded(value_model(p.1)),
    decreases p,
{
    encode_into(&p.0, out);
    encode_into(&p.1, out);
    proof {
        assert(out@ =~= old(out)@ + encoded(value_model(p.0)) + encoded(value_model(p.1)));
    }
}

fn encode_pairs_into(pairs: &Vec<(Value, Value)>, out: &mut Vec<u8>)
    ensures
        final(out)@ == old(out)@ + encoded_pairs(pair_models(pairs@)),
    decreases pairs@,
{
    let mut i: usize = 0;
    while i < pairs.len()
        invariant
            i <= pairs.len(),
            out@ == old(out)@ + encoded_pairs(pair_models(pairs@.subrange(0, i as int))),
        decreases pairs.len() - i,
    {
        encode_pair_into(&pairs[i], out);
        proof {
            let pref = pairs@.subrange(0, i as int);
            let m = (value_model(pairs@[i as int].0), value_model(pairs@[i as int].1));
            assert(pairs@.subrange(0, i + 1 as int).drop_last() =~= pref);
            assert(pairs@.subrange(0, i + 1 as int).last() == pairs@[i as int]);
            assert(pair_models(pairs@.subrange(0, i + 1 as int)) == pair_models(pref).push(m));
            lemma_encoded_pairs_push(pair_models(pref), m);
            assert(out@ =~= old(out)@ + encoded_pairs(
                pair_models(pairs@.subrange(0, i + 1 as int)),
            ));
        }
        i = i + 1;
    }
    proof {
        assert(pairs@.subrange(0, pairs@.len() as int) =~= pairs@);
    }
}

fn encode_seq_into(elems: &Vec<Value>, out: &mut Vec<u8>)
    ensures
        final(out)@ == old(out)@ + encoded_seq(value_models(elems@)),
    decreases elems@,
{
    let mut i: usize = 0;
    while i < elems.len()
        invariant
            i <= elems.len(),
            out@ == old(out)@ + encoded_seq(value_models(elems@.subrange(0, i as int))),
        decreases elems.len() - i,
    {
        encode_into(&elems[i], out);
        proof {
            let ghost pref = elems@.subrange(0, i as int);
            assert(elems@.subrange(0, i + 1 as int).drop_last() =~= pref);
            assert(value_models(elems@.subrange(0, i + 1 as int)) == value_models(pref).push(
                value_model(elems@[i as int]),
            ));
            lemma_encoded_seq_push(value_models(pref), value_model(elems@[i as int]));
        }
        i = i + 1;
    }
    proof {
        assert(elems@.subrange(0, elems@.len() as int) =~= elems@);
        assert(value_models(Seq::<Value>::empty()) =~= Seq::<ValueModel>::empty());
    }
}

/// Wire form of a value tree.
pub fn encode_to_cbor(v: &Value) -> (r: Vec<u8>)
    ensures
        r@ == encoded(v@),
{
    let mut out: Vec<u8> = Vec::new();
    encode_into(v, &mut out);
    proof {
        assert(out@ =~= encoded(v@));
    }
    out
}

/// The root cause of a decode failure.
#[derive(Debug, Clone, Copy, PartialEq, Eq, Structural)]
pub enum ErrorKind {
    /// An unsigned integer was expected.
    ExpectedU64,
    /// A byte string was expected.
    ExpectedBytes,
    /// A text string was expected.
    ExpectedText,
    /// A definite-length array was expected.
    ExpectedArray,
    /// An indefinite-length array was expected.
    ExpectedIArray,
    /// A record array ended before all its fields were read.
    MissingField,
    /// A record array held values beyond its declared fields.
    UnparsedValues,
    /// A byte string had the wrong length; the expected length is given.
    InvalidSize(u64),
    /// The leading integer of a sum type named no known variant.
    InvalidSumtype(u64),
    /// An integer lay outside the inclusive range given.
    Between(u64, u64),
}

/// A decode failure: a root cause, wrapped in descriptions of the fields and
/// records that were being decoded, innermost first.
#[derive(Debug, PartialEq, Eq)]
pub enum DecodeError {
    Cause(ErrorKind),
    Context(String, Box<DecodeError>),
}

impl DecodeError {
    /// The root cause under the context chain.
    pub open spec fn kind(self) -> ErrorKind
        decreases self,
    {
        match self {
            DecodeError::Cause(k) => k,
            DecodeError::Context(_, inner) => inner.kind(),
        }
    }

    /// Returns the root cause under the context chain.
    pub fn root_kind(&self) -> (k: ErrorKind)
        ensures
            k == self.kind(),
        decreases self,
    {
        match self {
            DecodeError::Cause(k) => *k,
            DecodeError::Context(_, inner) => inner.root_kind(),
        }
    }

    /// The innermost description in the context chain: the one written
    /// right around the root cause, naming what was being decoded when the
    /// failure arose.
    pub open spec fn innermost_context(self) -> Seq<char>
        decreases self,
    {
        match self {
            DecodeError::Cause(_) => Seq::empty(),
            DecodeError::Context(s, inner) => match *inner {
                DecodeError::Cause(_) => s@,
                DecodeError::Context(_, _) => inner.innermost_context(),
            },
        }
    }

    /// Wraps the failure with a description of what was being decoded.
    pub fn embed(self, what: &str) -> (r: DecodeError)
        ensures
            r.kind() == self.kind(),
            self matches DecodeError::Cause(_) ==> r.innermost_context() == what@,
            self matches DecodeError::Context(_, _) ==> r.innermost_context()
                == self.innermost_context(),
    {
        DecodeError::Context(what.to_owned(), Box::new(self))
    }
}

/// How an executable decode result realises a model-level one: the same
/// outcome, the same value up to its model, and the same root cause.
pub open spec fn result_models<T: View>(
    r: Result<T, DecodeError>,
    s: Result<<T as View>::V, ErrorKind>,
) -> bool {
    match r {
        Ok(x) => s matches Ok(m) && x@ == m,
        Err(e) => s matches Err(k) && e.kind() == k,
    }
}

/// The unsigned integer held by a model.
pub open spec fn spec_u64(v: ValueModel) -> Result<u64, ErrorKind> {
    match v {
        ValueModel::U64(n) => Ok(n),
        _ => Err(ErrorKind::ExpectedU64),
    }
}

/// The unsigned integer held by a model, bounded to 32 bits.
pub open spec fn spec_u32(v: ValueModel) -> Result<u32, ErrorKind> {
    match v {
        ValueModel::U64(n) => if n <= 0xffffffff {
            Ok(n as u32)
        } else {
            Err(ErrorKind::Between(0, 0xffffffff))
        },
        _ => Err(ErrorKind::ExpectedU64),
    }
}

/// The unsigned integer held by a model, bounded to 16 bits.
pub open spec fn spec_u16(v: ValueModel) -> Result<u16, ErrorKind> {
    match v {
        ValueModel::U64(n) => if n <= 0xffff {
            Ok(n as u16)
        } else {
            Err(ErrorKind::Between(0, 0xffff))
        },
        _ => Err(ErrorKind::ExpectedU64),
    }
}

/// The unsigned integer held by a model, bounded to 8 bits.
pub open spec fn spec_u8(v: ValueModel) -> Result<u8, ErrorKind> {
    match v {
        ValueModel::U64(n) => if n <= 0xff {
            Ok(n as u8)
        } else {
            Err(ErrorKind::Between(0, 0xff))
        },
        _ => Err(ErrorKind::ExpectedU64),
    }
}

/// The byte string held by a model.
pub open spec fn spec_bytes(v: ValueModel) -> Result<Seq<u8>, ErrorKind> {
    match v {
        ValueModel::Bytes(b) => Ok(b),
        _ => Err(ErrorKind::ExpectedBytes),
    }
}

/// The text bytes held by a model.
pub open spec fn spec_text(v: ValueModel) -> Result<Seq<u8>, ErrorKind> {
    match v {
        ValueModel::Text(t) => Ok(t),
        _ => Err(ErrorKind::ExpectedText),
    }
}

/// The elements of a definite-length array model.
pub open spec fn spec_array(v: ValueModel) -> Result<Seq<ValueModel>, ErrorKind> {
    match v {
        ValueModel::Array(s) => Ok(s),
        _ => Err(ErrorKind::ExpectedArray),
    }
}

/// The elements of an indefinite-length array model.
pub open spec fn spec_iarray(v: ValueModel) -> Result<Seq<ValueModel>, ErrorKind> {
    match v {
        ValueModel::IArray(s) => Ok(s),
        _ => Err(ErrorKind::ExpectedIArray),
    }
}

/// Takes the unsigned integer out of a value.
pub fn expect_u64(value: Value) -> (r: Result<u64, DecodeError>)
    ensures
        result_models(r, spec_u64(value@)),
{
    match value {
        Value::U64(n) => Ok(n),
        _ => Err(DecodeError::Cause(ErrorKind::ExpectedU64)),
    }
}

/// Takes the unsigned integer out of a value, bounded to 32 bits.
pub fn expect_u32(value: Value) -> (r: Result<u32, DecodeError>)
    ensures
        result_models(r, spec_u32(value@)),
{
    match value {
        Value::U64(n) => if n <= 0xffffffff {
            Ok(n as u32)
        } else {
            Err(DecodeError::Cause(ErrorKind::Between(0, 0xffffffff)))
        },
        _ => Err(DecodeError::Cause(ErrorKind::ExpectedU64)),
    }
}

/// Takes the unsigned integer out of a value, bounded to 16 bits.
pub fn expect_u16(value: Value) -> (r: Result<u16, DecodeError>)
    ensures
        result_models(r, spec_u16(value@)),
{
    match value {
        Value::U64(n) => if n <= 0xffff {
            Ok(n as u16)
        } else {
            Err(DecodeError::Cause(ErrorKind::Between(0, 0xffff)))
        },
        _ => Err(DecodeError::Cause(ErrorKind::ExpectedU64)),
    }
}

/// Takes the unsigned integer out of a value, bounded to 8 bits.
pub fn expect_u8(value: Value) -> (r: Result<u8, DecodeError>)
    ensures
        result_models(r, spec_u8(value@)),
{
    match value {
        Value::U64(n) => if n <= 0xff {
            Ok(n as u8)
        } else {
            Err(DecodeError::Cause(ErrorKind::Between(0, 0xff)))
        },
        _ => Err(DecodeError::Cause(ErrorKind::ExpectedU64)),
    }
}

/// Takes the byte string out of a value.
pub fn expect_bytes(value: Value) -> (r: Result<Vec<u8>, DecodeError>)
    ensures
        result_models(r, spec_bytes(value@)),
{
    match value {
        Value::Bytes(b) => Ok(b),
        _ => Err(DecodeError::Cause(ErrorKind::ExpectedBytes)),
    }
}

/// Takes the text bytes out of a value.
pub fn expect_text(value: Value) -> (r: Result<Vec<u8>, DecodeError>)
    ensures
        result_models(r, spec_text(value@)),
{
    match value {
        Value::Text(t) => Ok(t),
        _ => Err(DecodeError::Cause(ErrorKind::ExpectedText)),
    }
}

/// Takes the elements out of a definite-length array value.
pub fn expect_array(value: Value) -> (r: Result<Vec<Value>, DecodeError>)
    ensures
        r matches Ok(elems) ==> spec_array(value@) == Ok::<_, ErrorKind>(value_models(elems@)),
        r matches Err(e) ==> spec_array(value@) matches Err(k) && e.kind() == k,
{
    match value {
        Value::Array(elems) => Ok(elems),
        _ => Err(DecodeError::Cause(ErrorKind::ExpectedArray)),
    }
}

/// Takes the elements out of an indefinite-length array value.
pub fn expect_iarray(value: Value) -> (r: Result<Vec<Value>, DecodeError>)
    ensures
        r matches Ok(elems) ==> spec_iarray(value@) == Ok::<_, ErrorKind>(value_models(elems@)),
        r matches Err(e) ==> spec_iarray(value@) matches Err(k) && e.kind() == k,
{
    match value {
        Value::IArray(elems) => Ok(elems),
        _ => Err(DecodeError::Cause(ErrorKind::ExpectedIArray)),
    }
}

/// Takes the next field off the front of a record array, or reports under
/// which name the record ended short.
pub fn take_field(arr: &mut Vec<Value>, what: &str) -> (r: Result<Value, DecodeError>)
    ensures
        old(arr)@.len() == 0 ==> ({
            &&& r matches Err(e)
            &&& e.kind() == ErrorKind::MissingField
            &&& e.innermost_context() == what@
            &&& final(arr)@ == old(arr)@
        }),
        old(arr)@.len() > 0 ==> ({
            &&& r matches Ok(v) && v == old(arr)@[0]
            &&& final(arr)@ == old(arr)@.drop_first()
            &&& value_models(final(arr)@) == value_models(old(arr)@).drop_first()
            &&& value_model(old(arr)@[0]) == value_models(old(arr)@)[0]
        }),
        value_models(old(arr)@).len() == old(arr)@.len(),
{
    proof {
        lemma_value_models_index(old(arr)@);
    }
    if arr.len() == 0 {
        Err(DecodeError::Cause(ErrorKind::MissingField).embed(what))
    } else {
        let v = arr.remove(0);
        proof {
            assert(arr@ =~= old(arr)@.drop_first());
            lemma_value_models_index(arr@);
            assert forall|i: int| 0 <= i < arr@.len() implies value_models(arr@)[i] == value_models(
                old(arr)@,
            ).drop_first()[i] by {
                assert(arr@[i] == old(arr)@[i + 1]);
                assert(value_models(old(arr)@)[i + 1] == value_model(old(arr)@[i + 1]));
            }
            assert(value_models(arr@) =~= value_models(old(arr)@).drop_first());
        }
        Ok(v)
    }
}

/// Builds a two-element array value.
pub fn array2(a: Value, b: Value) -> (r: Value)
    ensures
        r@ == ValueModel::Array(seq![a@, b@]),
{
    let mut elems: Vec<Value> = Vec::new();
    proof {
        let ghost am = value_model(a);
        let ghost bm = value_model(b);
        assert(value_models(seq![a, b]) =~= seq![am, bm]) by {
            lemma_value_models_index(seq![a, b]);
        }
    }
    elems.push(a);
    elems.push(b);
    proof {
        assert(elems@ =~= seq![elems@[0], elems@[1]]);
    }
    Value::Array(elems)
}

/// Builds a three-element array value.
pub fn array3(a: Value, b: Value, c: Value) -> (r: Value)
    ensures
        r@ == ValueModel::Array(seq![a@, b@, c@]),
{
    proof {
        assert(value_models(seq![a, b, c]) =~= seq![value_model(a), value_model(b), value_model(c)])
            by {
            lemma_value_models_index(seq![a, b, c]);
        }
    }
    let mut elems: Vec<Value> = Vec::new();
    elems.push(a);
    elems.push(b);
    elems.push(c);
    proof {
        assert(elems@ =~= seq![elems@[0], elems@[1], elems@[2]]);
    }
    Value::Array(elems)
}

/// Builds a four-element array value.
pub fn array4(a: Value, b: Value, c: Value, d: Value) -> (r: Value)
    ensures
        r@ == ValueModel::Array(seq![a@, b@, c@, d@]),
{
    proof {
        assert(value_models(seq![a, b, c, d]) =~= seq![
            value_model(a),
            value_model(b),
            value_model(c),
            value_model(d),
        ]) by {
            lemma_value_models_index(seq![a, b, c, d]);
        }
    }
    let mut elems: Vec<Value> = Vec::new();
    elems.push(a);
    elems.push(b);
    elems.push(c);
    elems.push(d);
    proof {
        assert(elems@ =~= seq![elems@[0], elems@[1], elems@[2], elems@[3]]);
    }
    Value::Array(elems)
}

/// Builds a five-element array value.
pub fn array5(a: Value, b: Value, c: Value, d: Value, e: Value) -> (r: Value)
    ensures
        r@ == ValueModel::Array(seq![a@, b@, c@, d@, e@]),
{
    proof {
        assert(value_models(seq![a, b, c, d, e]) =~= seq![
            value_model(a),
            value_model(b),
            value_model(c),
            value_model(d),
            value_model(e),
        ]) by {
            lemma_value_models_index(seq![a, b, c, d, e]);
        }
    }
    let mut elems: Vec<Value> = Vec::new();
    elems.push(a);
    elems.push(b);
    elems.push(c);
    elems.push(d);
    elems.push(e);
    proof {
        assert(elems@ =~= seq![elems@[0], elems@[1], elems@[2], elems@[3], elems@[4]]);
    }
    Value::Array(elems)
}

/// Builds an indefinite-length array value from its elements.
pub fn iarray_from(elems: Vec<Value>) -> (r: Value)
    ensures
        r@ == ValueModel::IArray(value_models(elems@)),
{
    Value::IArray(elems)
}

/// Builds a sum-type value: the discriminant, then the given fields as the
/// rest of the array.
pub fn array_with_code(code: u64, rest: Vec<Value>) -> (r: Value)
    ensures
        r@ == ValueModel::Array(seq![ValueModel::U64(code)] + value_models(rest@)),
{
    let mut elems: Vec<Value> = Vec::new();
    elems.push(Value::U64(code));
    let mut i: usize = 0;
    while i < rest.len()
        invariant
            i <= rest.len(),
            elems@.len() == i + 1,
            value_model(elems@[0]) == ValueModel::U64(code),
            forall|j: int|
                0 <= j < i ==> value_model(#[trigger] elems@[j + 1]) == value_model(rest@[j]),
        decreases rest.len() - i,
    {
        let c = clone_value(&rest[i]);
        elems.push(c);
        i = i + 1;
    }
    proof {
        lemma_value_models_index(elems@);
        lemma_value_models_index(rest@);
        assert forall|j: int|
            0 <= j < elems@.len() implies value_models(elems@)[j] == (seq![
            ValueModel::U64(code),
        ] + value_models(rest@))[j] by {
            if j > 0 {
                assert(elems@[j] == elems@[(j - 1) + 1]);
                assert(value_model(elems@[(j - 1) + 1]) == value_model(rest@[j - 1]));
            }
        }
        assert(value_models(elems@) =~= seq![ValueModel::U64(code)] + value_models(rest@));
    }
    Value::Array(elems)
}

/// A model whose sequence lengths all fit the 64-bit length arguments the
/// wire headers carry.  Every tree built from parsed or constructed values
/// is well-formed; only unbounded ghost trees can fall outside.
pub open spec fn wf_model(m: ValueModel) -> bool
    decreases m,
{
    match m {
        ValueModel::U64(_) => true,
        ValueModel::Bytes(b) => b.len() <= u64::MAX,
        ValueModel::Text(t) => t.len() <= u64::MAX,
        ValueModel::Array(elems) => elems.len() <= u64::MAX && wf_models(elems),
        ValueModel::IArray(elems) => wf_models(elems),
        ValueModel::Object(pairs) => pairs.len() <= u64::MAX && wf_pairs(pairs),
        ValueModel::Tag(_, inner) => wf_model(*inner),
    }
}

pub open spec fn wf_models(elems: Seq<ValueModel>) -> bool
    decreases elems,
{
    elems.len() == 0 || (wf_model(elems.last()) && wf_models(elems.drop_last()))
}

pub open spec fn wf_pairs(pairs: Seq<(ValueModel, ValueModel)>) -> bool
    decreases pairs,
{
    pairs.len() == 0 || (wf_model(pairs.last().0) && wf_model(pairs.last().1) && wf_pairs(
        pairs.drop_last(),
    ))
}

/// A sequence of models is well-formed exactly when each of them is.
pub proof fn lemma_wf_models_index(elems: Seq<ValueModel>)
    ensures
        wf_models(elems) <==> (forall|i: int|
            0 <= i < elems.len() ==> wf_model(#[trigger] elems[i])),
    decreases elems.len(),
{
    if elems.len() > 0 {
        lemma_wf_models_index(elems.drop_last());
        if wf_models(elems) {
            assert forall|i: int| 0 <= i < elems.len() implies wf_model(#[trigger] elems[i]) by {
                if i < elems.len() - 1 {
                    assert(elems.drop_last()[i] == elems[i]);
                } else {
                    assert(elems[i] == elems.last());
                }
            }
        }
        if forall|i: int| 0 <= i < elems.len() ==> wf_model(#[trigger] elems[i]) {
            assert forall|i: int|
                0 <= i < elems.drop_last().len() implies wf_model(
                #[trigger] elems.drop_last()[i],
            ) by {
                assert(elems.drop_last()[i] == elems[i]);
            }
            assert(wf_model(elems.last()));
        }
    }
}

/// A sequence of pairs of models is well-formed exactly when each side of
/// each pair is.
pub proof fn lemma_wf_pairs_index(pairs: Seq<(ValueModel, ValueModel)>)
    ensures
        wf_pairs(pairs) <==> (forall|i: int|
            0 <= i < pairs.len() ==> wf_model(#[trigger] pairs[i].0) && wf_model(pairs[i].1)),
    decreases pairs.len(),
{
    if pairs.len() > 0 {
        lemma_wf_pairs_index(pairs.drop_last());
        if wf_pairs(pairs) {
            assert forall|i: int|
                0 <= i < pairs.len() implies wf_model(#[trigger] pairs[i].0) && wf_model(
                pairs[i].1,
            ) by {
                if i < pairs.len() - 1 {
                    assert(pairs.drop_last()[i] == pairs[i]);
                    assert(wf_model(pairs.drop_last()[i].0));
                    assert(wf_model(pairs.drop_last()[i].1));
                } else {
                    assert(pairs[i] == pairs.last());
                }
            }
        }
        if forall|i: int|
            0 <= i < pairs.len() ==> wf_model(#[trigger] pairs[i].0) && wf_model(pairs[i].1) {
            assert forall|i: int|
                0 <= i < pairs.drop_last().len() implies wf_model(
                #[trigger] pairs.drop_last()[i].0,
            ) && wf_model(pairs.drop_last()[i].1) by {
                assert(pairs.drop_last()[i] == pairs[i]);
                assert(wf_model(pairs[i].0));
                assert(wf_model(pairs[i].1));
            }
            assert(wf_model(pairs.last().0) && wf_model(pairs.last().1));
        }
    }
}

/// The wire form of the model `m` fills `bytes` exactly from `lo` to `hi`.
pub open spec fn wire_at(bytes: Seq<u8>, lo: int, hi: int, m: ValueModel) -> bool {
    &&& 0 <= lo <= hi <= bytes.len()
    &&& wf_model(m)
    &&& bytes.subrange(lo, hi) == encoded(m)
}

/// How many bytes a length header takes for a given argument.
pub open spec fn header_len(n: u64) -> int {
    if n < 24 {
        1
    } else if n < 0x100 {
        2
    } else if n < 0x10000 {
        3
    } else if n < 0x100000000 {
        5
    } else {
        9
    }
}

/// The code carried in the low five bits of a header's first byte.
pub open spec fn header_code(n: u64) -> u64 {
    if n < 24 {
        n
    } else if n < 0x100 {
        24
    } else if n < 0x10000 {
        25
    } else if n < 0x100000000 {
        26
    } else {
        27
    }
}

/// The shape of a length header: its exact length, and how its first byte
/// splits into the major type and the form code.
proof fn lemma_header_shape(major: u64, n: u64)
    requires
        major <= 7,
    ensures
        len_header(major, n).len() == header_len(n),
        len_header(major, n)[0] == (major * 32 + header_code(n)) as u8,
        header_code(n) <= 27,
        major * 32 + header_code(n) < 0x100,
        (len_header(major, n)[0] as u64) / 32 == major,
        (len_header(major, n)[0] as u64) % 32 == header_code(n),
{
    lemma_fundamental_div_mod_converse(
        (major * 32 + header_code(n)) as int,
        32,
        major as int,
        header_code(n) as int,
    );
}

proof fn lemma_recompose2(n: u64)
    requires
        n < 0x10000,
    ensures
        n == (n / 0x100) * 0x100 + n % 0x100,
        n / 0x100 < 0x100,
{
    lemma_fundamental_div_mod(n as int, 0x100);
    lemma_mod_bound(n as int, 0x100);
}

proof fn lemma_recompose4(n: u64)
    requires
        n < 0x100000000,
    ensures
        n == ((n / 0x1000000) % 0x100) * 0x1000000 + ((n / 0x10000) % 0x100) * 0x10000 + ((n
            / 0x100) % 0x100) * 0x100 + n % 0x100,
        (n / 0x1000000) % 0x100 < 0x100,
        (n / 0x10000) % 0x100 < 0x100,
        (n / 0x100) % 0x100 < 0x100,
        n % 0x100 < 0x100,
    {
    lemma_fundamental_div_mod(n as int, 0x100);
    lemma_mod_bound(n as int, 0x100);
    lemma_fundamental_div_mod(n as int / 0x100, 0x100);
    lemma_mod_bound(n as int / 0x100, 0x100);
    lemma_div_denominator(n as int, 0x100, 0x100);
    lemma_fundamental_div_mod(n as int / 0x10000, 0x100);
    lemma_mod_bound(n as int / 0x10000, 0x100);
    lemma_div_denominator(n as int, 0x10000, 0x100);
    lemma_fundamental_div_mod(n as int, 0x1000000);
    lemma_mod_bound(n as int, 0x1000000);
    lemma_small_mod((n / 0x1000000) as nat, 0x100);
}

proof fn lemma_recompose8(n: u64)
    ensures
        n == ((n / 0x100000000000000) % 0x100) * 0x100000000000000 + ((n / 0x1000000000000)
            % 0x100) * 0x1000000000000 + ((n / 0x10000000000) % 0x100) * 0x10000000000 + ((n
            / 0x100000000) % 0x100) * 0x100000000 + ((n / 0x1000000) % 0x100) * 0x1000000 + ((n
            / 0x10000) % 0x100) * 0x10000 + ((n / 0x100) % 0x100) * 0x100 + n % 0x100,
{
    lemma_fundamental_div_mod(n as int, 0x100);
    lemma_mod_bound(n as int, 0x100);
    lemma_fundamental_div_mod(n as int / 0x100, 0x100);
    lemma_mod_bound(n as int / 0x100, 0x100);
    lemma_div_denominator(n as int, 0x100, 0x100);
    lemma_fundamental_div_mod(n as int / 0x10000, 0x100);
    lemma_mod_bound(n as int / 0x10000, 0x100);
    lemma_div_denominator(n as int, 0x10000, 0x100);
    lemma_fundamental_div_mod(n as int / 0x1000000, 0x100);
    lemma_mod_bound(n as int / 0x1000000, 0x100);
    lemma_div_denominator(n as int, 0x1000000, 0x100);
    lemma_fundamental_div_mod(n as int / 0x100000000, 0x100);
    lemma_mod_bound(n as int / 0x100000000, 0x100);
    lemma_div_denominator(n as int, 0x100000000, 0x100);
    lemma_fundamental_div_mod(n as int / 0x10000000000, 0x100);
    lemma_mod_bound(n as int / 0x10000000000, 0x100);
    lemma_div_denominator(n as int, 0x10000000000, 0x100);
    lemma_fundamental_div_mod(n as int / 0x1000000000000, 0x100);
    lemma_mod_bound(n as int / 0x1000000000000, 0x100);
    lemma_div_denominator(n as int, 0x1000000000000, 0x100);
    lemma_fundamental_div_mod(n as int, 0x100000000000000);
    lemma_mod_bound(n as int, 0x100000000000000);
    lemma_small_mod((n / 0x100000000000000) as nat, 0x100);
}

/// The first byte of a wire form decides the kind of tree it opens.
proof fn lemma_encoded_head(m: ValueModel)
    ensures
        encoded(m).len() >= 1,
        (m matches ValueModel::IArray(_)) <==> encoded(m)[0] == 0x9f,
        !(m matches ValueModel::IArray(_)) ==> (encoded(m)[0] as u64) % 32 <= 27,
        (encoded(m)[0] as u64) / 32 == (match m {
            ValueModel::U64(_) => 0u64,
            ValueModel::Bytes(_) => 2u64,
            ValueModel::Text(_) => 3u64,
            ValueModel::Array(_) => 4u64,
            ValueModel::IArray(_) => 4u64,
            ValueModel::Object(_) => 5u64,
            ValueModel::Tag(_, _) => 6u64,
        }),
        encoded(m)[0] != 0xff,
{
    match m {
        ValueModel::U64(n) => {
            lemma_header_shape(0, n);
        },
        ValueModel::Bytes(b) => {
            lemma_header_shape(2, b.len() as u64);
            assert(encoded(m)[0] == len_header(2, b.len() as u64)[0]);
        },
        ValueModel::Text(t) => {
            lemma_header_shape(3, t.len() as u64);
            assert(encoded(m)[0] == len_header(3, t.len() as u64)[0]);
        },
        ValueModel::Array(elems) => {
            lemma_header_shape(4, elems.len() as u64);
            assert(encoded(m)[0] == len_header(4, elems.len() as u64)[0]);
        },
        ValueModel::IArray(elems) => {
            assert(encoded(m)[0] == 0x9f);
            lemma_fundamental_div_mod_converse(0x9f, 32, 4, 31);
        },
        ValueModel::Object(pairs) => {
            lemma_header_shape(5, pairs.len() as u64);
            assert(encoded(m)[0] == len_header(5, pairs.len() as u64)[0]);
        },
        ValueModel::Tag(t, inner) => {
            lemma_header_shape(6, t);
            assert(encoded(m)[0] == len_header(6, t)[0]);
        },
    }
}

/// The wire form of a concatenation of sequences is the concatenation of
/// their wire forms.
pub proof fn lemma_encoded_seq_cat(a: Seq<ValueModel>, b: Seq<ValueModel>)
    ensures
        encoded_seq(a + b) == encoded_seq(a) + encoded_seq(b),
    decreases a.len(),
{
    if a.len() == 0 {
        assert(a + b =~= b);
        assert(encoded_seq(a) + encoded_seq(b) =~= encoded_seq(b));
    } else {
        assert((a + b).len() > 0);
        assert((a + b)[0] == a[0]);
        assert((a + b).drop_first() =~= a.drop_first() + b);
        lemma_encoded_seq_cat(a.drop_first(), b);
        assert(encoded_seq(a + b) == encoded(a[0]) + (encoded_seq(a.drop_first()) + encoded_seq(
            b,
        )));
        assert(encoded(a[0]) + (encoded_seq(a.drop_first()) + encoded_seq(b)) =~= (encoded(a[0])
            + encoded_seq(a.drop_first())) + encoded_seq(b));
    }
}

/// The wire form of a sequence splits around any of its elements.
pub proof fn lemma_encoded_seq_split(s: Seq<ValueModel>, i: int)
    requires
        0 <= i < s.len(),
    ensures
        encoded_seq(s) == encoded_seq(s.take(i)) + encoded(s[i]) + encoded_seq(s.skip(i + 1)),
{
    assert(s =~= s.take(i) + s.skip(i));
    lemma_encoded_seq_cat(s.take(i), s.skip(i));
    assert(s.skip(i).len() > 0);
    assert(s.skip(i)[0] == s[i]);
    assert(s.skip(i).drop_first() =~= s.skip(i + 1));
    assert(encoded_seq(s.skip(i)) == encoded(s[i]) + encoded_seq(s.skip(i + 1)));
    assert(encoded_seq(s.take(i)) + (encoded(s[i]) + encoded_seq(s.skip(i + 1))) =~= encoded_seq(
        s.take(i),
    ) + encoded(s[i]) + encoded_seq(s.skip(i + 1)));
}

/// The wire form of a concatenation of pair sequences is the concatenation
/// of their wire forms.
pub proof fn lemma_encoded_pairs_cat(
    a: Seq<(ValueModel, ValueModel)>,
    b: Seq<(ValueModel, ValueModel)>,
)
    ensures
        encoded_pairs(a + b) == encoded_pairs(a) + encoded_pairs(b),
    decreases a.len(),
{
    if a.len() == 0 {
        assert(a + b =~= b);
        assert(encoded_pairs(a) + encoded_pairs(b) =~= encoded_pairs(b));
    } else {
        assert((a + b).len() > 0);
        assert((a + b)[0] == a[0]);
        assert((a + b).drop_first() =~= a.drop_first() + b);
        lemma_encoded_pairs_cat(a.drop_first(), b);
        assert(encoded_pairs(a + b) == encoded(a[0].0) + encoded(a[0].1) + (encoded_pairs(
            a.drop_first(),
        ) + encoded_pairs(b)));
        assert(encoded(a[0].0) + encoded(a[0].1) + (encoded_pairs(a.drop_first()) + encoded_pairs(
            b,
        )) =~= (encoded(a[0].0) + encoded(a[0].1) + encoded_pairs(a.drop_first())) + encoded_pairs(
            b,
        ));
    }
}

/// The wire form of a pair sequence splits around any of its entries.
pub proof fn lemma_encoded_pairs_split(s: Seq<(ValueModel, ValueModel)>, i: int)
    requires
        0 <= i < s.len(),
    ensures
        encoded_pairs(s) == encoded_pairs(s.take(i)) + encoded(s[i].0) + encoded(s[i].1)
            + encoded_pairs(s.skip(i + 1)),
{
    assert(s =~= s.take(i) + s.skip(i));
    lemma_encoded_pairs_cat(s.take(i), s.skip(i));
    assert(s.skip(i).len() > 0);
    assert(s.skip(i)[0] == s[i]);
    assert(s.skip(i).drop_first() =~= s.skip(i + 1));
    assert(encoded_pairs(s.skip(i)) == encoded(s[i].0) + encoded(s[i].1) + encoded_pairs(
        s.skip(i + 1),
    ));
    assert(encoded_pairs(s.take(i)) + (encoded(s[i].0) + encoded(s[i].1) + encoded_pairs(
        s.skip(i + 1),
    )) =~= encoded_pairs(s.take(i)) + encoded(s[i].0) + encoded(s[i].1) + encoded_pairs(
        s.skip(i + 1),
    ));
}

/// A sequence's wire form holds at least one byte per element.
proof fn lemma_encoded_seq_len(s: Seq<ValueModel>)
    ensures
        encoded_seq(s).len() >= s.len(),
    decreases s.len(),
{
    if s.len() > 0 {
        lemma_encoded_head(s[0]);
        lemma_encoded_seq_len(s.drop_first());
    }
}

/// A pair sequence's wire form holds at least one byte per entry.
proof fn lemma_encoded_pairs_len(s: Seq<(ValueModel, ValueModel)>)
    ensures
        encoded_pairs(s).len() >= s.len(),
    decreases s.len(),
{
    if s.len() > 0 {
        lemma_encoded_head(s[0].0);
        lemma_encoded_pairs_len(s.drop_first());
    }
}

/// Cuts the middle piece out of a region known to split in three.
proof fn lemma_extract(bytes: Seq<u8>, lo: int, hi: int, pre: Seq<u8>, mid: Seq<u8>, post: Seq<u8>)
    requires
        0 <= lo <= hi <= bytes.len(),
        bytes.subrange(lo, hi) == pre + mid + post,
    ensures
        bytes.subrange(lo + pre.len(), lo + pre.len() + mid.len()) == mid,
{
    assert(bytes.subrange(lo, hi).len() == hi - lo);
    assert((pre + mid + post).len() == pre.len() + mid.len() + post.len());
    assert(hi - lo == pre.len() + mid.len() + post.len());
    assert forall|j: int|
        0 <= j < mid.len() implies bytes.subrange(lo + pre.len(), lo + pre.len() + mid.len())[j]
        == mid[j] by {
        assert(bytes.subrange(lo, hi)[pre.len() + j] == ((pre + mid) + post)[pre.len() + j]);
        assert(((pre + mid) + post)[pre.len() + j] == (pre + mid)[pre.len() + j]);
        assert((pre + mid)[pre.len() + j] == mid[j]);
    }
    assert(bytes.subrange(lo + pre.len(), lo + pre.len() + mid.len()) =~= mid);
}

/// Why the parser refused a byte string.
#[derive(Debug, Clone, Copy, PartialEq, Eq, Structural)]
pub enum ParseError {
    /// The input ended inside a value.
    Truncated,
    /// A construct outside the supported value model.
    Unsupported,
    /// An integer argument not written in its shortest form.
    NonMinimal,
    /// Bytes left over after the outermost value.
    Trailing,
}

proof fn lemma_be2(b1: u8, b2: u8)
    ensures
        (b1 as int * 0x100 + b2 as int) / 0x100 == b1 as int,
        (b1 as int * 0x100 + b2 as int) % 0x100 == b2 as int,
{
    lemma_fundamental_div_mod_converse(
        b1 as int * 0x100 + b2 as int,
        0x100,
        b1 as int,
        b2 as int,
    );
}

proof fn lemma_be4(b1: u8, b2: u8, b3: u8, b4: u8)
    ensures
        ({
            let n = b1 as int * 0x1000000 + b2 as int * 0x10000 + b3 as int * 0x100 + b4 as int;
            &&& n / 0x1000000 % 0x100 == b1 as int
            &&& n / 0x10000 % 0x100 == b2 as int
            &&& n / 0x100 % 0x100 == b3 as int
            &&& n % 0x100 == b4 as int
        }),
{
    let n = b1 as int * 0x1000000 + b2 as int * 0x10000 + b3 as int * 0x100 + b4 as int;
    lemma_fundamental_div_mod_converse(
        n,
        0x1000000,
        b1 as int,
        b2 as int * 0x10000 + b3 as int * 0x100 + b4 as int,
    );
    lemma_small_mod(b1 as nat, 0x100);
    lemma_fundamental_div_mod_converse(
        n,
        0x10000,
        b1 as int * 0x100 + b2 as int,
        b3 as int * 0x100 + b4 as int,
    );
    lemma_fundamental_div_mod_converse(
        b1 as int * 0x100 + b2 as int,
        0x100,
        b1 as int,
        b2 as int,
    );
    lemma_fundamental_div_mod_converse(
        n,
        0x100,
        b1 as int * 0x10000 + b2 as int * 0x100 + b3 as int,
        b4 as int,
    );
    lemma_fundamental_div_mod_converse(
        b1 as int * 0x10000 + b2 as int * 0x100 + b3 as int,
        0x100,
        b1 as int * 0x100 + b2 as int,
        b3 as int,
    );
}

proof fn lemma_be8(b1: u8, b2: u8, b3: u8, b4: u8, b5: u8, b6: u8, b7: u8, b8: u8)
    ensures
        ({
            let n = b1 as int * 0x100000000000000 + b2 as int * 0x1000000000000 + b3 as int
                * 0x10000000000 + b4 as int * 0x100000000 + b5 as int * 0x1000000 + b6 as int
                * 0x10000 + b7 as int * 0x100 + b8 as int;
            &&& n / 0x100000000000000 % 0x100 == b1 as int
            &&& n / 0x1000000000000 % 0x100 == b2 as int
            &&& n / 0x10000000000 % 0x100 == b3 as int
            &&& n / 0x100000000 % 0x100 == b4 as int
            &&& n / 0x1000000 % 0x100 == b5 as int
            &&& n / 0x10000 % 0x100 == b6 as int
            &&& n / 0x100 % 0x100 == b7 as int
            &&& n % 0x100 == b8 as int
        }),
{
    let n = b1 as int * 0x100000000000000 + b2 as int * 0x1000000000000 + b3 as int * 0x10000000000
        + b4 as int * 0x100000000 + b5 as int * 0x1000000 + b6 as int * 0x10000 + b7 as int * 0x100
        + b8 as int;
    let p1 = b1 as int;
    let p2 = p1 * 0x100 + b2 as int;
    let p3 = p2 * 0x100 + b3 as int;
    let p4 = p3 * 0x100 + b4 as int;
    let p5 = p4 * 0x100 + b5 as int;
    let p6 = p5 * 0x100 + b6 as int;
    let p7 = p6 * 0x100 + b7 as int;
    lemma_fundamental_div_mod_converse(
        n,
        0x100000000000000,
        p1,
        n - p1 * 0x100000000000000,
    );
    lemma_small_mod(b1 as nat, 0x100);
    lemma_fundamental_div_mod_converse(n, 0x1000000000000, p2, n - p2 * 0x1000000000000);
    lemma_fundamental_div_mod_converse(p2, 0x100, p1, b2 as int);
    lemma_fundamental_div_mod_converse(n, 0x10000000000, p3, n - p3 * 0x10000000000);
    lemma_fundamental_div_mod_converse(p3, 0x100, p2, b3 as int);
    lemma_fundamental_div_mod_converse(n, 0x100000000, p4, n - p4 * 0x100000000);
    lemma_fundamental_div_mod_converse(p4, 0x100, p3, b4 as int);
    lemma_fundamental_div_mod_converse(n, 0x1000000, p5, n - p5 * 0x1000000);
    lemma_fundamental_div_mod_converse(p5, 0x100, p4, b5 as int);
    lemma_fundamental_div_mod_converse(n, 0x10000, p6, n - p6 * 0x10000);
    lemma_fundamental_div_mod_converse(p6, 0x100, p5, b6 as int);
    lemma_fundamental_div_mod_converse(n, 0x100, p7, b8 as int);
    lemma_fundamental_div_mod_converse(p7, 0x100, p6, b7 as int);
}

/// Reads the integer argument of a definite-length header at `pos`, refusing
/// any form longer than the shortest one.
#[verifier::rlimit(60)]
fn read_arg(bytes: &[u8], pos: usize) -> (r: Result<(u64, usize), ParseError>)
    requires
        pos < bytes@.len(),
    ensures
        r matches Ok(p) ==> ({
            &&& pos < p.1 <= bytes@.len()
            &&& bytes@.subrange(pos as int, p.1 as int) == len_header(
                (bytes@[pos as int] / 32) as u64,
                p.0,
            )
        }),
        forall|nw: u64, hend: int|
            #![trigger bytes@.subrange(pos as int, hend), len_header((bytes@[pos as int] / 32) as u64, nw)]
            pos < hend <= bytes@.len() && bytes@.subrange(pos as int, hend) == len_header(
                (bytes@[pos as int] / 32) as u64,
                nw,
            ) ==> (r matches Ok(p) && p.0 == nw && p.1 as int == hend),
{
    let b = bytes[pos];
    let major: u8 = b / 32;
    let addl: u8 = b % 32;
    proof {
        lemma_fundamental_div_mod(b as int, 32);
    }
    // What any header that fills a prefix here must look like: its form
    // code is the low five bits of the first byte, its length follows.
    proof {
        assert forall|nw: u64, hend: int|
            #![trigger bytes@.subrange(pos as int, hend), len_header((bytes@[pos as int] / 32) as u64, nw)]
            pos < hend <= bytes@.len() && bytes@.subrange(pos as int, hend) == len_header(
                (bytes@[pos as int] / 32) as u64,
                nw,
            ) implies header_code(nw) == addl as u64 && hend == pos + header_len(nw) by {
            lemma_header_shape((b / 32) as u64, nw);
            assert(bytes@.subrange(pos as int, hend)[0] == bytes@[pos as int]);
            assert(bytes@[pos as int] == ((b / 32) as u64 * 32 + header_code(nw)) as u8);
        }
    }
    if addl < 24 {
        let n: u64 = addl as u64;
        proof {
            assert(bytes@.subrange(pos as int, pos + 1 as int) =~= seq![bytes@[pos as int]]);
            assert(bytes@[pos as int] == (major as u64 * 32 + n) as u8);
        }
        Ok((n, pos + 1))
    } else if addl == 24 {
        if bytes.len() - pos < 2 {
            return Err(ParseError::Truncated);
        }
        let n: u64 = bytes[pos + 1] as u64;
        proof {
            assert forall|nw: u64, hend: int|
                #![trigger bytes@.subrange(pos as int, hend), len_header((bytes@[pos as int] / 32) as u64, nw)]
                pos < hend <= bytes@.len() && bytes@.subrange(pos as int, hend) == len_header(
                    (bytes@[pos as int] / 32) as u64,
                    nw,
                ) implies nw == n && hend == pos + 2 by {
                assert(header_code(nw) == 24);
                assert(24 <= nw < 0x100);
                assert(bytes@.subrange(pos as int, hend)[1] == bytes@[pos + 1 as int]);
                assert(bytes@[pos + 1 as int] == nw as u8);
            }
        }
        if n < 24 {
            return Err(ParseError::NonMinimal);
        }
        proof {
            assert(bytes@.subrange(pos as int, pos + 2 as int) =~= seq![
                bytes@[pos as int],
                bytes@[pos + 1 as int],
            ]);
            assert(bytes@[pos as int] == (major as u64 * 32 + 24) as u8);
        }
        Ok((n, pos + 2))
    } else if addl == 25 {
        if bytes.len() - pos < 3 {
            return Err(ParseError::Truncated);
        }
        let b1 = bytes[pos + 1];
        let b2 = bytes[pos + 2];
        let n: u64 = (b1 as u64) * 0x100 + (b2 as u64);
        proof {
            assert forall|nw: u64, hend: int|
                #![trigger bytes@.subrange(pos as int, hend), len_header((bytes@[pos as int] / 32) as u64, nw)]
                pos < hend <= bytes@.len() && bytes@.subrange(pos as int, hend) == len_header(
                    (bytes@[pos as int] / 32) as u64,
                    nw,
                ) implies nw == n && hend == pos + 3 by {
                assert(header_code(nw) == 25);
                assert(0x100 <= nw < 0x10000);
                lemma_recompose2(nw);
                assert(bytes@.subrange(pos as int, hend)[1] == bytes@[pos + 1 as int]);
                assert(bytes@.subrange(pos as int, hend)[2] == bytes@[pos + 2 as int]);
                assert(bytes@[pos + 1 as int] == (nw / 0x100) as u8);
                assert(bytes@[pos + 2 as int] == (nw % 0x100) as u8);
            }
        }
        if n < 0x100 {
            return Err(ParseError::NonMinimal);
        }
        proof {
            lemma_be2(b1, b2);
            assert(bytes@.subrange(pos as int, pos + 3 as int) =~= seq![
                bytes@[pos as int],
                bytes@[pos + 1 as int],
                bytes@[pos + 2 as int],
            ]);
            assert(bytes@[pos as int] == (major as u64 * 32 + 25) as u8);
        }
        Ok((n, pos + 3))
    } else if addl == 26 {
        if bytes.len() - pos < 5 {
            return Err(ParseError::Truncated);
        }
        let b1 = bytes[pos + 1];
        let b2 = bytes[pos + 2];
        let b3 = bytes[pos + 3];
        let b4 = bytes[pos + 4];
        let n: u64 = (b1 as u64) * 0x1000000 + (b2 as u64) * 0x10000 + (b3 as u64) * 0x100 + (
        b4 as u64);
        proof {
            assert forall|nw: u64, hend: int|
                #![trigger bytes@.subrange(pos as int, hend), len_header((bytes@[pos as int] / 32) as u64, nw)]
                pos < hend <= bytes@.len() && bytes@.subrange(pos as int, hend) == len_header(
                    (bytes@[pos as int] / 32) as u64,
                    nw,
                ) implies nw == n && hend == pos + 5 by {
                assert(header_code(nw) == 26);
                assert(0x10000 <= nw < 0x100000000);
                lemma_recompose4(nw);
                assert(bytes@.subrange(pos as int, hend)[1] == bytes@[pos + 1 as int]);
                assert(bytes@.subrange(pos as int, hend)[2] == bytes@[pos + 2 as int]);
                assert(bytes@.subrange(pos as int, hend)[3] == bytes@[pos + 3 as int]);
                assert(bytes@.subrange(pos as int, hend)[4] == bytes@[pos + 4 as int]);
                assert(bytes@[pos + 1 as int] == ((nw / 0x1000000) % 0x100) as u8);
                assert(bytes@[pos + 2 as int] == ((nw / 0x10000) % 0x100) as u8);
                assert(bytes@[pos + 3 as int] == ((nw / 0x100) % 0x100) as u8);
                assert(bytes@[pos + 4 as int] == (nw % 0x100) as u8);
            }
        }
        if n < 0x10000 {
            return Err(ParseError::NonMinimal);
        }
        proof {
            lemma_be4(b1, b2, b3, b4);
            assert(bytes@.subrange(pos as int, pos + 5 as int) =~= seq![
                bytes@[pos as int],
                bytes@[pos + 1 as int],
                bytes@[pos + 2 as int],
                bytes@[pos + 3 as int],
                bytes@[pos + 4 as int],
            ]);
            assert(bytes@[pos as int] == (major as u64 * 32 + 26) as u8);
        }
        Ok((n, pos + 5))
    } else if addl == 27 {
        if bytes.len() - pos < 9 {
            return Err(ParseError::Truncated);
        }
        let b1 = bytes[pos + 1];
        let b2 = bytes[pos + 2];
        let b3 = bytes[pos + 3];
        let b4 = bytes[pos + 4];
        let b5 = bytes[pos + 5];
        let b6 = bytes[pos + 6];
        let b7 = bytes[pos + 7];
        let b8 = bytes[pos + 8];
        let n: u64 = (b1 as u64) * 0x100000000000000 + (b2 as u64) * 0x1000000000000 + (b3 as u64)
            * 0x10000000000 + (b4 as u64) * 0x100000000 + (b5 as u64) * 0x1000000 + (b6 as u64)
            * 0x10000 + (b7 as u64) * 0x100 + (b8 as u64);
        proof {
            assert forall|nw: u64, hend: int|
                #![trigger bytes@.subrange(pos as int, hend), len_header((bytes@[pos as int] / 32) as u64, nw)]
                pos < hend <= bytes@.len() && bytes@.subrange(pos as int, hend) == len_header(
                    (bytes@[pos as int] / 32) as u64,
                    nw,
                ) implies nw == n && hend == pos + 9 by {
                assert(header_code(nw) == 27);
                assert(nw >= 0x100000000);
                lemma_recompose8(nw);
                assert(bytes@.subrange(pos as int, hend)[1] == bytes@[pos + 1 as int]);
                assert(bytes@.subrange(pos as int, hend)[2] == bytes@[pos + 2 as int]);
                assert(bytes@.subrange(pos as int, hend)[3] == bytes@[pos + 3 as int]);
                assert(bytes@.subrange(pos as int, hend)[4] == bytes@[pos + 4 as int]);
                assert(bytes@.subrange(pos as int, hend)[5] == bytes@[pos + 5 as int]);
                assert(bytes@.subrange(pos as int, hend)[6] == bytes@[pos + 6 as int]);
                assert(bytes@.subrange(pos as int, hend)[7] == bytes@[pos + 7 as int]);
                assert(bytes@.subrange(pos as int, hend)[8] == bytes@[pos + 8 as int]);
                assert(bytes@[pos + 1 as int] == ((nw / 0x100000000000000) % 0x100) as u8);
                assert(bytes@[pos + 2 as int] == ((nw / 0x1000000000000) % 0x100) as u8);
                assert(bytes@[pos + 3 as int] == ((nw / 0x10000000000) % 0x100) as u8);
                assert(bytes@[pos + 4 as int] == ((nw / 0x100000000) % 0x100) as u8);
                assert(bytes@[pos + 5 as int] == ((nw / 0x1000000) % 0x100) as u8);
                assert(bytes@[pos + 6 as int] == ((nw / 0x10000) % 0x100) as u8);
                assert(bytes@[pos + 7 as int] == ((nw / 0x100) % 0x100) as u8);
                assert(bytes@[pos + 8 as int] == (nw % 0x100) as u8);
                assert(nw as int == ((nw / 0x100000000000000) % 0x100) * 0x100000000000000 + ((nw
                    / 0x1000000000000) % 0x100) * 0x1000000000000 + ((nw / 0x10000000000) % 0x100)
                    * 0x10000000000 + ((nw / 0x100000000) % 0x100) * 0x100000000 + ((nw / 0x1000000)
                    % 0x100) * 0x1000000 + ((nw / 0x10000) % 0x100) * 0x10000 + ((nw / 0x100)
                    % 0x100) * 0x100 + nw % 0x100);
            }
        }
        if n < 0x100000000 {
            return Err(ParseError::NonMinimal);
        }
        proof {
            lemma_be8(b1, b2, b3, b4, b5, b6, b7, b8);
            assert(bytes@.subrange(pos as int, pos + 9 as int) =~= seq![
                bytes@[pos as int],
                bytes@[pos + 1 as int],
                bytes@[pos + 2 as int],
                bytes@[pos + 3 as int],
                bytes@[pos + 4 as int],
                bytes@[pos + 5 as int],
                bytes@[pos + 6 as int],
                bytes@[pos + 7 as int],
                bytes@[pos + 8 as int],
            ]);
            assert(bytes@[pos as int] == (major as u64 * 32 + 27) as u8);
        }
        Ok((n, pos + 9))
    } else {
        Err(ParseError::Unsupported)
    }
}

/// The argument the length header of a definite wire form carries.
pub open spec fn header_arg(m: ValueModel) -> u64 {
    match m {
        ValueModel::U64(n) => n,
        ValueModel::Bytes(b) => b.len() as u64,
        ValueModel::Text(t) => t.len() as u64,
        ValueModel::Array(s) => s.len() as u64,
        ValueModel::IArray(_) => 0,
        ValueModel::Object(p) => p.len() as u64,
        ValueModel::Tag(t, _) => t,
    }
}

/// The major type a wire form's first byte carries.
pub open spec fn header_major(m: ValueModel) -> u64 {
    match m {
        ValueModel::U64(_) => 0,
        ValueModel::Bytes(_) => 2,
        ValueModel::Text(_) => 3,
        ValueModel::Array(_) => 4,
        ValueModel::IArray(_) => 4,
        ValueModel::Object(_) => 5,
        ValueModel::Tag(_, _) => 6,
    }
}

/// What follows the length header in a definite wire form.
pub open spec fn encoded_tail(m: ValueModel) -> Seq<u8> {
    match m {
        ValueModel::U64(_) => Seq::empty(),
        ValueModel::Bytes(b) => b,
        ValueModel::Text(t) => t,
        ValueModel::Array(s) => encoded_seq(s),
        ValueModel::IArray(_) => Seq::empty(),
        ValueModel::Object(p) => encoded_pairs(p),
        ValueModel::Tag(_, inner) => encoded(*inner),
    }
}

/// A definite wire form at a position lays its length header down first,
/// then its tail, filling the region exactly.
proof fn lemma_header_witness(bytes: Seq<u8>, lo: int, hi: int, m: ValueModel)
    requires
        wire_at(bytes, lo, hi, m),
        !(m matches ValueModel::IArray(_)),
    ensures
        (bytes[lo] / 32) as u64 == header_major(m),
        lo + header_len(header_arg(m)) + encoded_tail(m).len() == hi,
        bytes.subrange(lo, lo + header_len(header_arg(m))) == len_header(
            (bytes[lo] / 32) as u64,
            header_arg(m),
        ),
        bytes.subrange(lo + header_len(header_arg(m)), hi) == encoded_tail(m),
{
    let hm = header_major(m);
    let arg = header_arg(m);
    lemma_header_shape(hm, arg);
    assert(encoded(m) =~= len_header(hm, arg) + encoded_tail(m));
    assert(bytes.subrange(lo, hi)[0] == bytes[lo]);
    assert(bytes[lo] == len_header(hm, arg)[0]);
    assert((bytes[lo] as u64) / 32 == hm);
    assert((bytes[lo] / 32) as u64 == (bytes[lo] as u64) / 32);
    assert(bytes.subrange(lo, hi) =~= Seq::<u8>::empty() + len_header(hm, arg) + encoded_tail(m));
    lemma_extract(bytes, lo, hi, Seq::empty(), len_header(hm, arg), encoded_tail(m));
    lemma_extract(bytes, lo, hi, len_header(hm, arg), encoded_tail(m), Seq::empty());
    assert(hi - lo == len_header(hm, arg).len() + encoded_tail(m).len());
}

/// Parses one value starting at `pos`.  On success the consumed bytes are
/// exactly the wire form of the returned tree; and whenever the wire form
/// of some well-formed tree lies at `pos`, the parse succeeds and returns
/// exactly that tree and its end.
#[verifier::loop_isolation(false)]
#[verifier::rlimit(100)]
pub fn parse_at(bytes: &[u8], pos: usize) -> (r: Result<(Value, usize), ParseError>)
    requires
        pos <= bytes@.len(),
    ensures
        r matches Ok(p) ==> ({
            &&& pos < p.1 <= bytes@.len()
            &&& bytes@.subrange(pos as int, p.1 as int) == encoded(p.0@)
        }),
        forall|m: ValueModel, hi: int|
            #[trigger] wire_at(bytes@, pos as int, hi, m) ==> (r matches Ok(p) && p.0@ == m
                && p.1 as int == hi),
    decreases bytes@.len() - pos,
{
    if pos >= bytes.len() {
        proof {
            assert forall|m: ValueModel, hi: int| !wire_at(bytes@, pos as int, hi, m) by {
                if wire_at(bytes@, pos as int, hi, m) {
                    lemma_encoded_head(m);
                    assert(hi - pos == encoded(m).len());
                }
            }
        }
        return Err(ParseError::Truncated);
    }
    let b = bytes[pos];
    proof {
        // whichever tree's wire form lies here opens with this byte
        assert forall|m: ValueModel, hi: int|
            #[trigger] wire_at(bytes@, pos as int, hi, m) implies encoded(m)[0] == b by {
            lemma_encoded_head(m);
            assert(bytes@.subrange(pos as int, hi)[0] == bytes@[pos as int]);
        }
    }
    if b == 0x9f {
        // indefinite-length array, ended by a break byte
        proof {
            assert forall|m: ValueModel, hi: int|
                #[trigger] wire_at(bytes@, pos as int, hi, m) implies m matches ValueModel::IArray(
                _,
            ) by {
                lemma_encoded_head(m);
            }
        }
        let mut elems: Vec<Value> = Vec::new();
        let mut cur: usize = pos + 1;
        proof {
            assert(value_models(Seq::<Value>::empty()) =~= Seq::<ValueModel>::empty());
            assert forall|s: Seq<ValueModel>, hi: int|
                #[trigger] wire_at(bytes@, pos as int, hi, ValueModel::IArray(s)) implies (
                Seq::<ValueModel>::empty() == s.take(0) && encoded_seq(s.take(0)).len() == 0) by {
                assert(s.take(0) =~= Seq::<ValueModel>::empty());
            }
        }
        while cur < bytes.len() && bytes[cur] != 0xff
            invariant
                pos < bytes@.len(),
                pos + 1 <= cur <= bytes@.len(),
                bytes@.subrange(pos + 1 as int, cur as int) == encoded_seq(value_models(elems@)),
                forall|s: Seq<ValueModel>, hi: int|
                    #[trigger] wire_at(bytes@, pos as int, hi, ValueModel::IArray(s)) ==> ({
                        &&& elems@.len() <= s.len()
                        &&& value_models(elems@) == s.take(elems@.len() as int)
                        &&& cur as int == pos + 1 + encoded_seq(
                            s.take(elems@.len() as int),
                        ).len()
                    }),
            decreases bytes@.len() - cur,
        {
            let ghost k = elems@.len() as int;
            proof {
                assert forall|s: Seq<ValueModel>, hi: int|
                    #[trigger] wire_at(bytes@, pos as int, hi, ValueModel::IArray(s)) implies (k
                    < s.len() && wire_at(bytes@, cur as int, cur + encoded(s[k]).len(), s[k])) by {
                    let whole = seq![0x9fu8] + encoded_seq(s) + seq![0xffu8];
                    assert(bytes@.subrange(pos as int, hi) == whole);
                    if k == s.len() {
                        // the break byte would sit exactly at the cursor
                        assert(s.take(k) =~= s);
                        assert(bytes@.subrange(pos as int, hi)[cur - pos] == bytes@[cur as int]);
                        assert(whole[cur - pos] == 0xff);
                        assert(false);
                    }
                    lemma_encoded_seq_split(s, k);
                    lemma_wf_models_index(s);
                    let pre = seq![0x9fu8] + encoded_seq(s.take(k));
                    let mid = encoded(s[k]);
                    let post = encoded_seq(s.skip(k + 1)) + seq![0xffu8];
                    assert(bytes@.subrange(pos as int, hi) =~= pre + mid + post);
                    lemma_extract(bytes@, pos as int, hi, pre, mid, post);
                    assert(cur as int == pos + pre.len());
                    assert(cur + mid.len() <= hi);
                }
            }
            match parse_at(bytes, cur) {
                Ok((v, end)) => {
                    proof {
                        assert forall|s: Seq<ValueModel>, hi: int|
                            #[trigger] wire_at(bytes@, pos as int, hi, ValueModel::IArray(s))
                            implies ({
                            &&& elems@.len() + 1 <= s.len()
                            &&& value_models(elems@.push(v)) == s.take(k + 1)
                            &&& end as int == pos + 1 + encoded_seq(s.take(k + 1)).len()
                        }) by {
                            // the element parse returned exactly the witness element
                            assert(v@ == s[k] && end as int == cur + encoded(s[k]).len());
                            assert(elems@.push(v).drop_last() =~= elems@);
                            assert(s.take(k + 1).drop_last() =~= s.take(k));
                            assert(s.take(k + 1).last() == s[k]);
                            assert(value_models(elems@.push(v)) == s.take(k + 1));
                            lemma_encoded_seq_push(s.take(k), s[k]);
                            assert(s.take(k).push(s[k]) =~= s.take(k + 1));
                        }
                        assert(bytes@.subrange(pos + 1 as int, end as int) =~= bytes@.subrange(
                            pos + 1 as int,
                            cur as int,
                        ) + bytes@.subrange(cur as int, end as int));
                        assert(elems@.push(v).drop_last() =~= elems@);
                        lemma_encoded_seq_push(value_models(elems@), value_model(v));
                    }
                    elems.push(v);
                    cur = end;
                },
                Err(e) => {
                    proof {
                        assert forall|m: ValueModel, hi: int| !wire_at(
                            bytes@,
                            pos as int,
                            hi,
                            m,
                        ) by {
                            if wire_at(bytes@, pos as int, hi, m) {
                                match m {
                                    ValueModel::IArray(s) => {
                                        assert(wire_at(
                                            bytes@,
                                            pos as int,
                                            hi,
                                            ValueModel::IArray(s),
                                        ));
                                        assert(wire_at(
                                            bytes@,
                                            cur as int,
                                            cur + encoded(s[k]).len(),
                                            s[k],
                                        ));
                                        assert(false);
                                    },
                                    _ => {
                                        assert(false);
                                    },
                                }
                            }
                        }
                    }
                    return Err(e);
                },
            }
        }
        if cur >= bytes.len() {
            proof {
                assert forall|m: ValueModel, hi: int| !wire_at(bytes@, pos as int, hi, m) by {
                    if wire_at(bytes@, pos as int, hi, m) {
                        match m {
                            ValueModel::IArray(s) => {
                                let k = elems@.len() as int;
                                assert(wire_at(bytes@, pos as int, hi, ValueModel::IArray(s)));
                                let whole = seq![0x9fu8] + encoded_seq(s) + seq![0xffu8];
                                assert(bytes@.subrange(pos as int, hi) == whole);
                                if k < s.len() {
                                    lemma_encoded_seq_split(s, k);
                                    lemma_encoded_head(s[k]);
                                    lemma_encoded_seq_len(s.skip(k + 1));
                                    assert(hi - pos == whole.len());
                                    assert(whole.len() == 2 + encoded_seq(s).len());
                                    assert(encoded_seq(s).len() == encoded_seq(s.take(k)).len()
                                        + encoded(s[k]).len() + encoded_seq(s.skip(k + 1)).len());
                                    assert((cur as int) < hi);
                                } else {
                                    assert(s.take(k) =~= s);
                                    assert(cur as int == hi - 1);
                                }
                                assert((cur as int) < bytes@.len());
                                assert(false);
                            },
                            _ => {
                                assert(false);
                            },
                        }
                    }
                }
            }
            return Err(ParseError::Truncated);
        }
        proof {
            assert(bytes@[cur as int] == 0xff);
            assert(bytes@[pos as int] == 0x9f);
            assert(bytes@.subrange(pos as int, cur + 1 as int) =~= seq![0x9fu8] + encoded_seq(
                value_models(elems@),
            ) + seq![0xffu8]);
            assert forall|m: ValueModel, hi: int|
                #[trigger] wire_at(bytes@, pos as int, hi, m) implies (m == ValueModel::IArray(
                value_models(elems@),
            ) && hi == cur + 1) by {
                match m {
                    ValueModel::IArray(s) => {
                        assert(wire_at(bytes@, pos as int, hi, ValueModel::IArray(s)));
                        let k = elems@.len() as int;
                        if k < s.len() {
                            // the next element would have to open with the break byte
                            lemma_encoded_seq_split(s, k);
                            lemma_wf_models_index(s);
                            let pre = seq![0x9fu8] + encoded_seq(s.take(k));
                            let mid = encoded(s[k]);
                            let post = encoded_seq(s.skip(k + 1)) + seq![0xffu8];
                            assert(bytes@.subrange(pos as int, hi) =~= pre + mid + post);
                            lemma_extract(bytes@, pos as int, hi, pre, mid, post);
                            lemma_encoded_head(s[k]);
                            assert(bytes@.subrange(cur as int, cur + mid.len())[0] == bytes@[
                            cur as int]);
                            assert(false);
                        }
                        assert(s.take(k) =~= s);
                        assert(hi - pos == 2 + encoded_seq(s).len());
                    },
                    _ => {
                        assert(false);
                    },
                }
            }
        }
        return Ok((Value::IArray(elems), cur + 1));
    }
    let major: u8 = b / 32;
    let (n, hpos) = match read_arg(bytes, pos) {
        Ok(p) => p,
        Err(e) => {
            proof {
                assert forall|m: ValueModel, hi: int| !wire_at(bytes@, pos as int, hi, m) by {
                    if wire_at(bytes@, pos as int, hi, m) {
                        lemma_encoded_head(m);
                        lemma_header_witness(bytes@, pos as int, hi, m);
                    }
                }
            }
            return Err(e);
        },
    };
    proof {
        lemma_fundamental_div_mod(b as int, 32);
        // the header read agrees with any witness's header
        assert forall|m: ValueModel, hi: int|
            #[trigger] wire_at(bytes@, pos as int, hi, m) implies ({
            &&& !(m matches ValueModel::IArray(_))
            &&& header_arg(m) == n
            &&& pos + header_len(n) == hpos as int
            &&& hpos + encoded_tail(m).len() == hi
            &&& bytes@.subrange(hpos as int, hi) == encoded_tail(m)
            &&& header_major(m) == (b / 32) as u64
        }) by {
            lemma_encoded_head(m);
            lemma_header_witness(bytes@, pos as int, hi, m);
        }
    }
    if major == 0 {
        proof {
            assert forall|m: ValueModel, hi: int|
                #[trigger] wire_at(bytes@, pos as int, hi, m) implies (m == ValueModel::U64(n)
                && hi == hpos as int) by {
                match m {
                    ValueModel::U64(_) => {
                        assert(encoded_tail(m).len() == 0);
                    },
                    _ => {
                        assert(header_major(m) != 0);
                        assert(false);
                    },
                }
            }
        }
        let v = Value::U64(n);
        Ok((v, hpos))
    } else if major == 2 || major == 3 {
        if n > (bytes.len() - hpos) as u64 {
            proof {
                assert forall|m: ValueModel, hi: int| !wire_at(bytes@, pos as int, hi, m) by {
                    if wire_at(bytes@, pos as int, hi, m) {
                        assert(encoded_tail(m).len() == n);
                    }
                }
            }
            return Err(ParseError::Truncated);
        }
        let count = n as usize;
        let payload = slice_to_vec(slice_subrange(bytes, hpos, hpos + count));
        let end = hpos + count;
        proof {
            assert(payload@.len() == n as int);
            assert(bytes@.subrange(pos as int, end as int) =~= bytes@.subrange(
                pos as int,
                hpos as int,
            ) + bytes@.subrange(hpos as int, end as int));
            assert forall|m: ValueModel, hi: int|
                #[trigger] wire_at(bytes@, pos as int, hi, m) implies (encoded_tail(m) == payload@
                && hi == end as int) by {
                assert(encoded_tail(m).len() == n);
            }
        }
        if major == 2 {
            Ok((Value::Bytes(payload), end))
        } else {
            Ok((Value::Text(payload), end))
        }
    } else if major == 4 {
        proof {
            assert forall|m: ValueModel, hi: int|
                #[trigger] wire_at(bytes@, pos as int, hi, m) implies (m matches ValueModel::Array(
                s,
            ) && s.len() == n as int) by {
                match m {
                    ValueModel::Array(s) => {
                        assert(s.len() as u64 == n);
                    },
                    _ => {
                        assert(header_major(m) != 4);
                        assert(false);
                    },
                }
            }
        }
        if n > (bytes.len() - hpos) as u64 {
            // each element takes at least one byte
            proof {
                assert forall|m: ValueModel, hi: int| !wire_at(bytes@, pos as int, hi, m) by {
                    if wire_at(bytes@, pos as int, hi, m) {
                        match m {
                            ValueModel::Array(s) => {
                                lemma_encoded_seq_len(s);
                            },
                            _ => {},
                        }
                    }
                }
            }
            return Err(ParseError::Truncated);
        }
        let count = n as usize;
        let mut elems: Vec<Value> = Vec::new();
        let mut cur: usize = hpos;
        let mut i: usize = 0;
        proof {
            assert(value_models(Seq::<Value>::empty()) =~= Seq::<ValueModel>::empty());
            assert forall|s: Seq<ValueModel>, hi: int|
                #[trigger] wire_at(bytes@, pos as int, hi, ValueModel::Array(s)) implies (
                Seq::<ValueModel>::empty() == s.take(0) && encoded_seq(s.take(0)).len() == 0) by {
                assert(s.take(0) =~= Seq::<ValueModel>::empty());
            }
        }
        while i < count
            invariant
                i <= count,
                elems@.len() == i,
                pos < hpos <= cur <= bytes@.len(),
                bytes@.subrange(hpos as int, cur as int) == encoded_seq(value_models(elems@)),
                forall|s: Seq<ValueModel>, hi: int|
                    #[trigger] wire_at(bytes@, pos as int, hi, ValueModel::Array(s)) ==> ({
                        &&& value_models(elems@) == s.take(i as int)
                        &&& cur as int == hpos + encoded_seq(s.take(i as int)).len()
                    }),
            decreases count - i,
        {
            let ghost k = i as int;
            proof {
                assert forall|s: Seq<ValueModel>, hi: int|
                    #[trigger] wire_at(bytes@, pos as int, hi, ValueModel::Array(s)) implies (k
                    < s.len() && wire_at(bytes@, cur as int, cur + encoded(s[k]).len(), s[k])) by {
                    assert(s.len() == n as int);
                    lemma_encoded_seq_split(s, k);
                    lemma_wf_models_index(s);
                    let pre = encoded_seq(s.take(k));
                    let mid = encoded(s[k]);
                    let post = encoded_seq(s.skip(k + 1));
                    assert(bytes@.subrange(hpos as int, hi) =~= pre + mid + post);
                    lemma_extract(bytes@, hpos as int, hi, pre, mid, post);
                    assert(cur as int == hpos + pre.len());
                    assert(cur + mid.len() <= hi);
                }
            }
            match parse_at(bytes, cur) {
                Ok((v, end)) => {
                    proof {
                        assert forall|s: Seq<ValueModel>, hi: int|
                            #[trigger] wire_at(bytes@, pos as int, hi, ValueModel::Array(s))
                            implies ({
                            &&& value_models(elems@.push(v)) == s.take(k + 1)
                            &&& end as int == hpos + encoded_seq(s.take(k + 1)).len()
                        }) by {
                            assert(v@ == s[k] && end as int == cur + encoded(s[k]).len());
                            assert(elems@.push(v).drop_last() =~= elems@);
                            assert(s.take(k + 1).drop_last() =~= s.take(k));
                            assert(s.take(k + 1).last() == s[k]);
                            assert(value_models(elems@.push(v)) == s.take(k + 1));
                            lemma_encoded_seq_push(s.take(k), s[k]);
                            assert(s.take(k).push(s[k]) =~= s.take(k + 1));
                        }
                        assert(bytes@.subrange(hpos as int, end as int) =~= bytes@.subrange(
                            hpos as int,
                            cur as int,
                        ) + bytes@.subrange(cur as int, end as int));
                        assert(elems@.push(v).drop_last() =~= elems@);
                        lemma_encoded_seq_push(value_models(elems@), value_model(v));
                    }
                    elems.push(v);
                    cur = end;
                },
                Err(e) => {
                    proof {
                        assert forall|m: ValueModel, hi: int| !wire_at(
                            bytes@,
                            pos as int,
                            hi,
                            m,
                        ) by {
                            if wire_at(bytes@, pos as int, hi, m) {
                                match m {
                                    ValueModel::Array(s) => {
                                        assert(wire_at(
                                            bytes@,
                                            pos as int,
                                            hi,
                                            ValueModel::Array(s),
                                        ));
                                        assert(wire_at(
                                            bytes@,
                                            cur as int,
                                            cur + encoded(s[k]).len(),
                                            s[k],
                                        ));
                                        assert(false);
                                    },
                                    _ => {
                                        assert(false);
                                    },
                                }
                            }
                        }
                    }
                    return Err(e);
                },
            }
            i = i + 1;
        }
        proof {
            lemma_value_models_index(elems@);
            assert(bytes@.subrange(pos as int, cur as int) =~= bytes@.subrange(
                pos as int,
                hpos as int,
            ) + bytes@.subrange(hpos as int, cur as int));
            assert forall|m: ValueModel, hi: int|
                #[trigger] wire_at(bytes@, pos as int, hi, m) implies (m == ValueModel::Array(
                value_models(elems@),
            ) && hi == cur as int) by {
                match m {
                    ValueModel::Array(s) => {
                        assert(wire_at(bytes@, pos as int, hi, ValueModel::Array(s)));
                        assert(s.take(i as int) =~= s);
                    },
                    _ => {
                        assert(false);
                    },
                }
            }
        }
        Ok((Value::Array(elems), cur))
    } else if major == 5 {
        proof {
            assert forall|m: ValueModel, hi: int|
                #[trigger] wire_at(bytes@, pos as int, hi, m) implies (m
                    matches ValueModel::Object(p) && p.len() == n as int) by {
                match m {
                    ValueModel::Object(p) => {
                        assert(p.len() as u64 == n);
                    },
                    _ => {
                        assert(header_major(m) != 5);
                        assert(false);
                    },
                }
            }
        }
        if n > (bytes.len() - hpos) as u64 {
            // each entry takes at least one byte
            proof {
                assert forall|m: ValueModel, hi: int| !wire_at(bytes@, pos as int, hi, m) by {
                    if wire_at(bytes@, pos as int, hi, m) {
                        match m {
                            ValueModel::Object(p) => {
                                lemma_encoded_pairs_len(p);
                            },
                            _ => {},
                        }
                    }
                }
            }
            return Err(ParseError::Truncated);
        }
        let count = n as usize;
        let mut pairs: Vec<(Value, Value)> = Vec::new();
        let mut cur: usize = hpos;
        let mut i: usize = 0;
        proof {
            assert(pair_models(Seq::<(Value, Value)>::empty()) =~= Seq::<
                (ValueModel, ValueModel),
            >::empty());
            assert forall|p: Seq<(ValueModel, ValueModel)>, hi: int|
                #[trigger] wire_at(bytes@, pos as int, hi, ValueModel::Object(p)) implies (Seq::<
                (ValueModel, ValueModel),
            >::empty() == p.take(0) && encoded_pairs(p.take(0)).len() == 0) by {
                assert(p.take(0) =~= Seq::<(ValueModel, ValueModel)>::empty());
            }
        }
        while i < count
            invariant
                i <= count,
                pairs@.len() == i,
                pos < hpos <= cur <= bytes@.len(),
                bytes@.subrange(hpos as int, cur as int) == encoded_pairs(pair_models(pairs@)),
                forall|p: Seq<(ValueModel, ValueModel)>, hi: int|
                    #[trigger] wire_at(bytes@, pos as int, hi, ValueModel::Object(p)) ==> ({
                        &&& pair_models(pairs@) == p.take(i as int)
                        &&& cur as int == hpos + encoded_pairs(p.take(i as int)).len()
                    }),
            decreases count - i,
        {
            let ghost k = i as int;
            proof {
                assert forall|p: Seq<(ValueModel, ValueModel)>, hi: int|
                    #[trigger] wire_at(bytes@, pos as int, hi, ValueModel::Object(p)) implies (k
                    < p.len() && wire_at(bytes@, cur as int, cur + encoded(p[k].0).len(), p[k].0)
                    && wire_at(
                        bytes@,
                        cur + encoded(p[k].0).len(),
                        cur + encoded(p[k].0).len() + encoded(p[k].1).len(),
                        p[k].1,
                    )) by {
                    assert(p.len() == n as int);
                    lemma_encoded_pairs_split(p, k);
                    lemma_wf_pairs_index(p);
                    let pre = encoded_pairs(p.take(k));
                    let midk = encoded(p[k].0);
                    let midv = encoded(p[k].1);
                    let post = encoded_pairs(p.skip(k + 1));
                    assert(bytes@.subrange(hpos as int, hi) =~= pre + midk + (midv + post));
                    lemma_extract(bytes@, hpos as int, hi, pre, midk, midv + post);
                    assert(bytes@.subrange(hpos as int, hi) =~= (pre + midk) + midv + post);
                    lemma_extract(bytes@, hpos as int, hi, pre + midk, midv, post);
                    assert(cur as int == hpos + pre.len());
                    assert(cur + midk.len() + midv.len() <= hi);
                }
            }
            let kv = match parse_at(bytes, cur) {
                Ok(p) => p,
                Err(e) => {
                    proof {
                        assert forall|m: ValueModel, hi: int| !wire_at(
                            bytes@,
                            pos as int,
                            hi,
                            m,
                        ) by {
                            if wire_at(bytes@, pos as int, hi, m) {
                                match m {
                                    ValueModel::Object(p) => {
                                        assert(wire_at(
                                            bytes@,
                                            pos as int,
                                            hi,
                                            ValueModel::Object(p),
                                        ));
                                        assert(wire_at(
                                            bytes@,
                                            cur as int,
                                            cur + encoded(p[k].0).len(),
                                            p[k].0,
                                        ));
                                        assert(false);
                                    },
                                    _ => {
                                        assert(false);
                                    },
                                }
                            }
                        }
                    }
                    return Err(e);
                },
            };
            let wv = match parse_at(bytes, kv.1) {
                Ok(p) => p,
                Err(e) => {
                    proof {
                        assert forall|m: ValueModel, hi: int| !wire_at(
                            bytes@,
                            pos as int,
                            hi,
                            m,
                        ) by {
                            if wire_at(bytes@, pos as int, hi, m) {
                                match m {
                                    ValueModel::Object(p) => {
                                        assert(wire_at(
                                            bytes@,
                                            pos as int,
                                            hi,
                                            ValueModel::Object(p),
                                        ));
                                        assert(wire_at(
                                            bytes@,
                                            cur as int,
                                            cur + encoded(p[k].0).len(),
                                            p[k].0,
                                        ));
                                        assert(kv.1 as int == cur + encoded(p[k].0).len());
                                        assert(wire_at(
                                            bytes@,
                                            kv.1 as int,
                                            kv.1 + encoded(p[k].1).len(),
                                            p[k].1,
                                        ));
                                        assert(false);
                                    },
                                    _ => {
                                        assert(false);
                                    },
                                }
                            }
                        }
                    }
                    return Err(e);
                },
            };
            proof {
                assert forall|p: Seq<(ValueModel, ValueModel)>, hi: int|
                    #[trigger] wire_at(bytes@, pos as int, hi, ValueModel::Object(p)) implies ({
                    &&& pair_models(pairs@.push((kv.0, wv.0))) == p.take(k + 1)
                    &&& wv.1 as int == hpos + encoded_pairs(p.take(k + 1)).len()
                }) by {
                    assert(kv.0@ == p[k].0 && kv.1 as int == cur + encoded(p[k].0).len());
                    assert(wv.0@ == p[k].1 && wv.1 as int == kv.1 + encoded(p[k].1).len());
                    assert(pairs@.push((kv.0, wv.0)).drop_last() =~= pairs@);
                    assert(p.take(k + 1).drop_last() =~= p.take(k));
                    assert(p.take(k + 1).last() == p[k]);
                    assert((p[k].0, p[k].1) == p[k]);
                    assert(pair_models(pairs@.push((kv.0, wv.0))) == p.take(k + 1));
                    lemma_encoded_pairs_push(p.take(k), p[k]);
                    assert(p.take(k).push(p[k]) =~= p.take(k + 1));
                }
                assert(bytes@.subrange(hpos as int, wv.1 as int) =~= bytes@.subrange(
                    hpos as int,
                    cur as int,
                ) + bytes@.subrange(cur as int, kv.1 as int) + bytes@.subrange(
                    kv.1 as int,
                    wv.1 as int,
                ));
                assert(pairs@.push((kv.0, wv.0)).drop_last() =~= pairs@);
                lemma_encoded_pairs_push(
                    pair_models(pairs@),
                    (value_model(kv.0), value_model(wv.0)),
                );
            }
            let endw = wv.1;
            pairs.push((kv.0, wv.0));
            cur = endw;
            i = i + 1;
        }
        proof {
            lemma_pair_models_index(pairs@);
            assert(bytes@.subrange(pos as int, cur as int) =~= bytes@.subrange(
                pos as int,
                hpos as int,
            ) + bytes@.subrange(hpos as int, cur as int));
            assert forall|m: ValueModel, hi: int|
                #[trigger] wire_at(bytes@, pos as int, hi, m) implies (m == ValueModel::Object(
                pair_models(pairs@),
            ) && hi == cur as int) by {
                match m {
                    ValueModel::Object(p) => {
                        assert(wire_at(bytes@, pos as int, hi, ValueModel::Object(p)));
                        assert(p.take(i as int) =~= p);
                    },
                    _ => {
                        assert(false);
                    },
                }
            }
        }
        Ok((Value::Object(pairs), cur))
    } else if major == 6 {
        proof {
            assert forall|m: ValueModel, hi: int|
                #[trigger] wire_at(bytes@, pos as int, hi, m) implies (m matches ValueModel::Tag(
                t,
                inner,
            ) && t == n && wire_at(bytes@, hpos as int, hi, *inner)) by {
                match m {
                    ValueModel::Tag(t, inner) => {
                        assert(encoded_tail(m) == encoded(*inner));
                    },
                    _ => {
                        assert(header_major(m) != 6);
                        assert(false);
                    },
                }
            }
        }
        match parse_at(bytes, hpos) {
            Ok((inner, end)) => {
                proof {
                    assert(bytes@.subrange(pos as int, end as int) =~= bytes@.subrange(
                        pos as int,
                        hpos as int,
                    ) + bytes@.subrange(hpos as int, end as int));
                    assert forall|m: ValueModel, hi: int|
                        #[trigger] wire_at(bytes@, pos as int, hi, m) implies (m
                        == ValueModel::Tag(n, Box::new(inner@)) && hi == end as int) by {
                        match m {
                            ValueModel::Tag(t, im) => {
                                assert(inner@ == *im && end as int == hi);
                            },
                            _ => {
                                assert(false);
                            },
                        }
                    }
                }
                Ok((Value::Tag(n, Box::new(inner)), end))
            },
            Err(e) => {
                proof {
                    assert forall|m: ValueModel, hi: int| !wire_at(bytes@, pos as int, hi, m) by {
                        if wire_at(bytes@, pos as int, hi, m) {
                        }
                    }
                }
                Err(e)
            },
        }
    } else {
        proof {
            assert forall|m: ValueModel, hi: int| !wire_at(bytes@, pos as int, hi, m) by {
                if wire_at(bytes@, pos as int, hi, m) {
                    lemma_encoded_head(m);
                }
            }
        }
        Err(ParseError::Unsupported)
    }
}

/// The model of any value held in memory is well-formed: its sequences
/// are bounded by the machine, so they fit the 64-bit length arguments.
pub proof fn lemma_value_model_wf(v: Value)
    ensures
        wf_model(value_model(v)),
    decreases v,
{
    match v {
        Value::U64(_) => {},
        Value::Bytes(b) => {
            vstd::std_specs::vec::axiom_spec_len(&b);
            assert(b@.len() <= usize::MAX);
            assert(usize::MAX <= u64::MAX);
        },
        Value::Text(t) => {
            vstd::std_specs::vec::axiom_spec_len(&t);
            assert(t@.len() <= usize::MAX);
            assert(usize::MAX <= u64::MAX);
        },
        Value::Array(elems) => {
            vstd::std_specs::vec::axiom_spec_len(&elems);
            assert(elems@.len() <= usize::MAX);
            assert(usize::MAX <= u64::MAX);
            lemma_value_models_wf(elems@);
            lemma_value_models_index(elems@);
            assert(value_models(elems@).len() <= u64::MAX);
            assert(wf_model(value_model(v)));
        },
        Value::IArray(elems) => {
            lemma_value_models_wf(elems@);
            assert(wf_models(value_models(elems@)));
            assert(value_model(v) == ValueModel::IArray(value_models(elems@)));
            assert(wf_model(value_model(v)));
        },
        Value::Object(pairs) => {
            vstd::std_specs::vec::axiom_spec_len(&pairs);
            assert(pairs@.len() <= usize::MAX);
            assert(usize::MAX <= u64::MAX);
            lemma_pair_models_wf(pairs@);
            lemma_pair_models_index(pairs@);
            assert(pair_models(pairs@).len() <= u64::MAX);
            assert(wf_model(value_model(v)));
        },
        Value::Tag(_, inner) => {
            lemma_value_model_wf(*inner);
        },
    }
}

proof fn lemma_value_models_wf(elems: Seq<Value>)
    ensures
        wf_models(value_models(elems)),
    decreases elems,
{
    if elems.len() > 0 {
        lemma_value_model_wf(elems[elems.len() - 1]);
        lemma_value_models_wf(elems.drop_last());
        assert(value_models(elems).drop_last() =~= value_models(elems.drop_last()));
        assert(elems.last() == elems[elems.len() - 1]);
    }
}

proof fn lemma_pair_wf(p: (Value, Value))
    ensures
        wf_model(value_model(p.0)),
        wf_model(value_model(p.1)),
    decreases p,
{
    lemma_value_model_wf(p.0);
    lemma_value_model_wf(p.1);
}

proof fn lemma_pair_models_wf(pairs: Seq<(Value, Value)>)
    ensures
        wf_pairs(pair_models(pairs)),
    decreases pairs,
{
    if pairs.len() > 0 {
        lemma_pair_wf(pairs[pairs.len() - 1]);
        lemma_pair_models_wf(pairs.drop_last());
        assert(pair_models(pairs).drop_last() =~= pair_models(pairs.drop_last()));
        assert(pairs.last() == pairs[pairs.len() - 1]);
    }
}

/// Parses a byte string as one value with nothing left over.  A returned
/// tree is one whose wire form is exactly the input; and every byte string
/// that is exactly the wire form of a well-formed tree parses to it.
pub fn decode_from_cbor(bytes: &[u8]) -> (r: Result<Value, ParseError>)
    ensures
        r matches Ok(v) ==> bytes@ == encoded(v@),
        forall|m: ValueModel|
            wf_model(m) && bytes@ == #[trigger] encoded(m) ==> (r matches Ok(v) && v@ == m),
{
    proof {
        assert forall|m: ValueModel|
            wf_model(m) && bytes@ == #[trigger] encoded(m) implies wire_at(
            bytes@,
            0,
            bytes@.len() as int,
            m,
        ) by {
            assert(bytes@.subrange(0, bytes@.len() as int) =~= bytes@);
        }
    }
    match parse_at(bytes, 0) {
        Ok((v, end)) => {
            if end == bytes.len() {
                proof {
                    assert(bytes@.subrange(0, bytes@.len() as int) =~= bytes@);
                }
                Ok(v)
            } else {
                Err(ParseError::Trailing)
            }
        },
        Err(e) => Err(e),
    }
}

} // verus!
