use vstd::prelude::*;

verus! {

/// A RESP value: the tree of data that travels on the wire.
///
/// Keys and payloads of the keyspace are `BulkString` values; replies may use
/// any variant. `SimpleError` is produced only when serializing replies; the
/// request parser never yields it.
#[derive(PartialEq, Eq, Debug, Hash)]
pub enum RedisValue {
    SimpleString(Vec<u8>),
    BulkString(Vec<u8>),
    Array(Vec<RedisValue>),
    NullBulkString,
    SimpleError(Vec<u8>),
}

/// Mathematical model of a RESP value, with byte sequences in place of vectors.
pub enum SpecValue {
    SimpleString(Seq<u8>),
    BulkString(Seq<u8>),
    Array(Seq<SpecValue>),
    NullBulkString,
    SimpleError(Seq<u8>),
}

/// Model of a value tree.
pub open spec fn value_view(v: RedisValue) -> SpecValue
    decreases v,
{
    match v {
        RedisValue::SimpleString(s) => SpecValue::SimpleString(s@),
        RedisValue::BulkString(b) => SpecValue::BulkString(b@),
        RedisValue::Array(vs) => SpecValue::Array(values_view(vs@)),
        RedisValue::NullBulkString => SpecValue::NullBulkString,
        RedisValue::SimpleError(e) => SpecValue::SimpleError(e@),
    }
}

/// Model of a sequence of value trees, element by element.
pub open spec fn values_view(vs: Seq<RedisValue>) -> Seq<SpecValue>
    decreases vs,
{
    if vs.len() == 0 {
        Seq::empty()
    } else {
        seq![value_view(vs[0])] + values_view(vs.subrange(1, vs.len() as int))
    }
}

impl View for RedisValue {
    type V = SpecValue;

    open spec fn view(&self) -> SpecValue {
        value_view(*self)
    }
}

/// Byte-for-byte equality of two vectors.
#[verifier::loop_isolation(false)]
pub fn bytes_eq(a: &Vec<u8>, b: &Vec<u8>) -> (r: bool)
    ensures
        r <==> a@ == b@,
{
    if a.len() != b.len() {
        return false;
    }
    let mut i: usize = 0;
    while i < a.len()
        invariant
            i <= a@.len(),
            a@.len() == b@.len(),
            forall|j: int| 0 <= j < i ==> a@[j] == b@[j],
        decreases a@.len() - i,
    {
        if a[i] != b[i] {
            return false;
        }
        i += 1;
    }
    proof {
        assert(a@ =~= b@);
    }
    true
}

pub proof fn lemma_values_view(vs: Seq<RedisValue>)
    ensures
        values_view(vs).len() == vs.len(),
        forall|i: int| 0 <= i < vs.len() ==> values_view(vs)[i] == value_view(vs[i]),
    decreases vs,
{
    if vs.len() > 0 {
        lemma_values_view(vs.subrange(1, vs.len() as int));
    }
}

} // verus!
