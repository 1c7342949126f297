use vstd::prelude::*;

verus! {

/// A key/value entry attached to a compiled module.
#[derive(Debug)]
pub struct Metadata {
    pub key: Vec<u8>,
    pub value: Vec<u8>,
}

/// The key under which a module's ABI payload is stored.
pub const ABI_MOVE_KEY: &'static str = "abi_move";

/// The bytes of `ABI_MOVE_KEY` ("abi_move" in ASCII).
pub open spec fn abi_move_key() -> Seq<u8> {
    seq![0x61u8, 0x62u8, 0x69u8, 0x5fu8, 0x6du8, 0x6fu8, 0x76u8, 0x65u8]
}

/// Why the ABI metadata of a store cannot be decoded.
#[derive(Debug, Clone, Copy, PartialEq, Eq, Structural)]
pub enum MetadataError {
    /// More than one entry carries the ABI key.
    DuplicateKey,
}

pub fn abi_move_key_bytes() -> (r: Vec<u8>)
    ensures
        r@ == abi_move_key(),
{
    let r = vec![0x61u8, 0x62u8, 0x69u8, 0x5fu8, 0x6du8, 0x6fu8, 0x76u8, 0x65u8];
    assert(r@ =~= abi_move_key());
    r
}

pub fn is_abi_move_key(key: &Vec<u8>) -> (r: bool)
    ensures
        r == (key@ == abi_move_key()),
{
    let k = abi_move_key_bytes();
    if key.len() != k.len() {
        return false;
    }
    let mut i: usize = 0;
    while i < k.len()
        invariant
            k@ == abi_move_key(),
            key.len() == k.len(),
            i <= k.len(),
            forall|j: int| 0 <= j < i ==> key@[j] == k@[j],
        decreases k.len() - i,
    {
        if key[i] != k[i] {
            return false;
        }
        i = i + 1;
    }
    assert(key@ =~= k@);
    true
}

/// The metadata entry that carries an encoded ABI payload.
pub fn abi_move_metadata(payload: Vec<u8>) -> (m: Metadata)
    ensures
        m.key@ == abi_move_key(),
        m.value@ == payload@,
{
    Metadata { key: abi_move_key_bytes(), value: payload }
}

fn copy_bytes(v: &Vec<u8>) -> (r: Vec<u8>)
    ensures
        r@ == v@,
{
    let mut r: Vec<u8> = Vec::new();
    let mut i: usize = 0;
    while i < v.len()
        invariant
            i <= v.len(),
            r@ == v@.take(i as int),
        decreases v.len() - i,
    {
        r.push(v[i]);
        assert(r@ =~= v@.take(i + 1));
        i = i + 1;
    }
    assert(v@.take(v.len() as int) =~= v@);
    r
}

/// The payload of a single entry, if it carries the ABI key.
pub fn abi_move_payload(metadata: &Metadata) -> (r: Option<Vec<u8>>)
    ensures
        match r {
            Some(v) => metadata.key@ == abi_move_key() && v@ == metadata.value@,
            None => metadata.key@ != abi_move_key(),
        },
{
    if is_abi_move_key(&metadata.key) {
        Some(copy_bytes(&metadata.value))
    } else {
        None
    }
}

/// The payloads of the entries that carry the ABI key, in store order.
pub open spec fn abi_payloads(s: Seq<Metadata>) -> Seq<Seq<u8>>
    decreases s.len(),
{
    if s.len() == 0 {
        Seq::empty()
    } else if s.last().key@ == abi_move_key() {
        abi_payloads(s.drop_last()).push(s.last().value@)
    } else {
        abi_payloads(s.drop_last())
    }
}

/// The outcome of looking for the ABI payload in a store: absent, the one payload, or a
/// duplicate key.
pub open spec fn decode_store(s: Seq<Metadata>) -> Result<Option<Seq<u8>>, MetadataError> {
    let ps = abi_payloads(s);
    if ps.len() == 0 {
        Ok(None)
    } else if ps.len() == 1 {
        Ok(Some(ps[0]))
    } else {
        Err(MetadataError::DuplicateKey)
    }
}

/// Scans the whole store for the ABI payload. No entry under the key is not an error; two or
/// more are, whatever their values.
pub fn find_abi_move_payload(store: &Vec<Metadata>) -> (r: Result<Option<Vec<u8>>, MetadataError>)
    ensures
        match r {
            Ok(Some(v)) => decode_store(store@) == Ok::<Option<Seq<u8>>, MetadataError>(Some(v@)),
            Ok(None) => decode_store(store@) == Ok::<Option<Seq<u8>>, MetadataError>(None),
            Err(e) => decode_store(store@) == Err::<Option<Seq<u8>>, MetadataError>(e),
        },
{
    let mut count: usize = 0;
    let mut first: usize = 0;
    let mut i: usize = 0;
    while i < store.len()
        invariant
            i <= store.len(),
            count <= i,
            count == abi_payloads(store@.take(i as int)).len(),
            count > 0 ==> first < store.len() && abi_payloads(store@.take(i as int))[0]
                == store@[first as int].value@,
        decreases store.len() - i,
    {
        let ghost pre = store@.take(i + 1);
        assert(pre.drop_last() =~= store@.take(i as int));
        if is_abi_move_key(&store[i].key) {
            if count == 0 {
                first = i;
            }
            count = count + 1;
        }
        i = i + 1;
    }
    assert(store@.take(store.len() as int) =~= store@);
    if count == 0 {
        Ok(None)
    } else if count == 1 {
        Ok(Some(copy_bytes(&store[first].value)))
    } else {
        Err(MetadataError::DuplicateKey)
    }
}

/// A store in which no entry carries the ABI key decodes to "absent", never to an error.
pub proof fn lemma_foreign_keys_absent(s: Seq<Metadata>)
    requires
        forall|i: int| 0 <= i < s.len() ==> (#[trigger] s[i]).key@ != abi_move_key(),
    ensures
        decode_store(s) == Ok::<Option<Seq<u8>>, MetadataError>(None),
    decreases s.len(),
{
    if s.len() > 0 {
        let d = s.drop_last();
        assert forall|i: int| 0 <= i < d.len() implies (#[trigger] d[i]).key@ != abi_move_key() by {
            assert(d[i] == s[i]);
        }
        lemma_foreign_keys_absent(d);
    }
}

proof fn lemma_payloads_len(s: Seq<Metadata>, i: int, j: int)
    requires
        0 <= i < s.len(),
        s[i].key@ == abi_move_key(),
        i < j < s.len() ==> s[j].key@ == abi_move_key(),
    ensures
        abi_payloads(s).len() >= (if i < j < s.len() { 2int } else { 1int }),
    decreases s.len(),
{
    let d = s.drop_last();
    let last: int = s.len() - 1;
    if i < last {
        assert(d[i] == s[i]);
        if i < j < last {
            assert(d[j] == s[j]);
            lemma_payloads_len(d, i, j);
        } else {
            lemma_payloads_len(d, i, i);
        }
    }
}

/// A store with two entries under the ABI key is rejected, whether or not their values agree.
pub proof fn lemma_duplicate_key_rejected(s: Seq<Metadata>, i: int, j: int)
    requires
        0 <= i < j < s.len(),
        s[i].key@ == abi_move_key(),
        s[j].key@ == abi_move_key(),
    ensures
        decode_store(s) == Err::<Option<Seq<u8>>, MetadataError>(MetadataError::DuplicateKey),
{
    lemma_payloads_len(s, i, j);
}

/// Appending the entry made from a payload to a store without ABI metadata and decoding the
/// store gives back that payload.
pub proof fn lemma_payload_round_trip(s: Seq<Metadata>, m: Metadata)
    requires
        forall|i: int| 0 <= i < s.len() ==> (#[trigger] s[i]).key@ != abi_move_key(),
        m.key@ == abi_move_key(),
    ensures
        decode_store(s.push(m)) == Ok::<Option<Seq<u8>>, MetadataError>(Some(m.value@)),
{
    lemma_foreign_keys_absent(s);
    assert(s.push(m).drop_last() =~= s);
}

} // verus!
