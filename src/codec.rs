//! Byte layout of an access list: the 32-byte keys, one after another.
use crate::error::DecodeError;
use vstd::prelude::*;

verus! {

/// A principal or a storage slot, named by 32 opaque bytes.
pub type Identity = [u8; 32];

/// An ordered list of keys, as it is held in memory.
pub type UserAccessList = Vec<Identity>;

/// Width of one key in every byte layout of this crate.
pub const KEY_LEN: usize = 32;

/// The bytes of a list: each key's bytes, in list order.
pub open spec fn list_bytes(l: Seq<Identity>) -> Seq<u8>
    decreases l.len(),
{
    if l.len() == 0 {
        Seq::empty()
    } else {
        list_bytes(l.drop_last()) + l.last()@
    }
}

/// A list's bytes are 32 per key.
pub proof fn lemma_list_bytes_len(l: Seq<Identity>)
    ensures
        list_bytes(l).len() == 32 * l.len(),
    decreases l.len(),
{
    if l.len() > 0 {
        lemma_list_bytes_len(l.drop_last());
    }
}

/// Two identities are equal exactly when their bytes are.
pub proof fn lemma_identity_ext(a: Identity, b: Identity)
    requires
        a@ == b@,
    ensures
        a == b,
{
    assert(a =~= b);
}

/// Byte-exact comparison of two identities.
pub fn same_identity(a: &Identity, b: &Identity) -> (r: bool)
    ensures
        r == (*a == *b),
{
    let mut i: usize = 0;
    while i < KEY_LEN
        invariant
            i <= KEY_LEN,
            forall|j: int| 0 <= j < i ==> a[j] == b[j],
        decreases KEY_LEN - i,
    {
        if a[i] != b[i] {
            return false;
        }
        i = i + 1;
    }
    proof {
        assert(a@ =~= b@);
        lemma_identity_ext(*a, *b);
    }
    true
}

/// The key held by the 32 bytes of `bytes` that start at `start`.
pub fn key_at(bytes: &[u8], start: usize) -> (r: Identity)
    requires
        start + 32 <= bytes@.len(),
    ensures
        r@ == bytes@.subrange(start as int, start + 32),
{
    let mut key: Identity = [0u8; 32];
    let blen: usize = bytes.len();
    let mut j: usize = 0;
    while j < KEY_LEN
        invariant
            bytes@.len() == blen,
            start + 32 <= bytes@.len(),
            j <= KEY_LEN,
            forall|t: int| 0 <= t < j ==> key[t] == bytes@[start + t],
        decreases KEY_LEN - j,
    {
        key[j] = bytes[start + j];
        j = j + 1;
    }
    assert(key@ =~= bytes@.subrange(start as int, start + 32));
    key
}

/// Encodes a list as the concatenation of its keys' bytes.
pub fn pack_user_access_list(input: UserAccessList) -> (r: Vec<u8>)
    requires
        input@.len() * 32 <= usize::MAX,
    ensures
        r@ == list_bytes(input@),
{
    let mut out: Vec<u8> = Vec::new();
    let mut i: usize = 0;
    while i < input.len()
        invariant
            i <= input@.len(),
            out@ == list_bytes(input@.subrange(0, i as int)),
        decreases input@.len() - i,
    {
        let key: Identity = input[i];
        let ghost before = out@;
        let mut j: usize = 0;
        while j < KEY_LEN
            invariant
                j <= KEY_LEN,
                out@ == before + key@.subrange(0, j as int),
            decreases KEY_LEN - j,
        {
            out.push(key[j]);
            assert(key@.subrange(0, j + 1) =~= key@.subrange(0, j as int).push(key[j as int]));
            j = j + 1;
        }
        proof {
            let next = input@.subrange(0, i + 1);
            assert(next.drop_last() =~= input@.subrange(0, i as int));
            assert(key@.subrange(0, 32) =~= key@);
        }
        i = i + 1;
    }
    assert(input@.subrange(0, input@.len() as int) =~= input@);
    out
}

/// Two lists with the same bytes are the same list.
pub proof fn lemma_list_bytes_injective(a: Seq<Identity>, b: Seq<Identity>)
    requires
        list_bytes(a) == list_bytes(b),
    ensures
        a == b,
    decreases a.len(),
{
    lemma_list_bytes_len(a);
    lemma_list_bytes_len(b);
    if a.len() > 0 {
        let pa = list_bytes(a.drop_last());
        let pb = list_bytes(b.drop_last());
        lemma_list_bytes_len(a.drop_last());
        lemma_list_bytes_len(b.drop_last());
        assert(pa =~= list_bytes(a).subrange(0, pa.len() as int));
        assert(pb =~= list_bytes(b).subrange(0, pb.len() as int));
        assert(a.last()@ =~= list_bytes(a).subrange(pa.len() as int, list_bytes(a).len() as int));
        assert(b.last()@ =~= list_bytes(b).subrange(pb.len() as int, list_bytes(b).len() as int));
        lemma_identity_ext(a.last(), b.last());
        lemma_list_bytes_injective(a.drop_last(), b.drop_last());
        assert(a =~= a.drop_last().push(a.last()));
        assert(b =~= b.drop_last().push(b.last()));
    } else {
        assert(a =~= b);
    }
}

/// Decodes the bytes of a list: fails when the length is not a multiple of
/// the key width, otherwise yields the keys that the bytes hold, in order.
pub fn unpack_user_access_list(input: &[u8]) -> (r: Result<UserAccessList, DecodeError>)
    ensures
        r is Err <==> input@.len() % 32 != 0,
        r is Err ==> r == Err::<UserAccessList, DecodeError>(DecodeError::MalformedLength),
        r is Ok ==> list_bytes(r->Ok_0@) == input@,
{
    if input.len() % KEY_LEN != 0 {
        return Err(DecodeError::MalformedLength);
    }
    let len: usize = input.len();
    let n: usize = len / KEY_LEN;
    let mut keys: Vec<Identity> = Vec::new();
    let mut i: usize = 0;
    while i < n
        invariant
            n * 32 == input@.len(),
            input@.len() == len,
            i <= n,
            list_bytes(keys@) == input@.subrange(0, 32 * i),
        decreases n - i,
    {
        assert(i * 32 + 32 <= n * 32) by (nonlinear_arith)
            requires
                i < n,
        ;
        assert(n * 32 == len);
        let key = key_at(input, i * KEY_LEN);
        let ghost prev = keys@;
        keys.push(key);
        proof {
            assert(keys@.drop_last() =~= prev);
            assert(input@.subrange(0, 32 * (i + 1)) =~= input@.subrange(0, 32 * i) + input@.subrange(
                32 * i,
                32 * i + 32,
            ));
        }
        i = i + 1;
    }
    assert(input@.subrange(0, 32 * n) =~= input@);
    Ok(keys)
}

/// Decoding the bytes of a list gives the list back.
pub proof fn lemma_access_list_round_trip(l: Seq<Identity>, decoded: Seq<Identity>)
    requires
        list_bytes(decoded) == list_bytes(l),
    ensures
        list_bytes(l).len() % 32 == 0,
        decoded == l,
{
    lemma_list_bytes_len(l);
    lemma_list_bytes_injective(decoded, l);
}

} // verus!
