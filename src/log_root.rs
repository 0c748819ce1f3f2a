//! Decoding what the transparency log answers: the signed tree root, the
//! queued leaf's index and the inclusion proof.
use vstd::prelude::*;

verus! {

/// A tree root and the tree size it was computed over.
pub struct SignedRoot {
    pub root_hash: Vec<u8>,
    pub tree_size: i64,
}

/// Failures of the log and of its answers.
#[derive(Debug, PartialEq, Eq, Structural)]
pub enum LogError {
    Unavailable,
    Rejected,
    Malformed,
    NoProof,
}

/// The unsigned big-endian value of some bytes.
pub open spec fn be_value(b: Seq<u8>) -> nat
    decreases b.len(),
{
    if b.len() == 0 {
        0
    } else {
        be_value(b.drop_last()) * 256 + b.last() as nat
    }
}

/// The two's-complement big-endian value of eight bytes.
pub open spec fn be_i64(b: Seq<u8>) -> int {
    if be_value(b) >= 0x8000_0000_0000_0000 {
        be_value(b) - 0x1_0000_0000_0000_0000
    } else {
        be_value(b) as int
    }
}

/// 256 to the power `n`.
pub open spec fn pow256(n: nat) -> nat
    decreases n,
{
    if n == 0 {
        1
    } else {
        256 * pow256((n - 1) as nat)
    }
}

proof fn lemma_be_value_bound(b: Seq<u8>)
    ensures
        be_value(b) < pow256(b.len()),
    decreases b.len(),
{
    if b.len() > 0 {
        let p = pow256((b.len() - 1) as nat);
        lemma_be_value_bound(b.drop_last());
        let v = be_value(b.drop_last());
        let l = b.last() as nat;
        assert(v * 256 + l < p * 256) by (nonlinear_arith)
            requires
                v < p,
                l < 256,
        ;
    }
}

/// Reads eight bytes as a big-endian two's-complement integer.
fn read_i64_be(b: &[u8]) -> (r: i64)
    requires
        b@.len() == 8,
    ensures
        r as int == be_i64(b@),
{
    let mut acc: u64 = 0;
    let mut i: usize = 0;
    assert(b@.take(0) =~= Seq::<u8>::empty());
    while i < 8
        invariant
            b@.len() == 8,
            i <= 8,
            acc as int == be_value(b@.take(i as int)),
        decreases 8 - i,
    {
        proof {
            lemma_be_value_bound(b@.take(i as int));
            reveal_with_fuel(pow256, 8);
            assert(pow256(7) == 0x100_0000_0000_0000);
            if i < 7 {
                lemma_pow256_monotone(i as nat, 7);
            }
            assert(b@.take(i + 1).drop_last() =~= b@.take(i as int));
        }
        acc = acc * 256 + b[i] as u64;
        i = i + 1;
    }
    assert(b@.take(8) =~= b@);
    if acc >= 0x8000_0000_0000_0000 {
        (acc - 0x8000_0000_0000_0000) as i64 + i64::MIN
    } else {
        acc as i64
    }
}

proof fn lemma_pow256_monotone(a: nat, b: nat)
    requires
        a <= b,
    ensures
        pow256(a) <= pow256(b),
    decreases b - a,
{
    if a < b {
        lemma_pow256_monotone(a, (b - 1) as nat);
    }
}

/// The encoded root is well formed: 2 bytes of version, 8 of tree size,
/// 1 of hash length, then at least that many bytes of hash.
pub open spec fn root_encoding_ok(b: Seq<u8>) -> bool {
    b.len() >= 11 && b.len() >= 11 + b[10]
}

/// Decodes the log's root encoding.
pub fn parse_log_root(bytes: &[u8]) -> (r: Result<SignedRoot, LogError>)
    ensures
        r is Ok <==> root_encoding_ok(bytes@),
        r is Err ==> r == Err::<SignedRoot, LogError>(LogError::Malformed),
        r is Ok ==> r->Ok_0.tree_size as int == be_i64(bytes@.subrange(2, 10)) && r->Ok_0.root_hash@
            == bytes@.subrange(11, 11 + bytes@[10]),
{
    if bytes.len() < 11 {
        return Err(LogError::Malformed);
    }
    let hash_len = bytes[10] as usize;
    if bytes.len() < 11 + hash_len {
        return Err(LogError::Malformed);
    }
    let tree_size = read_i64_be(&bytes[2..10]);
    let mut root_hash: Vec<u8> = Vec::new();
    let end: usize = 11 + hash_len;
    let mut i: usize = 11;
    while i < end
        invariant
            end == 11 + hash_len,
            11 <= i <= end <= bytes@.len(),
            root_hash@ == bytes@.subrange(11, i as int),
        decreases end - i,
    {
        root_hash.push(bytes[i]);
        i = i + 1;
        assert(root_hash@ =~= bytes@.subrange(11, i as int));
    }
    Ok(SignedRoot { root_hash, tree_size })
}

/// The root in a latest-root answer: `Malformed` when the answer holds no
/// root or a bad encoding.
pub fn root_from_answer(log_root: Option<&[u8]>) -> (r: Result<SignedRoot, LogError>)
    ensures
        match log_root {
            None => r == Err::<SignedRoot, LogError>(LogError::Malformed),
            Some(b) => (r is Ok <==> root_encoding_ok(b@)) && (r is Ok ==> r->Ok_0.root_hash@
                == b@.subrange(11, 11 + b@[10]) && r->Ok_0.tree_size as int == be_i64(
                b@.subrange(2, 10),
            )) && (r is Err ==> r == Err::<SignedRoot, LogError>(LogError::Malformed)),
        },
{
    match log_root {
        Some(b) => parse_log_root(b),
        None => Err(LogError::Malformed),
    }
}

/// The index in a queue-leaf answer: `Rejected` when no leaf was queued,
/// `Malformed` when the queued leaf carries no index.
pub fn queued_index(queued: Option<Option<i64>>) -> (r: Result<i64, LogError>)
    ensures
        match queued {
            None => r == Err::<i64, LogError>(LogError::Rejected),
            Some(None) => r == Err::<i64, LogError>(LogError::Malformed),
            Some(Some(i)) => r == Ok::<i64, LogError>(i),
        },
{
    match queued {
        None => Err(LogError::Rejected),
        Some(None) => Err(LogError::Malformed),
        Some(Some(i)) => Ok(i),
    }
}

/// The sibling hashes in an inclusion-proof answer: `NoProof` when absent.
pub fn proof_from_answer(hashes: Option<Vec<Vec<u8>>>) -> (r: Result<Vec<Vec<u8>>, LogError>)
    ensures
        hashes is None ==> (r is Err && r->Err_0 == LogError::NoProof),
        hashes is Some ==> (r is Ok && r->Ok_0 == hashes->Some_0),
{
    match hashes {
        Some(p) => Ok(p),
        None => Err(LogError::NoProof),
    }
}

} // verus!
