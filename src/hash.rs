use vstd::prelude::*;
use vstd::string::StringSliceAdditionalSpecFns;

verus! {

/// The DJB2 hash of `bytes`: start from 5381, and for each byte `b` in
/// order take `h * 33 + b` modulo 2^32.
pub open spec fn djb2(bytes: Seq<u8>) -> u32
    decreases bytes.len(),
{
    if bytes.len() == 0 {
        5381
    } else {
        ((djb2(bytes.drop_last()) as int * 33 + bytes.last() as int) % 0x1_0000_0000) as u32
    }
}

/// The DJB2 hash of the UTF-8 encoding of `s`.
pub fn hash_string(s: &str) -> (r: u32)
    ensures
        r == djb2(s.spec_bytes()),
        s@.len() == 0 ==> r == 5381,
{
    let bytes = s.as_bytes();
    let mut hash: u32 = 5381;
    for i in 0..bytes.len()
        invariant
            bytes@ == s.spec_bytes(),
            hash == djb2(bytes@.take(i as int)),
    {
        let ghost next = bytes@.take(i + 1);
        assert(next.drop_last() =~= bytes@.take(i as int));
        let b = bytes[i];
        let ghost before = hash;
        hash = hash.wrapping_mul(33).wrapping_add(b as u32);
        proof {
            let m = 0x1_0000_0000int;
            vstd::arithmetic::div_mod::lemma_add_mod_noop(before as int * 33, b as int, m);
            vstd::arithmetic::div_mod::lemma_mod_twice(before as int * 33, m);
            vstd::arithmetic::div_mod::lemma_small_mod(b as nat, m as nat);
        }
    }
    assert(bytes@.take(bytes@.len() as int) =~= s.spec_bytes());
    assert(s@.len() == 0 ==> s.spec_bytes().len() == 0);
    hash
}

/// The hash of a text depends on its characters alone: two texts with the
/// same characters hash alike.
pub proof fn lemma_hash_deterministic(a: &str, b: &str)
    requires
        a@ == b@,
    ensures
        djb2(a.spec_bytes()) == djb2(b.spec_bytes()),
{
}

} // verus!
