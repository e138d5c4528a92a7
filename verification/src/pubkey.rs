//! Account addresses.
use crate::codec::Record;
use vstd::prelude::*;

verus! {

/// The 32-byte address of an account.
#[derive(Clone, Copy, Debug)]
pub struct Pubkey {
    pub bytes: [u8; 32],
}

impl PartialEq for Pubkey {
    fn eq(&self, other: &Pubkey) -> (r: bool) {
        let mut i: usize = 0;
        while i < 32
            invariant
                i <= 32,
                forall|j: int| 0 <= j < i ==> self.bytes[j] == other.bytes[j],
            decreases 32 - i,
        {
            if self.bytes[i] != other.bytes[i] {
                assert(*self != *other);
                return false;
            }
            i = i + 1;
        }
        assert(self.bytes@ =~= other.bytes@);
        assert(self.bytes =~= other.bytes);
        true
    }
}

impl Eq for Pubkey {

}

impl vstd::std_specs::cmp::PartialEqSpecImpl for Pubkey {
    open spec fn obeys_eq_spec() -> bool {
        true
    }

    open spec fn eq_spec(&self, other: &Pubkey) -> bool {
        *self == *other
    }
}

impl Pubkey {
    /// The address of the given bytes.
    pub open spec fn of(bytes: Seq<u8>) -> Pubkey
        recommends
            bytes.len() == 32,
    {
        choose|key: Pubkey| key.bytes@ == bytes
    }

    /// An address is determined by its bytes.
    pub proof fn lemma_of(key: Pubkey)
        ensures
            Pubkey::of(key.bytes@) == key,
    {
        let other = Pubkey::of(key.bytes@);
        assert(key.bytes@ == key.bytes@);
        assert(other.bytes@ == key.bytes@);
        assert(other.bytes =~= key.bytes);
    }

    /// The address of all zero bytes, which is also that of the system program.
    pub open spec fn zero() -> Pubkey {
        Pubkey::of(Seq::new(32, |i: int| 0u8))
    }

    pub fn default() -> (r: Pubkey)
        ensures
            r == Pubkey::zero(),
    {
        let r = Pubkey { bytes: [0u8; 32] };
        proof {
            assert(r.bytes@ =~= Seq::new(32, |i: int| 0u8));
            Pubkey::lemma_of(r);
        }
        r
    }

    pub fn new(bytes: [u8; 32]) -> (r: Pubkey)
        ensures
            r.bytes == bytes,
    {
        Pubkey { bytes }
    }
}

/// The address held at `at` in `bytes`.
pub open spec fn key_at(bytes: Seq<u8>, at: int) -> Pubkey {
    Pubkey::of(bytes.subrange(at, at + 32))
}

pub fn read_key(bytes: &[u8], at: usize) -> (r: Pubkey)
    requires
        at + 32 <= bytes.len(),
    ensures
        r == key_at(bytes@, at as int),
{
    let mut out: [u8; 32] = [0u8; 32];
    let mut i: usize = 0;
    while i < 32
        invariant
            i <= 32,
            at + 32 <= bytes.len(),
            forall|j: int| 0 <= j < i ==> out@[j] == bytes@[at + j],
        decreases 32 - i,
    {
        out[i] = bytes[at + i];
        i = i + 1;
    }
    let r = Pubkey { bytes: out };
    proof {
        assert(out@ =~= bytes@.subrange(at as int, at + 32));
        Pubkey::lemma_of(r);
    }
    r
}

pub fn push_key(out: &mut Vec<u8>, key: &Pubkey)
    ensures
        final(out)@ == old(out)@ + key.bytes@,
{
    let mut i: usize = 0;
    while i < 32
        invariant
            i <= 32,
            out@ == old(out)@ + key.bytes@.subrange(0, i as int),
        decreases 32 - i,
    {
        out.push(key.bytes[i]);
        i = i + 1;
        assert(out@ =~= old(out)@ + key.bytes@.subrange(0, i as int));
    }
    assert(key.bytes@.subrange(0, 32) =~= key.bytes@);
}

impl Record for Pubkey {
    open spec fn spec_size() -> nat {
        32
    }

    open spec fn spec_align() -> nat {
        1
    }

    open spec fn encoded(&self) -> Seq<u8> {
        self.bytes@
    }

    open spec fn decoded(bytes: Seq<u8>) -> Pubkey {
        key_at(bytes, 0)
    }

    proof fn lemma_layout() {
    }

    proof fn lemma_round_trip(&self) {
        assert(self.bytes@.subrange(0, 32) =~= self.bytes@);
        Pubkey::lemma_of(*self);
    }

    fn size_of() -> (r: usize) {
        32
    }

    fn align_of() -> (r: usize) {
        1
    }

    fn encode(&self) -> (r: Vec<u8>) {
        let mut out: Vec<u8> = Vec::new();
        push_key(&mut out, self);
        assert(out@ =~= self.bytes@);
        out
    }

    fn decode(bytes: &[u8]) -> (r: Pubkey) {
        read_key(bytes, 0)
    }
}

} // verus!
