//! CRC-32 checksums of whole and of piecewise data.
use vstd::prelude::*;

verus! {

/// The CRC-32 of the bytes that led to `initial`, followed by `data`.
pub uninterp spec fn crc32(initial: u32, data: Seq<u8>) -> u32;

/// The CRC-32 of `data`.
pub open spec fn checksum_of(data: Seq<u8>) -> u32 {
    crc32(0, data)
}

/// Runs `crc32fast::Hasher` from the state `initial` over `data`. The result
/// is a function of both; no data leaves the state as it is; and going on from
/// the checksum of earlier bytes gives the checksum of those bytes and `data`
/// together.
#[verifier::external_body]
pub(crate) fn crc32_from(initial: u32, data: &[u8]) -> (r: u32)
    ensures
        r == crc32(initial, data@),
        data@.len() == 0 ==> r == initial,
        forall|start: u32, before: Seq<u8>|
            initial == #[trigger] crc32(start, before) ==> r == crc32(start, before + data@),
{
    let mut hasher = crc32fast::Hasher::new_with_initial(initial);
    hasher.update(data);
    hasher.finalize()
}

/// The CRC-32 of `data`. Empty data has the checksum 0.
pub fn compute_checksum(data: &[u8]) -> (r: u32)
    ensures
        r == checksum_of(data@),
        data@.len() == 0 ==> r == 0,
{
    crc32_from(0, data)
}

/// A checksum that grows with the data.
pub struct RunningChecksum {
    state: u32,
    seen: Ghost<Seq<u8>>,
}

impl RunningChecksum {
    #[verifier::type_invariant]
    spec fn well_formed(self) -> bool {
        self.state == checksum_of(self.seen@)
    }

    /// The bytes seen so far.
    pub closed spec fn seen(self) -> Seq<u8> {
        self.seen@
    }

    /// The checksum of no bytes.
    pub fn new() -> (r: Self)
        ensures
            r.seen() == Seq::<u8>::empty(),
    {
        let none: [u8; 0] = [];
        let state: u32 = compute_checksum(&none);
        assert(none@ =~= Seq::<u8>::empty());
        RunningChecksum { state, seen: Ghost(Seq::<u8>::empty()) }
    }

    /// Goes on with `data`.
    pub fn update(&mut self, data: &[u8])
        ensures
            final(self).seen() == old(self).seen() + data@,
    {
        proof {
            use_type_invariant(&*self);
        }
        let state: u32 = crc32_from(self.state, data);
        *self = RunningChecksum { state, seen: Ghost(self.seen@ + data@) };
    }

    /// The checksum of all bytes seen.
    pub fn finalize(&self) -> (r: u32)
        ensures
            r == checksum_of(self.seen()),
    {
        proof {
            use_type_invariant(self);
        }
        self.state
    }
}

} // verus!
