//! The three ways in which a packet is told from others by its first byte.

use vstd::prelude::*;

verus! {

/// A way of finding a packet's ID.
pub trait AsId: View {

}

/// The framing reads and writes no ID: the body is all there is.
#[derive(Debug)]
pub struct Manual;

impl View for Manual {
    type V = ();

    open spec fn view(&self) -> () {
        ()
    }
}

impl AsId for Manual {

}

/// The packet always has this ID.
#[derive(Debug)]
pub struct Managed(pub u8);

impl View for Managed {
    type V = u8;

    open spec fn view(&self) -> u8 {
        self.0
    }
}

impl AsId for Managed {

}

impl core::ops::Deref for Managed {
    type Target = u8;

    /// The ID.
    fn deref(&self) -> (id: &u8)
        ensures
            *id == self@,
    {
        &self.0
    }
}

/// The ID that a packet has in the protocol versions from `first` to `last`, both included.
#[derive(Clone, Copy, Debug, PartialEq, Eq, Structural)]
pub struct VersionRange {
    pub first: i32,
    pub last: i32,
    pub id: u8,
}

/// The ID depends on the protocol version: the first range that holds the version gives it, and
/// a version in no range has none.
#[derive(Debug)]
pub struct VersionDependent(pub Vec<VersionRange>);

impl View for VersionDependent {
    type V = Seq<VersionRange>;

    open spec fn view(&self) -> Seq<VersionRange> {
        self.0@
    }
}

impl AsId for VersionDependent {

}

/// The ID that `ranges` give to `protocol`.
pub open spec fn version_id(ranges: Seq<VersionRange>, protocol: i32) -> Option<u8>
    decreases ranges.len(),
{
    if ranges.len() == 0 {
        None
    } else if ranges[0].first <= protocol <= ranges[0].last {
        Some(ranges[0].id)
    } else {
        version_id(ranges.skip(1), protocol)
    }
}

impl VersionDependent {
    /// The ID in the protocol version `protocol`, if it has one.
    pub fn get(&self, protocol: i32) -> (id: Option<u8>)
        ensures
            id == version_id(self@, protocol),
    {
        let mut i: usize = 0;
        assert(self@.skip(0) =~= self@);
        while i < self.0.len()
            invariant
                i <= self.0.len(),
                version_id(self@, protocol) == version_id(self@.skip(i as int), protocol),
            decreases self.0.len() - i,
        {
            let range = self.0[i];
            if range.first <= protocol && protocol <= range.last {
                return Some(range.id);
            }
            assert(self@.skip(i as int).skip(1) =~= self@.skip(i + 1));
            i = i + 1;
        }
        None
    }
}

} // verus!
