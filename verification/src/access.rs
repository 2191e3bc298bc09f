use vstd::prelude::*;

verus! {

/// The flag of an access that reads.
pub const READ_BITS: u8 = 1;

/// The flag of an access that writes.
pub const WRITE_BITS: u8 = 2;

/// How a pipeline stage uses one of its storage buffers: a set of flags, read and write.
#[derive(Debug, Clone, Copy, PartialEq, Eq, Structural)]
pub struct StorageAccess(u8);

impl StorageAccess {
    /// The stage reads the buffer.
    pub fn read() -> (r: StorageAccess)
        ensures
            r.bits() == READ_BITS,
    {
        StorageAccess(READ_BITS)
    }

    /// The stage writes the buffer.
    pub fn write() -> (r: StorageAccess)
        ensures
            r.bits() == WRITE_BITS,
    {
        StorageAccess(WRITE_BITS)
    }

    pub closed spec fn bits(self) -> u8 {
        self.0
    }

    /// Whether the access reads the buffer and nothing else.
    pub fn is_read_only(self) -> (r: bool)
        ensures
            r == (self.bits() == READ_BITS),
    {
        self.0 == READ_BITS
    }
}

impl core::ops::BitOr for StorageAccess {
    type Output = Self;

    fn bitor(self, rhs: Self) -> (r: Self)
        ensures
            r.bits() == self.bits() | rhs.bits(),
    {
        StorageAccess(self.0 | rhs.0)
    }
}

impl vstd::std_specs::ops::BitOrSpecImpl for StorageAccess {
    open spec fn obeys_bitor_spec() -> bool {
        true
    }

    open spec fn bitor_req(self, rhs: Self) -> bool {
        true
    }

    closed spec fn bitor_spec(self, rhs: Self) -> Self {
        StorageAccess(self.0 | rhs.0)
    }
}

} // verus!
