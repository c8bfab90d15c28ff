//! Access permissions of a mapped region.

use vstd::prelude::*;

verus! {

/// Bit that lets the region be read.
pub const PERM_R: u8 = 0x02;

/// Bit that lets the region be written.
pub const PERM_W: u8 = 0x04;

/// Bit that lets the region be executed.
pub const PERM_X: u8 = 0x08;

/// Bit that lets code running in user mode reach the region.
pub const PERM_U: u8 = 0x10;

/// All four permission bits together.
pub const PERM_ALL: u8 = 0x1e;

/// A set of access permissions, kept as the bits of one byte.
#[derive(Clone, Copy, Debug, PartialEq, Eq, Structural)]
pub struct MapPermission {
    pub bits: u8,
}

impl MapPermission {
    /// Whether only defined permission bits are set.
    pub open spec fn well_formed(self) -> bool {
        self.bits & !PERM_ALL == 0
    }

    /// Whether the region may be read.
    pub open spec fn spec_readable(self) -> bool {
        self.bits & PERM_R != 0
    }

    /// Whether the region may be written.
    pub open spec fn spec_writable(self) -> bool {
        self.bits & PERM_W != 0
    }

    /// Whether the region may be executed.
    pub open spec fn spec_executable(self) -> bool {
        self.bits & PERM_X != 0
    }

    /// Whether code running in user mode may reach the region.
    pub open spec fn spec_user(self) -> bool {
        self.bits & PERM_U != 0
    }

    /// The permission set with exactly the given bits, unless a bit outside
    /// the four defined ones is set.
    pub fn from_bits(bits: u8) -> (perm: Option<MapPermission>)
        ensures
            bits & !PERM_ALL == 0 ==> perm == Some(MapPermission { bits }),
            bits & !PERM_ALL != 0 ==> perm is None,
    {
        if bits & !PERM_ALL == 0 {
            Some(MapPermission { bits })
        } else {
            None
        }
    }

    /// The bits of this set.
    pub fn bits(self) -> (bits: u8)
        ensures
            bits == self.bits,
    {
        self.bits
    }

    /// The set that holds every permission of `self` and of `other`.
    pub fn union(self, other: MapPermission) -> (both: MapPermission)
        ensures
            both.bits == self.bits | other.bits,
    {
        MapPermission { bits: self.bits | other.bits }
    }

    /// Whether the region may be read.
    #[verifier::when_used_as_spec(spec_readable)]
    pub fn readable(self) -> (yes: bool)
        ensures
            yes == self.spec_readable(),
    {
        self.bits & PERM_R != 0
    }

    /// Whether the region may be written.
    #[verifier::when_used_as_spec(spec_writable)]
    pub fn writable(self) -> (yes: bool)
        ensures
            yes == self.spec_writable(),
    {
        self.bits & PERM_W != 0
    }

    /// Whether the region may be executed.
    #[verifier::when_used_as_spec(spec_executable)]
    pub fn executable(self) -> (yes: bool)
        ensures
            yes == self.spec_executable(),
    {
        self.bits & PERM_X != 0
    }

    /// Whether code running in user mode may reach the region.
    #[verifier::when_used_as_spec(spec_user)]
    pub fn user(self) -> (yes: bool)
        ensures
            yes == self.spec_user(),
    {
        self.bits & PERM_U != 0
    }
}

/// The permission that a mapping request with port bits `port` asks for: the
/// three low bits of the port are read, write and execute, each moved up by
/// one place, and the user bit is always added.
pub open spec fn port_permission(port: usize) -> MapPermission {
    MapPermission { bits: (2 * port + 16) as u8 }
}

/// Whether `port` names at least one of read, write and execute, and
/// nothing else.
pub open spec fn port_valid(port: usize) -> bool {
    1 <= port <= 7
}

/// Tests the port bits of a mapping request.
pub fn check_port(port: usize) -> (ok: bool)
    ensures
        ok == port_valid(port),
{
    assert((port & !7 != 0 || port & 7 == 0) <==> !(1 <= port <= 7)) by (bit_vector);
    !(port & !7 != 0 || port & 7 == 0)
}

/// Builds the permission of a mapping request from its port bits.
pub fn permission_of_port(port: usize) -> (perm: MapPermission)
    requires
        port_valid(port),
    ensures
        perm == port_permission(port),
        perm.well_formed(),
{
    let low: u8 = port as u8;
    assert(1 <= low <= 7 ==> (low << 1u8) & !0x1eu8 == 0 && ((low << 1u8) | 0x10) == 2 * low + 16
        && ((low << 1u8) | 0x10) & !0x1eu8 == 0) by (bit_vector);
    let requested = MapPermission::from_bits(low << 1).unwrap();
    requested.union(MapPermission { bits: PERM_U })
}

/// What a valid port asks for, flag by flag: bit 0 is read, bit 1 is write,
/// bit 2 is execute, and the user flag is always set.
pub proof fn lemma_port_permission_flags(port: usize)
    requires
        port_valid(port),
    ensures
        port_permission(port).well_formed(),
        port_permission(port).spec_readable() == (port % 2 == 1),
        port_permission(port).spec_writable() == ((port / 2) % 2 == 1),
        port_permission(port).spec_executable() == ((port / 4) % 2 == 1),
        port_permission(port).spec_user(),
{
    let b: u8 = (2 * port + 16) as u8;
    let p: u8 = port as u8;
    assert(b == 2 * p + 16);
    assert(1 <= p <= 7 && b == 2 * p + 16 ==> {
        &&& b & !0x1eu8 == 0
        &&& (b & 0x02u8 != 0) == (p % 2 == 1)
        &&& (b & 0x04u8 != 0) == ((p / 2) % 2 == 1)
        &&& (b & 0x08u8 != 0) == ((p / 4) % 2 == 1)
        &&& b & 0x10u8 != 0
    }) by (bit_vector);
}

} // verus!
