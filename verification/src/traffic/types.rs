//! Identifiers and health flags.
use vstd::prelude::*;

verus! {

/// The name of a service.
#[derive(Debug, Clone, PartialEq, Eq, Hash)]
pub struct ServiceId(pub String);

impl View for ServiceId {
    type V = Seq<char>;

    open spec fn view(&self) -> Seq<char> {
        self.0@
    }
}

impl ServiceId {
    pub fn new(id: String) -> (s: Self)
        ensures
            s@ == id@,
    {
        ServiceId(id)
    }

    pub fn as_str(&self) -> (s: &str)
        ensures
            s@ == self@,
    {
        self.0.as_str()
    }

    /// A copy of the name.
    pub fn copy_key(&self) -> (r: Self)
        ensures
            r@ == self@,
    {
        ServiceId(self.0.clone())
    }

    /// Same service name.
    pub fn same_as(&self, other: &ServiceId) -> (r: bool)
        ensures
            r == (self@ == other@),
    {
        self.0 == other.0
    }
}

/// The identity of one upstream, stable across restarts.
#[derive(Debug, Clone, Copy, PartialEq, Eq, Hash, PartialOrd, Ord, Structural)]
pub struct UpstreamId(pub u32);

impl UpstreamId {
    pub fn new(id: u32) -> (u: Self)
        ensures
            u.0 == id,
    {
        UpstreamId(id)
    }

    pub fn as_u32(&self) -> (v: u32)
        ensures
            v == self.0,
    {
        self.0
    }
}

/// Whether an upstream may receive requests.
#[derive(Debug, Clone, Copy, PartialEq, Eq, Structural)]
pub struct HealthStatus {
    pub healthy: bool,
}

} // verus!
