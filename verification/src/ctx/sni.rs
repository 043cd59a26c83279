//! The TLS server name a client asked for.
use vstd::prelude::*;
use crate::text::{ascii_lower_seq, to_ascii_lowercase};

verus! {

/// The server name indication of the downstream TLS handshake.
#[derive(Clone, Debug)]
pub struct DownstreamSni(String);

impl View for DownstreamSni {
    type V = Seq<char>;

    closed spec fn view(&self) -> Seq<char> {
        self.0@
    }
}

impl DownstreamSni {
    pub fn new(host: String) -> (s: Self)
        ensures
            s@ == host@,
    {
        DownstreamSni(host)
    }

    /// The name in ASCII lowercase.
    pub fn to_ascii_lowercase(&self) -> (s: String)
        ensures
            s@ == ascii_lower_seq(self@),
    {
        to_ascii_lowercase(self.0.as_str())
    }
}

} // verus!
