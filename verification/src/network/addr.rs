//! Transport addresses.

use crate::id::Key;
use std::collections::hash_map::DefaultHasher;
use std::hash::Hasher;
use vstd::prelude::*;

verus! {

/// An IP address of either family, its octets in network order.
#[derive(Clone, Copy, Debug, PartialEq, Eq, Hash)]
pub enum Ip {
    /// An IPv4 address.
    V4([u8; 4]),
    /// An IPv6 address.
    V6([u8; 16]),
}

/// A transport address: an IP address and a port.
#[derive(Clone, Copy, Debug, PartialEq, Eq, Hash)]
pub struct Addr {
    pub ip: Ip,
    pub port: u16,
}

/// The tag that precedes the octets of an IPv4 address.
pub const TAG_V4: u8 = 4;

/// The tag that precedes the octets of an IPv6 address.
pub const TAG_V6: u8 = 6;

/// The two octets of a port, the high one first.
pub open spec fn port_octets(port: u16) -> Seq<u8> {
    seq![(port / 256) as u8, (port % 256) as u8]
}

impl Ip {
    /// The octets that stand for the IP address: the tag of its family, then
    /// its own octets.
    pub open spec fn octets(&self) -> Seq<u8> {
        match *self {
            Ip::V4(a) => seq![TAG_V4] + a@,
            Ip::V6(a) => seq![TAG_V6] + a@,
        }
    }
}

impl Addr {
    /// The octets that stand for the address: those of the IP address, then
    /// the port in network order.
    pub open spec fn octets(&self) -> Seq<u8> {
        self.ip.octets() + port_octets(self.port)
    }

    /// The address with the given IP address and port.
    pub fn new(ip: Ip, port: u16) -> (r: Self)
        ensures
            r.ip == ip,
            r.port == port,
    {
        Self { ip, port }
    }

    /// Appends the octets of the address to `out`.
    pub fn write_octets(&self, out: &mut Vec<u8>)
        ensures
            final(out)@ == old(out)@ + self.octets(),
    {
        let ghost start = out@;
        match &self.ip {
            Ip::V4(a) => {
                out.push(TAG_V4);
                let mut i: usize = 0;
                while i < 4
                    invariant
                        i <= 4,
                        out@ == start + seq![TAG_V4] + a@.take(i as int),
                    decreases 4 - i,
                {
                    out.push(a[i]);
                    assert(a@.take(i as int + 1) =~= a@.take(i as int).push(a@[i as int]));
                    i = i + 1;
                }
                assert(a@.take(4) =~= a@);
            },
            Ip::V6(a) => {
                out.push(TAG_V6);
                let mut i: usize = 0;
                while i < 16
                    invariant
                        i <= 16,
                        out@ == start + seq![TAG_V6] + a@.take(i as int),
                    decreases 16 - i,
                {
                    out.push(a[i]);
                    assert(a@.take(i as int + 1) =~= a@.take(i as int).push(a@[i as int]));
                    i = i + 1;
                }
                assert(a@.take(16) =~= a@);
            },
        }
        out.push((self.port / 256) as u8);
        out.push((self.port % 256) as u8);
        assert(out@ =~= start + self.octets());
    }
}

impl Key for Addr {
    /// An address is hashed as the octets that stand for it.
    open spec fn key_octets(&self) -> Seq<u8> {
        self.octets()
    }

    fn feed(&self, hasher: &mut DefaultHasher) {
        let mut octets: Vec<u8> = Vec::new();
        self.write_octets(&mut octets);
        assert(octets@ =~= self.octets());
        hasher.write(octets.as_slice());
    }
}

} // verus!
