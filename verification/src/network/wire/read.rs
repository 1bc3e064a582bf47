//! Reading values off the wire.

use crate::id::Id;
use crate::network::addr::{Addr, Ip, TAG_V4, TAG_V6};
use crate::network::peer::Peer;
use crate::network::peer_info::PeerInfo;
use crate::network::routing::routing_table_row::RoutingTableRow;
use crate::network::wire::{
    parse_addr, parse_id, parse_info, parse_ip, parse_payload, parse_peer, parse_peer_list,
    parse_peers, parse_port, parse_slot, parse_slots, parse_u64, parse_u8, Parsed, ABSENT,
    PRESENT,
};
use vstd::bytes::u64_from_le_bytes;
use vstd::prelude::*;
use vstd::slice::{slice_subrange, slice_to_vec};

verus! {

/// Whether what was read at `pos` of `data` is what `expected` says the
/// octets from there on start with.
pub open spec fn reads<T>(data: Seq<u8>, pos: int, got: Option<(T, usize)>, expected: Parsed<T>) -> bool {
    match got {
        Some((v, next)) => pos <= next <= data.len() && expected == Some(
            (v, data.skip(next as int)),
        ),
        None => expected is None,
    }
}

/// Reads one octet at `pos`.
pub(crate) fn read_u8(data: &[u8], pos: usize) -> (r: Option<(u8, usize)>)
    requires
        pos <= data@.len(),
    ensures
        reads(data@, pos as int, r, parse_u8(data@.skip(pos as int))),
{
    if pos < data.len() {
        assert(data@.skip(pos as int).skip(1) =~= data@.skip(pos as int + 1));
        Some((data[pos], pos + 1))
    } else {
        None
    }
}

/// Reads a 64-bit number at `pos`.
pub(crate) fn read_u64(data: &[u8], pos: usize) -> (r: Option<(u64, usize)>)
    requires
        pos <= data@.len(),
    ensures
        reads(data@, pos as int, r, parse_u64(data@.skip(pos as int))),
{
    if data.len() - pos >= 8 {
        let v: u64 = u64_from_le_bytes(slice_subrange(data, pos, pos + 8));
        assert(data@.skip(pos as int).take(8) =~= data@.subrange(pos as int, pos as int + 8));
        assert(data@.skip(pos as int).skip(8) =~= data@.skip(pos as int + 8));
        Some((v, pos + 8))
    } else {
        None
    }
}

/// Reads an identifier at `pos`.
pub(crate) fn read_id(data: &[u8], pos: usize) -> (r: Option<(Id, usize)>)
    requires
        pos <= data@.len(),
    ensures
        reads(data@, pos as int, r, parse_id(data@.skip(pos as int))),
{
    if data.len() - pos >= 8 {
        let id = Id::new(
            [
                data[pos],
                data[pos + 1],
                data[pos + 2],
                data[pos + 3],
                data[pos + 4],
                data[pos + 5],
                data[pos + 6],
                data[pos + 7],
            ],
        );
        proof {
            let s = data@.skip(pos as int);
            assert(id@ =~= s.take(8));
            id.lemma_from_own_octets();
            assert(s.skip(8) =~= data@.skip(pos as int + 8));
        }
        Some((id, pos + 8))
    } else {
        None
    }
}

/// Reads an IP address at `pos`.
pub(crate) fn read_ip(data: &[u8], pos: usize) -> (r: Option<(Ip, usize)>)
    requires
        pos <= data@.len(),
    ensures
        reads(data@, pos as int, r, parse_ip(data@.skip(pos as int))),
{
    let ghost s = data@.skip(pos as int);
    if data.len() - pos >= 5 && data[pos] == TAG_V4 {
        let octets: [u8; 4] = [data[pos + 1], data[pos + 2], data[pos + 3], data[pos + 4]];
        proof {
            let expected: [u8; 4] = [s[1], s[2], s[3], s[4]];
            assert(octets =~= expected);
            assert(s.skip(5) =~= data@.skip(pos as int + 5));
        }
        Some((Ip::V4(octets), pos + 5))
    } else if data.len() - pos >= 17 && data[pos] == TAG_V6 {
        let octets: [u8; 16] = [data[pos + 1], data[pos + 2], data[pos + 3], data[pos + 4], data[pos + 5], data[pos + 6], data[pos + 7], data[pos + 8], data[pos + 9], data[pos + 10], data[pos + 11], data[pos + 12], data[pos + 13], data[pos + 14], data[pos + 15], data[pos + 16]];
        proof {
            let expected: [u8; 16] = [s[1], s[2], s[3], s[4], s[5], s[6], s[7], s[8], s[9], s[10], s[11], s[12], s[13], s[14], s[15], s[16]];
            assert(octets =~= expected);
            assert(s.skip(17) =~= data@.skip(pos as int + 17));
        }
        Some((Ip::V6(octets), pos + 17))
    } else {
        None
    }
}

/// Reads a port at `pos`.
pub(crate) fn read_port(data: &[u8], pos: usize) -> (r: Option<(u16, usize)>)
    requires
        pos <= data@.len(),
    ensures
        reads(data@, pos as int, r, parse_port(data@.skip(pos as int))),
{
    if data.len() - pos >= 2 {
        let port: u16 = data[pos] as u16 * 256 + data[pos + 1] as u16;
        assert(data@.skip(pos as int).skip(2) =~= data@.skip(pos as int + 2));
        Some((port, pos + 2))
    } else {
        None
    }
}

/// Reads an address at `pos`.
pub(crate) fn read_addr(data: &[u8], pos: usize) -> (r: Option<(Addr, usize)>)
    requires
        pos <= data@.len(),
    ensures
        reads(data@, pos as int, r, parse_addr(data@.skip(pos as int))),
{
    match read_ip(data, pos) {
        Some((ip, after_ip)) => match read_port(data, after_ip) {
            Some((port, next)) => Some((Addr { ip, port }, next)),
            None => None,
        },
        None => None,
    }
}

/// Reads what is known of a peer at `pos`.
pub(crate) fn read_info(data: &[u8], pos: usize) -> (r: Option<(PeerInfo, usize)>)
    requires
        pos <= data@.len(),
    ensures
        reads(data@, pos as int, r, parse_info(data@.skip(pos as int))),
{
    if pos >= data.len() {
        return None;
    }
    assert(data@.skip(pos as int).skip(1) =~= data@.skip(pos as int + 1));
    if data[pos] == ABSENT {
        Some((PeerInfo { physical_distance_index: None }, pos + 1))
    } else if data[pos] == PRESENT {
        match read_u64(data, pos + 1) {
            Some((v, next)) => Some((PeerInfo { physical_distance_index: Some(v) }, next)),
            None => None,
        }
    } else {
        None
    }
}

/// Reads a peer at `pos`.
pub(crate) fn read_peer(data: &[u8], pos: usize) -> (r: Option<(Peer, usize)>)
    requires
        pos <= data@.len(),
    ensures
        reads(data@, pos as int, r, parse_peer(data@.skip(pos as int))),
{
    match read_id(data, pos) {
        Some((id, after_id)) => match read_addr(data, after_id) {
            Some((addr, after_addr)) => match read_info(data, after_addr) {
                Some((info, next)) => Some((Peer { id, addr, info }, next)),
                None => None,
            },
            None => None,
        },
        None => None,
    }
}

/// Reads a slot at `pos`.
pub(crate) fn read_slot(data: &[u8], pos: usize) -> (r: Option<(Option<Peer>, usize)>)
    requires
        pos <= data@.len(),
    ensures
        reads(data@, pos as int, r, parse_slot(data@.skip(pos as int))),
{
    if pos >= data.len() {
        return None;
    }
    assert(data@.skip(pos as int).skip(1) =~= data@.skip(pos as int + 1));
    if data[pos] == ABSENT {
        Some((None, pos + 1))
    } else if data[pos] == PRESENT {
        match read_peer(data, pos + 1) {
            Some((p, next)) => Some((Some(p), next)),
            None => None,
        }
    } else {
        None
    }
}

/// Reads the sixteen slots of a row at `pos`.
pub(crate) fn read_row(data: &[u8], pos: usize) -> (r: Option<(RoutingTableRow, usize)>)
    requires
        pos <= data@.len(),
    ensures
        match r {
            Some((row, next)) => pos <= next <= data@.len() && parse_slots(
                data@.skip(pos as int),
                16,
            ) == Some((row@, data@.skip(next as int))),
            None => parse_slots(data@.skip(pos as int), 16) is None,
        },
{
    let mut row = RoutingTableRow::empty();
    let mut at: usize = pos;
    let mut k: u8 = 0;
    proof {
        row.lemma_len();
        let whole = parse_slots(data@.skip(pos as int), 16);
        if whole is Some {
            let (slots, rest) = whole.unwrap();
            assert(row@.take(0) + slots =~= slots);
        }
    }
    while k < 16
        invariant
            k <= 16,
            pos <= at <= data@.len(),
            row@.len() == 16,
            parse_slots(data@.skip(pos as int), 16) == match parse_slots(
                data@.skip(at as int),
                (16 - k) as nat,
            ) {
                Some((tail, rest)) => Some((row@.take(k as int) + tail, rest)),
                None => None,
            },
        decreases 16 - k,
    {
        let ghost before = row@;
        match read_slot(data, at) {
            Some((slot, next)) => {
                row.set(k, slot);
                proof {
                    let later = parse_slots(data@.skip(next as int), (16 - k - 1) as nat);
                    if later is Some {
                        let (tail, rest) = later.unwrap();
                        assert(before.take(k as int) + (seq![slot] + tail) =~= row@.take(
                            k as int + 1,
                        ) + tail);
                    }
                }
                at = next;
            },
            None => {
                return None;
            },
        }
        k = k + 1;
    }
    proof {
        assert(row@.take(16) + Seq::<Option<Peer>>::empty() =~= row@);
    }
    Some((row, at))
}

/// Reads a list of peers at `pos`: their number, then that many peers.
pub(crate) fn read_peer_list(data: &[u8], pos: usize) -> (r: Option<(Vec<Peer>, usize)>)
    requires
        pos <= data@.len(),
    ensures
        match r {
            Some((peers, next)) => pos <= next <= data@.len() && parse_peer_list(
                data@.skip(pos as int),
            ) == Some((peers@, data@.skip(next as int))),
            None => parse_peer_list(data@.skip(pos as int)) is None,
        },
{
    let (count, start) = match read_u64(data, pos) {
        Some(counted) => counted,
        None => {
            return None;
        },
    };
    let mut peers: Vec<Peer> = Vec::new();
    let mut at: usize = start;
    let mut k: u64 = 0;
    proof {
        let whole = parse_peers(data@.skip(start as int), count as nat);
        if whole is Some {
            let (all, rest) = whole.unwrap();
            assert(peers@ + all =~= all);
        }
    }
    while k < count
        invariant
            k <= count,
            pos <= start <= at <= data@.len(),
            peers@.len() == k,
            parse_u64(data@.skip(pos as int)) == Some((count, data@.skip(start as int))),
            parse_peers(data@.skip(start as int), count as nat) == match parse_peers(
                data@.skip(at as int),
                (count - k) as nat,
            ) {
                Some((tail, rest)) => Some((peers@ + tail, rest)),
                None => None,
            },
        decreases count - k,
    {
        let ghost before = peers@;
        match read_peer(data, at) {
            Some((peer, next)) => {
                peers.push(peer);
                proof {
                    let later = parse_peers(data@.skip(next as int), (count - k - 1) as nat);
                    if later is Some {
                        let (tail, rest) = later.unwrap();
                        assert(before + (seq![peer] + tail) =~= peers@ + tail);
                    }
                }
                at = next;
            },
            None => {
                return None;
            },
        }
        k = k + 1;
    }
    proof {
        assert(peers@ + Seq::<Peer>::empty() =~= peers@);
    }
    Some((peers, at))
}

/// Reads a payload at `pos`: its length, then that many octets.
pub(crate) fn read_payload(data: &[u8], pos: usize) -> (r: Option<(Vec<u8>, usize)>)
    requires
        pos <= data@.len(),
    ensures
        match r {
            Some((payload, next)) => pos <= next <= data@.len() && parse_payload(
                data@.skip(pos as int),
            ) == Some((payload@, data@.skip(next as int))),
            None => parse_payload(data@.skip(pos as int)) is None,
        },
{
    match read_u64(data, pos) {
        Some((count, start)) => {
            if count <= (data.len() - start) as u64 {
                let end: usize = start + count as usize;
                let payload = slice_to_vec(slice_subrange(data, start, end));
                proof {
                    let after = data@.skip(start as int);
                    assert(after.take(count as int) =~= data@.subrange(start as int, end as int));
                    assert(after.skip(count as int) =~= data@.skip(end as int));
                }
                Some((payload, end))
            } else {
                None
            }
        },
        None => None,
    }
}

} // verus!
