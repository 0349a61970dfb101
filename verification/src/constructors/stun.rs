//! The STUN exchange by which a node learns its public address: the binding
//! request it sends and the reading of the XOR-MAPPED-ADDRESS attribute in
//! the answer.
use vstd::prelude::*;
use byteorder::{BigEndian, ByteOrder};
use crate::constructors::node::SocketAddress;

verus! {

/// The big-endian number in two bytes of `b` starting at `at`.
pub open spec fn be16(b: Seq<u8>, at: int) -> u16 {
    (b[at] as int * 256 + b[at + 1] as int) as u16
}

/// The big-endian number in four bytes of `b` starting at `at`.
pub open spec fn be32(b: Seq<u8>, at: int) -> u32 {
    (b[at] as int * 16777216 + b[at + 1] as int * 65536 + b[at + 2] as int * 256 + b[at + 3] as int) as u32
}

/// `BigEndian::read_u16` on `buf[at..]`: the first two bytes there, most
/// significant first.
#[verifier::external_body]
fn read_u16_at(buf: &[u8], at: usize) -> (n: u16)
    requires
        at + 2 <= buf@.len(),
    ensures
        n == be16(buf@, at as int),
{
    BigEndian::read_u16(&buf[at..])
}

/// `BigEndian::read_u32` on `buf[at..]`: the first four bytes there, most
/// significant first.
#[verifier::external_body]
fn read_u32_at(buf: &[u8], at: usize) -> (n: u32)
    requires
        at + 4 <= buf@.len(),
    ensures
        n == be32(buf@, at as int),
{
    BigEndian::read_u32(&buf[at..])
}

/// `BigEndian::write_u16` on `buf[at..]`: writes `n` into two bytes there,
/// most significant first, and leaves the other bytes alone.
#[verifier::external_body]
fn write_u16_at(buf: &mut Vec<u8>, at: usize, n: u16)
    requires
        at + 2 <= old(buf)@.len(),
    ensures
        final(buf)@ == old(buf)@.update(at as int, (n / 256) as u8).update(at + 1, (n % 256) as u8),
{
    BigEndian::write_u16(&mut buf[at..], n)
}

/// `BigEndian::write_u32` on `buf[at..]`: writes `n` into four bytes
/// there, most significant first, and leaves the other bytes alone.
#[verifier::external_body]
fn write_u32_at(buf: &mut Vec<u8>, at: usize, n: u32)
    requires
        at + 4 <= old(buf)@.len(),
    ensures
        final(buf)@ == old(buf)@.update(at as int, (n / 16777216) as u8).update(
            at + 1,
            ((n / 65536) % 256) as u8,
        ).update(at + 2, ((n / 256) % 256) as u8).update(at + 3, (n % 256) as u8),
{
    BigEndian::write_u32(&mut buf[at..], n)
}

/// The magic cookie of STUN messages.
pub open spec fn magic_cookie() -> u32 {
    0x2112A442
}

/// The binding request a node sends: message type 1, length 0, the magic
/// cookie, and the transaction identifier `STUN-ID-NODE`.
pub open spec fn stun_request_bytes() -> Seq<u8> {
    seq![
        0x00u8, 0x01u8, 0x00u8, 0x00u8, 0x21u8, 0x12u8, 0xA4u8, 0x42u8,
        83u8, 84u8, 85u8, 78u8, 45u8, 73u8, 68u8, 45u8, 78u8, 79u8, 68u8, 69u8,
    ]
}

/// Builds the binding request.
pub fn stun_request() -> (p: Vec<u8>)
    ensures
        p@ == stun_request_bytes(),
{
    let mut packet: Vec<u8> = vec![0u8; 20];
    write_u16_at(&mut packet, 0, 0x0001);
    write_u32_at(&mut packet, 4, 0x2112A442);
    let id: [u8; 12] = [83u8, 84u8, 85u8, 78u8, 45u8, 73u8, 68u8, 45u8, 78u8, 79u8, 68u8, 69u8];
    let mut k: usize = 0;
    while k < 12
        invariant
            packet@.len() == 20,
            k <= 12,
            forall|j: int| 0 <= j < 8 ==> #[trigger] packet@[j] == stun_request_bytes()[j],
            forall|j: int| 8 <= j < 8 + k ==> #[trigger] packet@[j] == stun_request_bytes()[j],
            id@ == stun_request_bytes().subrange(8, 20),
        decreases 12 - k,
    {
        packet.set(8 + k, id[k]);
        k = k + 1;
    }
    assert(packet@ =~= stun_request_bytes());
    packet
}

/// Where the scan of an answer's attributes ends.
pub enum StunScan {
    /// The XOR-MAPPED-ADDRESS attribute's value starts at this index.
    Found(int),
    NotFound,
}

/// Scans the attributes of an answer of `len` bytes from index `pos`:
/// each has a two-byte type and a two-byte length; the scan stops at the
/// first of type 0x0020 (XOR-MAPPED-ADDRESS).
pub open spec fn stun_scan(buf: Seq<u8>, len: int, pos: int) -> StunScan
    decreases (if pos <= len {
        len - pos
    } else {
        0
    }),
{
    if pos + 4 > len {
        StunScan::NotFound
    } else if be16(buf, pos) == 0x0020 {
        StunScan::Found(pos + 4)
    } else {
        stun_scan(buf, len, pos + 4 + be16(buf, pos + 2))
    }
}

/// Why an answer gives no address.
#[derive(Clone, Copy, Debug, PartialEq, Eq, Structural)]
pub enum StunError {
    /// No XOR-MAPPED-ADDRESS attribute in the answer.
    NoMappedAddress,
}

/// The address in an XOR-MAPPED-ADDRESS value starting at `v`: the port is
/// XORed with the top half of the magic cookie, the address with all of it.
pub open spec fn mapped_address(buf: Seq<u8>, v: int) -> SocketAddress {
    SocketAddress { ip: be32(buf, v + 4) ^ magic_cookie(), port: be16(buf, v + 2) ^ 0x2112u16 }
}

/// The answer cannot be read: its mapped-address value runs past the end
/// of the receive buffer.
pub open spec fn stun_fails(buf: Seq<u8>, len: int) -> bool {
    stun_scan(buf, len, 20) matches StunScan::Found(v) && v + 8 > buf.len()
}

/// Whether an answer cannot be read (see `stun_fails`): the scan finds the
/// mapped-address attribute, but its value runs past the buffer.
pub fn stun_would_fail(buf: &[u8], len: usize) -> (b: bool)
    requires
        len <= buf@.len() <= isize::MAX,
    ensures
        b == stun_fails(buf@, len as int),
{
    let mut pos: usize = 20;
    while pos + 4 <= len
        invariant
            len <= buf@.len() <= isize::MAX,
            20 <= pos <= len + 65540,
            stun_scan(buf@, len as int, 20) == stun_scan(buf@, len as int, pos as int),
        decreases len + 65540 - pos,
    {
        let attr_type = read_u16_at(buf, pos);
        let attr_len = read_u16_at(buf, pos + 2) as usize;
        pos = pos + 4;
        if attr_type == 0x0020 {
            return pos + 8 > buf.len();
        }
        pos = pos + attr_len;
    }
    false
}

/// Reads the public address from an answer: `buf` is the receive buffer
/// and `len` the number of bytes received; the attributes start after the
/// 20-byte header.
pub fn parse_stun_response(buf: &[u8], len: usize) -> (r: Result<SocketAddress, StunError>)
    requires
        len <= buf@.len() <= isize::MAX,
        !stun_fails(buf@, len as int),
    ensures
        match stun_scan(buf@, len as int, 20) {
            StunScan::Found(v) => r == Ok::<SocketAddress, StunError>(mapped_address(buf@, v)),
            StunScan::NotFound => r == Err::<SocketAddress, StunError>(StunError::NoMappedAddress),
        },
{
    let mut pos: usize = 20;
    while pos + 4 <= len
        invariant
            len <= buf@.len() <= isize::MAX,
            20 <= pos <= len + 65540,
            stun_scan(buf@, len as int, 20) == stun_scan(buf@, len as int, pos as int),
            !stun_fails(buf@, len as int),
        decreases len + 65540 - pos,
    {
        let attr_type = read_u16_at(buf, pos);
        let attr_len = read_u16_at(buf, pos + 2) as usize;
        pos = pos + 4;
        if attr_type == 0x0020 {
            let x_port = read_u16_at(buf, pos + 2);
            let x_ip = read_u32_at(buf, pos + 4);
            let port: u16 = x_port ^ 0x2112;
            let ip: u32 = x_ip ^ 0x2112A442;
            return Ok(SocketAddress { ip, port });
        }
        pos = pos + attr_len;
    }
    Err(StunError::NoMappedAddress)
}

/// The scan stops at the first attribute of type XOR-MAPPED-ADDRESS,
/// wherever it stands: an attribute of that type whose header lies within
/// the answer is the one whose value is read.
pub proof fn lemma_scan_stops_at_mapped_address(buf: Seq<u8>, len: int, pos: int)
    requires
        pos + 4 <= len,
        be16(buf, pos) == 0x0020,
    ensures
        stun_scan(buf, len, pos) == StunScan::Found(pos + 4),
{
}

/// An answer whose first attribute, right after the 20-byte header, is
/// XOR-MAPPED-ADDRESS (the usual binding response) can be read, and gives
/// the port XORed with 0x2112 and the address XORed with the magic cookie.
pub proof fn lemma_first_attribute_mapped(buf: Seq<u8>, len: int)
    requires
        24 <= len <= buf.len(),
        32 <= buf.len(),
        be16(buf, 20) == 0x0020,
    ensures
        !stun_fails(buf, len),
        stun_scan(buf, len, 20) matches StunScan::Found(v) && mapped_address(buf, v) == (SocketAddress {
            ip: be32(buf, 28) ^ 0x2112A442u32,
            port: be16(buf, 26) ^ 0x2112u16,
        }),
{
}

} // verus!
