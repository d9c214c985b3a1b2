//! Addresses as SOCKS5 writes them: a type byte, the address and the port.

use crate::net::{ip_octets, put_ip, IpAddr, Target};
use crate::wire::{be_bytes, be_bytes_len, put_bytes, put_u16};
use vstd::prelude::*;
use vstd::utf8::encode_utf8;

verus! {

pub const SOCKS5_ATYP_IPV4: u8 = 1;

pub const SOCKS5_ATYP_DOMAIN: u8 = 3;

pub const SOCKS5_ATYP_IPV6: u8 = 4;

/// Why an address cannot be read.
#[derive(Clone, Copy, Debug, PartialEq, Eq, Structural)]
pub enum SocksAddrError {
    UnknownType(u8),
    Truncated,
}

/// The address of a target. The length of a name is kept in one byte.
pub open spec fn socks_addr(target: Target) -> Seq<u8> {
    match target {
        Target::Socket(addr) => match addr.ip {
            IpAddr::V4(_) => seq![SOCKS5_ATYP_IPV4] + ip_octets(addr.ip) + be_bytes(
                addr.port as nat,
                2,
            ),
            IpAddr::V6(_) => seq![SOCKS5_ATYP_IPV6] + ip_octets(addr.ip) + be_bytes(
                addr.port as nat,
                2,
            ),
        },
        Target::Domain(host, port) => {
            let name = encode_utf8(host@);
            seq![SOCKS5_ATYP_DOMAIN, (name.len() % 256) as u8] + name + be_bytes(port as nat, 2)
        },
    }
}

/// Whether the address of a target can be read back: a name must not be longer than its
/// length byte can say.
pub open spec fn readable_addr(target: Target) -> bool {
    match target {
        Target::Socket(_) => true,
        Target::Domain(host, _) => encode_utf8(host@).len() <= 255,
    }
}

/// The length of the address at the start of `s`, type and port included.
pub open spec fn socks_addr_len(s: Seq<u8>) -> Result<nat, SocksAddrError> {
    if s.len() < 1 {
        Err(SocksAddrError::Truncated)
    } else if s[0] == SOCKS5_ATYP_IPV4 {
        if s.len() < 7 {
            Err(SocksAddrError::Truncated)
        } else {
            Ok(7)
        }
    } else if s[0] == SOCKS5_ATYP_IPV6 {
        if s.len() < 19 {
            Err(SocksAddrError::Truncated)
        } else {
            Ok(19)
        }
    } else if s[0] == SOCKS5_ATYP_DOMAIN {
        if s.len() < 2 || s.len() < 4 + s[1] {
            Err(SocksAddrError::Truncated)
        } else {
            Ok(4 + s[1] as nat)
        }
    } else {
        Err(SocksAddrError::UnknownType(s[0]))
    }
}

/// The address of a target is read back to its end, whatever follows it.
pub proof fn socks_addr_read_back(target: Target, rest: Seq<u8>)
    requires
        readable_addr(target),
    ensures
        socks_addr_len(socks_addr(target) + rest) == Ok::<nat, SocksAddrError>(
            socks_addr(target).len(),
        ),
        (socks_addr(target) + rest).skip(socks_addr(target).len() as int) == rest,
{
    let a = socks_addr(target);
    match target {
        Target::Socket(addr) => {
            be_bytes_len(addr.port as nat, 2);
            match addr.ip {
                IpAddr::V4(v) => be_bytes_len(v as nat, 4),
                IpAddr::V6(v) => be_bytes_len(v as nat, 16),
            }
        },
        Target::Domain(host, port) => {
            be_bytes_len(port as nat, 2);
            assert((a + rest)[1] == (encode_utf8(host@).len() % 256) as u8);
        },
    }
    assert((a + rest).skip(a.len() as int) =~= rest);
}

/// Appends the address of a target.
pub fn put_socks_addr(out: &mut Vec<u8>, target: &Target)
    ensures
        final(out)@ == old(out)@ + socks_addr(*target),
{
    match target {
        Target::Socket(addr) => {
            match addr.ip {
                IpAddr::V4(_) => out.push(SOCKS5_ATYP_IPV4),
                IpAddr::V6(_) => out.push(SOCKS5_ATYP_IPV6),
            }
            put_ip(out, &addr.ip);
            put_u16(out, addr.port);
        },
        Target::Domain(host, port) => {
            let name: &[u8] = host.as_str().as_bytes();
            out.push(SOCKS5_ATYP_DOMAIN);
            out.push((name.len() % 256) as u8);
            put_bytes(out, name);
            put_u16(out, *port);
        },
    }
    assert(out@ =~= old(out)@ + socks_addr(*target));
}

/// The address of a target.
pub fn encode_target(target: &Target) -> (out: Vec<u8>)
    ensures
        out@ == socks_addr(*target),
{
    let mut out: Vec<u8> = Vec::new();
    put_socks_addr(&mut out, target);
    assert(out@ =~= socks_addr(*target));
    out
}

/// Measures the address at `at`.
pub fn measure_socks_addr(buf: &[u8], at: usize) -> (res: Result<usize, SocksAddrError>)
    requires
        at <= buf@.len(),
    ensures
        match (res, socks_addr_len(buf@.skip(at as int))) {
            (Ok(a), Ok(b)) => a as nat == b && at + a <= buf@.len(),
            (Err(e), Err(f)) => e == f,
            _ => false,
        },
{
    let ghost s = buf@.skip(at as int);
    let left: usize = buf.len() - at;
    if left < 1 {
        return Err(SocksAddrError::Truncated);
    }
    let kind: u8 = buf[at];
    assert(s[0] == kind);
    let need: usize = if kind == SOCKS5_ATYP_IPV4 {
        7
    } else if kind == SOCKS5_ATYP_IPV6 {
        19
    } else if kind == SOCKS5_ATYP_DOMAIN {
        if left < 2 {
            return Err(SocksAddrError::Truncated);
        }
        assert(s[1] == buf@[at + 1]);
        4 + buf[at + 1] as usize
    } else {
        return Err(SocksAddrError::UnknownType(kind));
    };
    if left < need {
        return Err(SocksAddrError::Truncated);
    }
    Ok(need)
}

} // verus!
