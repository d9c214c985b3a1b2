//! What a SOCKS proxy reads, and what its answers lead to.

use crate::laws::bytes::{four, network_order, network_value, two};
use crate::net::{IpAddr, SocketAddr, Target};
use crate::socks::{
    bound_addr, credentials, method_offer, next_step, phase_len, request_bytes, socks4_bytes,
    text_bytes, udp_data_at, udp_datagram, Phase, Purpose, SocksError, SocksUdpError,
    SOCKS4_REP_SUCCESS,
};
use crate::socks_addr::{readable_addr, socks_addr, socks_addr_len, SocksAddrError};
use crate::wire::{be_bytes, be_value};
use vstd::prelude::*;
use vstd::utf8::encode_utf8;

verus! {

/// The offer has the version 5, the number of its methods and the methods themselves. To go without
/// authentication is always among them, and a user name with a password exactly where there is a
/// user name. No other method is offered, and none twice.
pub proof fn offer_names_the_methods(has_user: bool)
    ensures
        ({
            let offer = method_offer(has_user);
            let methods = offer.skip(2);
            &&& offer.len() >= 2
            &&& offer[0] == 5
            &&& offer[1] == methods.len()
            &&& methods.contains(0)
            &&& methods.contains(2) <==> has_user
            &&& forall|i: int| 0 <= i < methods.len() ==> methods[i] == 0 || methods[i] == 2
            &&& methods.no_duplicates()
        }),
{
    let methods = method_offer(has_user).skip(2);
    assert(methods[0] == 0);
    if has_user {
        assert(methods[1] == 2);
    }
}

/// A proxy reads the user name and the password out of the credentials: the version of the
/// sub-negotiation, and each text behind its length.
pub proof fn credentials_are_read(user: Seq<u8>, pass: Seq<u8>)
    requires
        user.len() <= 255,
        pass.len() <= 255,
    ensures
        ({
            let c = credentials(user, pass);
            let n = user.len() as int;
            &&& c.len() == 3 + user.len() + pass.len()
            &&& c[0] == 1
            &&& c[1] == user.len()
            &&& c.subrange(2, 2 + n) == user
            &&& c[2 + n] == pass.len()
            &&& c.skip(3 + n) == pass
        }),
{
    let c = credentials(user, pass);
    let n = user.len() as int;
    assert(c.subrange(2, 2 + n) =~= user);
    assert(c.skip(3 + n) =~= pass);
}

/// How an address is written: 1 and the four bytes of an IPv4 address, 4 and the sixteen of an IPv6
/// address, or 3, the length and the bytes of a name; and then the port.
pub proof fn address_is_read(target: Target)
    requires
        readable_addr(target),
    ensures
        ({
            let a = socks_addr(target);
            match target {
                Target::Socket(addr) => match addr.ip {
                    IpAddr::V4(v) => a == seq![1u8] + four(v as nat) + two(addr.port as nat),
                    IpAddr::V6(v) => a.len() == 19 && a[0] == 4 && be_value(a.subrange(1, 17)) == v
                        && a.skip(17) == two(addr.port as nat),
                },
                Target::Domain(host, port) => {
                    let name = encode_utf8(host@);
                    &&& a.len() == 4 + name.len()
                    &&& a[0] == 3
                    &&& a[1] == name.len()
                    &&& a.subrange(2, 2 + name.len() as int) == name
                    &&& a.skip(2 + name.len() as int) == two(port as nat)
                },
            }
        }),
{
    let a = socks_addr(target);
    match target {
        Target::Socket(addr) => {
            network_order(addr.port as nat);
            match addr.ip {
                IpAddr::V4(v) => {
                    network_order(v as nat);
                },
                IpAddr::V6(v) => {
                    crate::wire::be_bytes_len(v as nat, 16);
                    assert(crate::wire::byte_range(16) > u128::MAX) by {
                        reveal_with_fuel(crate::wire::byte_range, 17);
                    }
                    crate::wire::be_round_trip(v as nat, 16);
                    assert(a.subrange(1, 17) =~= be_bytes(v as nat, 16));
                    assert(a.skip(17) =~= two(addr.port as nat));
                },
            }
        },
        Target::Domain(host, port) => {
            let name = encode_utf8(host@);
            network_order(port as nat);
            assert(a.subrange(2, 2 + name.len() as int) =~= name);
            assert(a.skip(2 + name.len() as int) =~= two(port as nat));
        },
    }
}

/// How long an address is that is written so, and that no other type is known.
pub proof fn address_lengths(s: Seq<u8>)
    requires
        s.len() >= 1,
    ensures
        ({
            let n: int = if s[0] == 1 {
                7
            } else if s[0] == 4 {
                19
            } else if s[0] == 3 && s.len() >= 2 {
                4 + s[1]
            } else {
                2
            };
            match socks_addr_len(s) {
                Ok(m) => (s[0] == 1 || s[0] == 3 || s[0] == 4) && m == n && n <= s.len(),
                Err(SocksAddrError::Truncated) => (s[0] == 1 || s[0] == 3 || s[0] == 4) && s.len()
                    < n,
                Err(SocksAddrError::UnknownType(t)) => t == s[0] && t != 1 && t != 3 && t != 4,
            }
        }),
{
}

/// A request asks to connect, with the command 1, or for a relay of datagrams, with the command 3
/// and an address of zeros.
pub proof fn requests_name_the_command(purpose: Purpose)
    ensures
        match purpose {
            Purpose::Connect(target) => match request_bytes(purpose) {
                Ok(b) => readable_addr(target) && b == seq![5u8, 1u8, 0u8] + socks_addr(target),
                Err(e) => !readable_addr(target) && e == SocksError::DomainTooLong,
            },
            Purpose::UdpAssociate => request_bytes(purpose) == Ok::<Seq<u8>, SocksError>(
                seq![5u8, 3u8, 0u8, 1u8, 0u8, 0u8, 0u8, 0u8, 0u8, 0u8],
            ),
        },
{
    assert(seq![5u8, 3u8, 0u8, 1u8, 0u8, 0u8, 0u8, 0u8, 0u8, 0u8] =~= request_bytes(
        Purpose::UdpAssociate,
    )->Ok_0);
}

/// What the choice of a method leads to. The method 2 gets the credentials, 255 ends the handshake,
/// and with any other the request follows.
pub proof fn method_decides(
    purpose: Purpose,
    user: Option<String>,
    pass: Option<String>,
    r: Seq<u8>,
)
    requires
        r.len() == 2,
    ensures
        ({
            let next = next_step(purpose, user, pass, Phase::Method, r);
            let long = text_bytes(user).len() > 255 || text_bytes(pass).len() > 255;
            if r[0] != 5 {
                next == Err::<(Phase, Seq<u8>), SocksError>(SocksError::Version)
            } else if r[1] == 255 {
                next == Err::<(Phase, Seq<u8>), SocksError>(SocksError::NoAcceptableMethod)
            } else if r[1] == 2 && purpose is Connect && long {
                next == Err::<(Phase, Seq<u8>), SocksError>(SocksError::CredentialsTooLong)
            } else if r[1] == 2 {
                next == Ok::<(Phase, Seq<u8>), SocksError>(
                    (Phase::Auth, credentials(text_bytes(user), text_bytes(pass))),
                )
            } else {
                match request_bytes(purpose) {
                    Ok(b) => next == Ok::<(Phase, Seq<u8>), SocksError>((Phase::ReplyHead, b)),
                    Err(e) => next == Err::<(Phase, Seq<u8>), SocksError>(e),
                }
            }
        }),
        text_bytes(None).len() == 0,
        user matches Some(u) ==> text_bytes(user) == encode_utf8(u@),
{
}

/// The request is sent after the credentials exactly where the proxy takes them, with a zero.
pub proof fn accepted_credentials_go_on(
    purpose: Purpose,
    user: Option<String>,
    pass: Option<String>,
    r: Seq<u8>,
)
    requires
        r.len() == 2,
        request_bytes(purpose) is Ok,
    ensures
        next_step(purpose, user, pass, Phase::Auth, r) == if r[1] == 0 {
            Ok::<(Phase, Seq<u8>), SocksError>((Phase::ReplyHead, request_bytes(purpose)->Ok_0))
        } else {
            Err::<(Phase, Seq<u8>), SocksError>(SocksError::AuthenticationFailed)
        },
{
}

/// An answer of version 5 with a zero is followed by an address of as many bytes as its type has,
/// and then the handshake is over. Any other code is a refusal.
pub proof fn answers_are_read(
    purpose: Purpose,
    user: Option<String>,
    pass: Option<String>,
    r: Seq<u8>,
)
    requires
        r.len() == 4,
    ensures
        ({
            let next = next_step(purpose, user, pass, Phase::ReplyHead, r);
            match next {
                Ok((phase, send)) => {
                    &&& r[0] == 5
                    &&& r[1] == 0
                    &&& send.len() == 0
                    &&& r[3] == 1 ==> phase_len(phase) == 4 + 2
                    &&& r[3] == 4 ==> phase_len(phase) == 16 + 2
                    &&& r[3] == 3 ==> purpose is Connect && phase_len(phase) == 1
                    &&& r[3] == 1 || r[3] == 3 || r[3] == 4
                    &&& r[3] != 3 ==> forall|s: Seq<u8>|
                        next_step(purpose, user, pass, phase, s) == Ok::<
                            (Phase, Seq<u8>),
                            SocksError,
                        >((Phase::Done, Seq::<u8>::empty()))
                },
                Err(e) => if r[0] != 5 {
                    e == SocksError::ReplyVersion
                } else if r[1] != 0 {
                    e == SocksError::Refused(r[1])
                } else {
                    e == SocksError::UnknownAddressType(r[3]) && r[3] != 1 && r[3] != 4 && (r[3]
                        == 3 ==> purpose is UdpAssociate)
                },
            }
        }),
        phase_len(Phase::Method) == 2,
        phase_len(Phase::Auth) == 2,
        phase_len(Phase::ReplyHead) == 4,
        phase_len(Phase::Done) == 0,
{
}

/// A name in an answer is read by its length, with the port behind it.
pub proof fn named_answers_are_read(
    purpose: Purpose,
    user: Option<String>,
    pass: Option<String>,
    n: u8,
    s: Seq<u8>,
)
    requires
        purpose is Connect,
    ensures
        next_step(purpose, user, pass, Phase::ReplyHead, seq![5u8, 0u8, 0u8, 3u8]) matches Ok(
            (phase, _),
        ) && (next_step(purpose, user, pass, phase, seq![n]) matches Ok((name, send)) && send.len()
            == 0 && phase_len(name) == n + 2 && next_step(purpose, user, pass, name, s) == Ok::<
            (Phase, Seq<u8>),
            SocksError,
        >((Phase::Done, Seq::<u8>::empty()))),
{
}

/// The relay of datagrams is at the address and the port that the answer gives, in network order.
pub proof fn relay_is_read(r: Seq<u8>)
    ensures
        r.len() == 6 ==> bound_addr(Phase::Bound4, r) == Some(
            SocketAddr {
                ip: IpAddr::V4((r[0] * 0x100_0000 + r[1] * 0x1_0000 + r[2] * 256 + r[3]) as u32),
                port: (r[4] * 256 + r[5]) as u16,
            },
        ),
        r.len() == 18 ==> (bound_addr(Phase::Bound6, r) matches Some(a) && a.port == r[16] * 256
            + r[17] && a.ip == IpAddr::V6(be_value(r.take(16)) as u128)),
        bound_addr(Phase::Method, r) is None,
        bound_addr(Phase::Auth, r) is None,
        bound_addr(Phase::ReplyHead, r) is None,
        bound_addr(Phase::Done, r) is None,
{
    if r.len() == 6 {
        network_value(r.subrange(0, 4));
        network_value(r.subrange(4, 6));
    }
    if r.len() == 18 {
        network_value(r.subrange(16, 18));
        assert(r.subrange(0, 16) =~= r.take(16));
    }
}

/// A SOCKS4 proxy reads the version 4, the command 1, the port, the address, an empty user and, in
/// 4a, the name with a zero behind it. It grants a request with 90.
pub proof fn socks4_is_read(ip: u32, port: u16, name: Option<Seq<u8>>)
    ensures
        socks4_bytes(ip, port, name).take(9) == seq![4u8, 1u8] + two(port as nat) + four(
            ip as nat,
        ) + seq![0u8],
        name is None ==> socks4_bytes(ip, port, name).len() == 9,
        name matches Some(n) ==> socks4_bytes(ip, port, name).skip(9) == n + seq![0u8],
        SOCKS4_REP_SUCCESS == 90,
{
    network_order(port as nat);
    network_order(ip as nat);
    let b = socks4_bytes(ip, port, name);
    assert(b.take(9) =~= seq![4u8, 1u8] + two(port as nat) + four(ip as nat) + seq![0u8]);
    if let Some(n) = name {
        assert(b.skip(9) =~= n + seq![0u8]);
    }
}

/// A datagram starts with two reserved bytes and the number of its fragment, which is zero.
pub proof fn datagrams_are_whole(target: Target, data: Seq<u8>)
    ensures
        udp_datagram(target, data).take(3) == seq![0u8, 0u8, 0u8],
        udp_datagram(target, data).skip(3) == socks_addr(target) + data,
{
    let d = udp_datagram(target, data);
    assert(d.take(3) =~= seq![0u8, 0u8, 0u8]);
    assert(d.skip(3) =~= socks_addr(target) + data);
}

/// The data of a datagram starts behind three bytes and the address; shorter ones have none.
pub proof fn data_follows_the_address(s: Seq<u8>, n: nat)
    ensures
        s.len() < 4 ==> udp_data_at(s) == Err::<nat, SocksUdpError>(SocksUdpError::TooShort),
        s.len() >= 4 && socks_addr_len(s.skip(3)) == Ok::<nat, SocksAddrError>(n) ==> udp_data_at(s)
            == Ok::<nat, SocksUdpError>(3 + n),
        s.len() >= 4 && socks_addr_len(s.skip(3)) is Err ==> udp_data_at(s) is Err,
{
}

} // verus!
