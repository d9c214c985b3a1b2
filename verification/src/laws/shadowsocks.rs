//! What a Shadowsocks server reads, and what its answers say.

use crate::crypto::{
    aead_key_len, aes128_gcm_sealed, aes256_gcm_sealed, chacha_sealed, opened, sealed, Aead,
};
use crate::laws::bytes::{
    four, low_byte_first_at, network_order, network_order_of_eight, network_value, two,
};
use crate::net::Target;
use crate::shadowsocks::{
    chunk, chunks, fixed_header, method_2022, method_aead, method_key_len, named_method,
    response_len, response_padding, signed, ss_opened, ss_sealed, stream_head, tag_len,
    variable_header, AtEnd, Method, Plan, SsError, SsReader, MAX_CLOCK_SKEW, SS2022_MAX_PADDING,
};
use crate::shadowsocks_outbound::{method_kdf, udp_data, udp_packet, Kdf};
use crate::socks_addr::{socks_addr, socks_addr_len};
use crate::wire::{be_bytes, be_bytes_len, be_round_trip, byte_range, le_bytes};
use vstd::prelude::*;

verus! {

/// Each cipher seals as the function of its own name does, and opens what that function makes.
pub proof fn ciphers_are_their_own(
    key: Seq<u8>,
    nonce: Seq<u8>,
    aad: Seq<u8>,
    plain: Seq<u8>,
    text: Seq<u8>,
)
    ensures
        sealed(Aead::Aes128Gcm, key, nonce, aad, plain) == aes128_gcm_sealed(key, nonce, aad, plain),
        sealed(Aead::Aes256Gcm, key, nonce, aad, plain) == aes256_gcm_sealed(key, nonce, aad, plain),
        sealed(Aead::ChaCha20Poly1305, key, nonce, aad, plain) == chacha_sealed(
            key,
            nonce,
            aad,
            plain,
        ),
        opened(Aead::Aes128Gcm, key, nonce, aad, text) matches Some(p) ==> aes128_gcm_sealed(
            key,
            nonce,
            aad,
            p,
        ) == text && p.len() + 16 == text.len(),
        opened(Aead::Aes256Gcm, key, nonce, aad, text) matches Some(p) ==> aes256_gcm_sealed(
            key,
            nonce,
            aad,
            p,
        ) == text && p.len() + 16 == text.len(),
        opened(Aead::ChaCha20Poly1305, key, nonce, aad, text) matches Some(p) ==> chacha_sealed(
            key,
            nonce,
            aad,
            p,
        ) == text && p.len() + 16 == text.len(),
        aead_key_len(Aead::Aes128Gcm) == 16,
        aead_key_len(Aead::Aes256Gcm) == 32,
        aead_key_len(Aead::ChaCha20Poly1305) == 32,
{
    assert(opened(Aead::Aes128Gcm, key, nonce, aad, text) matches Some(p) ==> sealed(
        Aead::Aes128Gcm,
        key,
        nonce,
        aad,
        p,
    ) == text);
    assert(opened(Aead::Aes256Gcm, key, nonce, aad, text) matches Some(p) ==> sealed(
        Aead::Aes256Gcm,
        key,
        nonce,
        aad,
        p,
    ) == text);
    assert(opened(Aead::ChaCha20Poly1305, key, nonce, aad, text) matches Some(p) ==> sealed(
        Aead::ChaCha20Poly1305,
        key,
        nonce,
        aad,
        p,
    ) == text);
}

/// A text that a message of the right length seals to is opened, if it is not too long.
pub proof fn sealed_texts_open(
    cipher: Aead,
    key: Seq<u8>,
    nonce: Seq<u8>,
    aad: Seq<u8>,
    plain: Seq<u8>,
)
    requires
        sealed(cipher, key, nonce, aad, plain).len() == plain.len() + 16,
        plain.len() <= 0xf_0000_0000,
        aad.len() <= 0xf_0000_0000,
    ensures
        opened(cipher, key, nonce, aad, sealed(cipher, key, nonce, aad, plain)) is Some,
{
}

/// The methods by their names, and what each name stands for.
pub proof fn methods_by_name(s: Seq<char>)
    ensures
        named_method(s) == Some(Method::Plain) <==> s == "none"@,
        named_method(s) == Some(Method::Aes128Gcm) <==> s == "aes-128-gcm"@,
        named_method(s) == Some(Method::Aes256Gcm) <==> s == "aes-256-gcm"@,
        named_method(s) == Some(Method::ChaCha20Poly1305) <==> s == "chacha20-ietf-poly1305"@,
        named_method(s) == Some(Method::Blake3Aes128Gcm) <==> s == "2022-blake3-aes-128-gcm"@,
        named_method(s) == Some(Method::Blake3Aes256Gcm) <==> s == "2022-blake3-aes-256-gcm"@,
        named_method(s) == Some(Method::Blake3ChaCha20Poly1305) <==> s
            == "2022-blake3-chacha20-poly1305"@,
{
    reveal_strlit("none");
    reveal_strlit("aes-128-gcm");
    reveal_strlit("aes-256-gcm");
    reveal_strlit("chacha20-ietf-poly1305");
    reveal_strlit("2022-blake3-aes-128-gcm");
    reveal_strlit("2022-blake3-aes-256-gcm");
    reveal_strlit("2022-blake3-chacha20-poly1305");
    assert("none"@.len() == 4);
    assert("aes-128-gcm"@.len() == 11);
    assert("aes-256-gcm"@.len() == 11);
    assert("chacha20-ietf-poly1305"@.len() == 22);
    assert("2022-blake3-aes-128-gcm"@.len() == 23);
    assert("2022-blake3-aes-256-gcm"@.len() == 23);
    assert("2022-blake3-chacha20-poly1305"@.len() == 29);
    assert("aes-128-gcm"@[4] != "aes-256-gcm"@[4]);
    assert("2022-blake3-aes-128-gcm"@[16] != "2022-blake3-aes-256-gcm"@[16]);
}

/// The cipher, the lengths and the edition of each method.
pub proof fn methods_by_kind(m: Method)
    ensures
        method_aead(m) == match m {
            Method::Plain => None,
            Method::Aes128Gcm => Some(Aead::Aes128Gcm),
            Method::Aes256Gcm => Some(Aead::Aes256Gcm),
            Method::ChaCha20Poly1305 => Some(Aead::ChaCha20Poly1305),
            Method::Blake3Aes128Gcm => Some(Aead::Aes128Gcm),
            Method::Blake3Aes256Gcm => Some(Aead::Aes256Gcm),
            Method::Blake3ChaCha20Poly1305 => Some(Aead::ChaCha20Poly1305),
        },
        method_key_len(m) == match m {
            Method::Plain => 0nat,
            Method::Aes128Gcm => 16,
            Method::Blake3Aes128Gcm => 16,
            _ => 32,
        },
        method_2022(m) <==> !(m is Plain || m is Aes128Gcm || m is Aes256Gcm
            || m is ChaCha20Poly1305),
        tag_len(m) == if m is Plain {
            0nat
        } else {
            16
        },
        response_len(m) == 1 + 8 + method_key_len(m) + 2 + 16,
        method_kdf(m) == if method_2022(m) {
            Kdf::Blake3Session
        } else {
            Kdf::HkdfSha1
        },
        MAX_CLOCK_SKEW == 30,
        SS2022_MAX_PADDING == 900,
{
}

/// The nonce of a message has twelve bytes, with its number in the first ones, the low byte first.
pub proof fn nonces_count(counter: u64, i: int)
    requires
        0 <= i < 12,
    ensures
        le_bytes(counter as nat, 12).len() == 12,
        le_bytes(counter as nat, 12)[i] == if i == 0 {
            counter % 256
        } else if i == 1 {
            counter / 0x100 % 256
        } else if i == 2 {
            counter / 0x1_0000 % 256
        } else if i == 3 {
            counter / 0x100_0000 % 256
        } else if i == 4 {
            counter / 0x1_0000_0000 % 256
        } else if i == 5 {
            counter / 0x100_0000_0000 % 256
        } else if i == 6 {
            counter / 0x1_0000_0000_0000 % 256
        } else if i == 7 {
            counter / 0x100_0000_0000_0000 % 256
        } else {
            0
        },
{
    low_byte_first_at(counter as nat, 12, i as nat);
    reveal_with_fuel(byte_range, 12);
    assert(i == 8 ==> byte_range(i as nat) == 0x1_0000_0000_0000_0000);
    assert(i == 9 ==> byte_range(i as nat) == 0x100_0000_0000_0000_0000);
    assert(i == 10 ==> byte_range(i as nat) == 0x1_0000_0000_0000_0000_0000);
    assert(i == 11 ==> byte_range(i as nat) == 0x100_0000_0000_0000_0000_0000);
}

/// A message is sealed and opened by the cipher of its method, under the nonce of its number, with
/// nothing beside it. The plain method leaves it as it is.
pub proof fn messages_are_sealed(m: Method, key: Seq<u8>, counter: nat, s: Seq<u8>)
    ensures
        m is Plain ==> ss_sealed(m, key, counter, s) == s && ss_opened(m, key, counter, s) == Some(
            s,
        ),
        m is Aes128Gcm || m is Blake3Aes128Gcm ==> ss_sealed(m, key, counter, s)
            == aes128_gcm_sealed(key, le_bytes(counter, 12), Seq::empty(), s) && ss_opened(
            m,
            key,
            counter,
            s,
        ) == opened(Aead::Aes128Gcm, key, le_bytes(counter, 12), Seq::empty(), s),
        m is Aes256Gcm || m is Blake3Aes256Gcm ==> ss_sealed(m, key, counter, s)
            == aes256_gcm_sealed(key, le_bytes(counter, 12), Seq::empty(), s) && ss_opened(
            m,
            key,
            counter,
            s,
        ) == opened(Aead::Aes256Gcm, key, le_bytes(counter, 12), Seq::empty(), s),
        m is ChaCha20Poly1305 || m is Blake3ChaCha20Poly1305 ==> ss_sealed(m, key, counter, s)
            == chacha_sealed(key, le_bytes(counter, 12), Seq::empty(), s) && ss_opened(
            m,
            key,
            counter,
            s,
        ) == opened(Aead::ChaCha20Poly1305, key, le_bytes(counter, 12), Seq::empty(), s),
{
}

/// A server of the 2022 edition reads a salt, then under the numbers 0 and 1 a header with the type
/// of a request, the time and the length of what follows, and the address with the padding and its
/// length between. One of the older edition reads a salt and a chunk with the address.
pub proof fn request_is_read(
    m: Method,
    key: Seq<u8>,
    salt: Seq<u8>,
    addr: Seq<u8>,
    now: u64,
    padding: Seq<u8>,
)
    ensures
        ({
            let fixed = seq![0u8] + four((now / 0x1_0000_0000) as nat) + four(now as nat) + two(
                addr.len() + 2 + padding.len(),
            );
            let variable = addr + two(padding.len()) + padding;
            let head = stream_head(m, key, salt, addr, now, padding);
            if m is Blake3Aes128Gcm || m is Blake3Aes256Gcm || m is Blake3ChaCha20Poly1305 {
                head == salt + ss_sealed(m, key, 0, fixed) + ss_sealed(m, key, 1, variable)
            } else {
                head == salt + (ss_sealed(m, key, 0, two(addr.len())) + ss_sealed(m, key, 1, addr))
            }
        }),
{
    network_order(padding.len());
    network_order(addr.len());
    network_order(addr.len() + 2 + padding.len());
    network_order_of_eight(now as nat);
    let total = addr.len() + 2 + padding.len();
    let fixed = seq![0u8] + four((now / 0x1_0000_0000) as nat) + four(now as nat) + two(total);
    assert(variable_header(addr, padding).len() == total);
    assert(fixed_header(now, total) =~= fixed);
    assert(variable_header(addr, padding) =~= addr + two(padding.len()) + padding);
}

/// Data is sent in chunks of at most 16383 bytes, the larger ones first. Each is the sealed length,
/// in two bytes, and the sealed data, under two numbers in a row.
pub proof fn data_is_sent_in_chunks(m: Method, key: Seq<u8>, counter: nat, data: Seq<u8>)
    ensures
        chunk(m, key, counter, data) == ss_sealed(m, key, counter, two(data.len())) + ss_sealed(
            m,
            key,
            counter + 1,
            data,
        ),
        data.len() == 0 ==> chunks(m, key, counter, data).len() == 0,
        0 < data.len() <= 16383 ==> chunks(m, key, counter, data) == chunk(m, key, counter, data),
        data.len() > 16383 ==> chunks(m, key, counter, data) == chunk(
            m,
            key,
            counter,
            data.take(16383),
        ) + chunks(m, key, counter + 2, data.skip(16383)),
{
    network_order(data.len());
}

/// A response of the 2022 edition is taken exactly where its header has the type of a response,
/// repeats the salt of the request, and, where the time counts, is no more than thirty seconds off.
/// The padding is as long as its last two bytes say.
pub proof fn response_is_taken(
    kind: u8,
    time: u64,
    salt: Seq<u8>,
    pad: u16,
    asked: Seq<u8>,
    now: Option<int>,
)
    requires
        time < 0x8000_0000_0000_0000,
        asked.len() == salt.len(),
    ensures
        ({
            let fixed = seq![kind] + be_bytes(time as nat, 8) + salt + two(pad as nat);
            let timely = now matches Some(t) ==> -30 <= t - time <= 30;
            let res = response_padding(fixed, salt.len(), Some(asked), now);
            &&& res is Ok <==> kind == 1 && timely && salt == asked
            &&& res matches Ok(n) ==> n == pad
            &&& kind != 1 ==> res == Err::<nat, SsError>(SsError::HeaderType(kind))
            &&& kind == 1 && !timely ==> res == Err::<nat, SsError>(SsError::Timestamp)
            &&& kind == 1 && timely && salt != asked ==> res == Err::<nat, SsError>(
                SsError::SaltMismatch,
            )
        }),
{
    let fixed = seq![kind] + be_bytes(time as nat, 8) + salt + two(pad as nat);
    let n = salt.len() as int;
    be_bytes_len(time as nat, 8);
    reveal_with_fuel(byte_range, 9);
    assert(byte_range(8) == 0x1_0000_0000_0000_0000);
    be_round_trip(time as nat, 8);
    assert(fixed.subrange(1, 9) =~= be_bytes(time as nat, 8));
    assert(fixed.subrange(9, 9 + n) =~= salt);
    assert(fixed.subrange(9 + n, 11 + n) =~= two(pad as nat));
    network_value(two(pad as nat));
}

/// What a reader does next, by how far it is: a salt as long as the key, a header, its padding with
/// a tag of sixteen bytes, and chunks of a sealed length of 18 bytes and the sealed data.
pub proof fn reader_goes_by_lengths(r: SsReader, now: int)
    requires
        r.plain@.len() == 0,
    ensures
        r.dec is None ==> r.plan(now) == if r.raw@.len() < method_key_len(r.method) {
            Plan::More(AtEnd::Clean)
        } else {
            Plan::Derive(r.raw@.take(method_key_len(r.method) as int))
        },
        r.dec is Some && method_2022(r.method) && !r.response_read && r.padding is None && r.raw@.len()
            < 27 + method_key_len(r.method) ==> r.plan(now) == Plan::More(AtEnd::InHeader),
        r.dec matches Some(c) ==> (method_2022(r.method) && !r.response_read && r.padding is None
            && r.raw@.len() >= 27 + method_key_len(r.method) ==> (match ss_opened(
            c.method,
            c.key@,
            c.counter as nat,
            r.raw@.subrange(0, 27 + method_key_len(r.method) as int),
        ) {
            None => r.plan(now) == Plan::Fail(SsError::OpenHeader, 0, 1),
            Some(fixed) => match response_padding(
                fixed,
                method_key_len(r.method),
                match r.request_salt {
                    Some(s) => Some(s@),
                    None => None,
                },
                if r.check_time {
                    Some(now)
                } else {
                    None
                },
            ) {
                Ok(p) => r.plan(now) == Plan::Header(27 + method_key_len(r.method), p),
                Err(e) => r.plan(now) == Plan::Fail(e, 27 + method_key_len(r.method), 1),
            },
        })),
        r.dec matches Some(c) ==> (method_2022(r.method) && !r.response_read ==> (
        r.padding matches Some(p) ==> r.plan(now) == if r.raw@.len() < p + 16 {
            Plan::More(AtEnd::InPadding)
        } else if ss_opened(
            c.method,
            c.key@,
            c.counter as nat,
            r.raw@.subrange(0, p as int + 16),
        ) is None {
            Plan::Fail(SsError::OpenPadding, 0, 1)
        } else {
            Plan::Padding((p + 16) as nat)
        })),
{
}

/// A chunk is taken once all of it is there: as much data as its first two bytes say, once opened.
pub proof fn reader_takes_chunks(r: SsReader, now: int)
    requires
        r.plain@.len() == 0,
        r.dec is Some,
        method_2022(r.method) ==> r.response_read,
    ensures
        ({
            let c = r.dec->Some_0;
            let n = r.raw@.len();
            let head = ss_opened(c.method, c.key@, c.counter as nat, r.raw@.subrange(0, 18));
            if n < 18 {
                r.plan(now) == Plan::More(AtEnd::Clean)
            } else if head is None {
                r.plan(now) == Plan::Fail(SsError::OpenLength, 0, 0)
            } else if head->Some_0.len() >= 2 {
                let len = head->Some_0[0] * 256 + head->Some_0[1];
                let body = ss_opened(
                    c.method,
                    c.key@,
                    c.counter as nat + 1,
                    r.raw@.subrange(18, 34 + len),
                );
                if n < 34 + len {
                    r.plan(now) == Plan::More(AtEnd::Clean)
                } else if body is None {
                    r.plan(now) == Plan::Fail(SsError::OpenPayload, 0, 2)
                } else {
                    r.plan(now) == Plan::Chunk((34 + len) as nat, body->Some_0)
                }
            } else {
                true
            }
        }),
{
    let c = r.dec->Some_0;
    if r.raw@.len() >= 18 {
        if let Some(head) = ss_opened(c.method, c.key@, c.counter as nat, r.raw@.subrange(0, 18)) {
            if head.len() >= 2 {
                network_value(head.subrange(0, 2));
            }
        }
    }
}

/// A datagram is the bare address and data for the plain method, and else a salt and both of them
/// sealed under the number 0; the data of one that comes in is what stands behind the address.
pub proof fn datagrams_are_read(
    m: Method,
    key: Seq<u8>,
    salt: Seq<u8>,
    target: Target,
    data: Seq<u8>,
    packet: Seq<u8>,
)
    ensures
        m is Plain ==> udp_packet(m, key, salt, target, data) == socks_addr(target) + data,
        !(m is Plain) ==> udp_packet(m, key, salt, target, data) == salt + ss_sealed(
            m,
            key,
            0,
            socks_addr(target) + data,
        ),
        !(m is Plain) && packet.len() <= method_key_len(m) + 16 ==> udp_data(m, key, packet) is None,
        !(m is Plain) && packet.len() > method_key_len(m) + 16 ==> udp_data(m, key, packet) == (
        match ss_opened(m, key, 0, packet.skip(method_key_len(m) as int)) {
            Some(body) => match socks_addr_len(body) {
                Ok(n) => Some(body.skip(n as int)),
                Err(_) => None,
            },
            None => None,
        }),
        m is Plain ==> udp_data(m, key, packet) == (match socks_addr_len(packet) {
            Ok(n) => Some(packet.skip(n as int)),
            Err(_) => None,
        }),
{
}

/// The key of the 2022 edition is the password in base64, whatever blanks stand around it.
pub proof fn preshared_keys(password: Seq<char>)
    ensures
        crate::shadowsocks_outbound::preshared_key(password) == crate::encoding::base64_standard(
            crate::encoding::trimmed(password),
        ),
{
}

/// The ciphers take messages up to their own limits: 2^36 bytes for AES-GCM, with as many to
/// authenticate, and 128 fewer than 2^38 for ChaCha20-Poly1305.
pub proof fn ciphers_have_limits(plain: nat, aad: nat)
    ensures
        crate::crypto::can_seal(Aead::Aes128Gcm, plain, aad) <==> plain <= 0x10_0000_0000 && aad
            <= 0x10_0000_0000,
        crate::crypto::can_seal(Aead::Aes256Gcm, plain, aad) <==> plain <= 0x10_0000_0000 && aad
            <= 0x10_0000_0000,
        crate::crypto::can_seal(Aead::ChaCha20Poly1305, plain, aad) <==> plain <= 0x40_0000_0000
            - 128,
{
}

/// A time of eight bytes counts from the other end where its high bit is set.
pub proof fn times_are_signed(v: nat)
    requires
        v < 0x1_0000_0000_0000_0000,
    ensures
        -0x8000_0000_0000_0000 <= signed(v) < 0x8000_0000_0000_0000,
        signed(v) == v || signed(v) == v - 0x1_0000_0000_0000_0000,
{
}

} // verus!
