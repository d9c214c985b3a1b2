//! The hello that looks like a browser's, and how connections are told apart by their settings.

use crate::config::{TlsConfig, UtlsFingerprint};
use crate::laws::bytes::{network_order, network_value, two};
use crate::laws::server::three;
use crate::laws::tls::{ext_list, lists_add_up};
use crate::text::{hex_byte_text, texts};
use crate::tls::client_hello::{
    alpn_data, ext, key_share_data, server_name_data, u16_items, u16_list_data,
};
use crate::tls::connector::{
    all_certificates, browser_name, cert_head, certificate_part, debug_list, fingerprint_parts,
    hex_dump, pem_certificates, wants_ech, wants_utls,
};
use crate::tls::keys::zeros;
use crate::tls::utls::{
    algorithms_of, body_of, chromium, exts_range, fingerprint_kind, first_exts, grease, groups_of,
    hello_record, last_exts, middle_exts, patched, protocols_of, share_in_ext, share_in_exts,
    share_in_list, share_key, share_pos, suites_of, utls_body, utls_exts, FpKind, HelloPicks,
};
use vstd::prelude::*;
use vstd::utf8::encode_utf8;

verus! {

/// A reserved value has two equal bytes that end in the digit a, and there are sixteen of them.
pub proof fn reserved_values(i: nat)
    requires
        i < 16,
    ensures
        grease(i) == 257 * (16 * i + 10),
        grease(i) / 256 == grease(i) % 256,
        grease(i) % 16 == 10,
{
}

/// The browsers that a fingerprint stands for: those of Apple are one, and those that are not known
/// apart pass for Chrome.
pub proof fn fingerprints_by_browser(fp: UtlsFingerprint)
    ensures
        fingerprint_kind(fp) is Firefox <==> fp is Firefox,
        fingerprint_kind(fp) is Safari <==> fp is Safari || fp is Ios,
        fingerprint_kind(fp) is Edge <==> fp is Edge,
        fingerprint_kind(fp) is Random <==> fp is Random,
        fingerprint_kind(fp) is Chrome <==> fp is Chrome || fp is Android || fp is Browser360
            || fp is Qq || fp is Go,
{
}

/// The suites that each browser offers: those of TLS 1.3 first, behind a reserved value for all but
/// Firefox and Safari, and then the older ones in the order of the browser.
pub proof fn suites_by_browser(fp: FpKind, pick: nat)
    requires
        pick < 16,
    ensures
        fp is Firefox ==> suites_of(fp, pick) == seq![0x1301u16, 0x1302, 0x1303] + seq![
            0xc02bu16,
            0xc02f,
            0xc02c,
            0xc030,
            0xcca9,
            0xcca8,
        ] + seq![0xc009u16, 0xc00a, 0xc013, 0xc014, 0x2f, 0x35],
        fp is Safari ==> suites_of(fp, pick) == seq![0x1301u16, 0x1302, 0x1303] + seq![
            0xc02cu16,
            0xc02b,
            0xc030,
            0xc02f,
            0xcca9,
            0xcca8,
        ] + seq![0xc024u16, 0xc023, 0xc028, 0xc027, 0xc00a, 0xc009, 0xc014, 0xc013] + seq![
            0x9du16,
            0x9c,
            0x3d,
            0x3c,
            0x35,
            0x2f,
        ],
        !(fp is Firefox) && !(fp is Safari) ==> suites_of(fp, pick) == seq![
            (257 * (16 * pick + 10)) as u16,
        ] + seq![0x1301u16, 0x1302, 0x1303] + seq![
            0xc02bu16,
            0xc02f,
            0xc02c,
            0xc030,
            0xcca9,
            0xcca8,
        ] + seq![0xc013u16, 0xc014, 0x2f, 0x35],
{
}

/// The groups and the signatures that each browser offers. X25519 comes first.
pub proof fn groups_by_browser(fp: FpKind)
    ensures
        fp is Chrome || fp is Edge <==> chromium(fp),
        fp is Chrome || fp is Edge ==> groups_of(fp) == seq![29u16, 23, 24],
        fp is Firefox ==> groups_of(fp) == seq![29u16, 23, 24, 25],
        fp is Safari || fp is Random ==> groups_of(fp) == seq![29u16, 23, 30, 24, 25],
        fp is Firefox ==> algorithms_of(fp) == seq![
            0x403u16,
            0x804,
            0x401,
            0x503,
            0x805,
            0x501,
            0x806,
            0x601,
            0x201,
        ],
        !(fp is Firefox) ==> algorithms_of(fp) == seq![
            0x403u16,
            0x804,
            0x401,
            0x503,
            0x805,
            0x501,
            0x806,
            0x601,
        ],
{
}

/// Numbers are listed one after another, two bytes each, behind the length of the list in bytes.
pub proof fn numbers_are_listed(list: Seq<u16>, n: u16)
    ensures
        u16_list_data(list) == two(u16_items(list).len()) + u16_items(list),
        u16_items(Seq::empty()).len() == 0,
        u16_items(list.push(n)) == u16_items(list) + two(n as nat),
        u16_items(list).len() == 2 * list.len(),
    decreases list.len(),
{
    assert(list.push(n).drop_last() =~= list);
    network_order(n as nat);
    if list.len() > 0 {
        numbers_are_listed(list.drop_last(), list.last());
        assert(list.drop_last().push(list.last()) =~= list);
    }
    network_order(u16_items(list).len());
}

/// The protocols of the settings are offered, and HTTP/2 before HTTP/1.1 where there are none.
pub proof fn protocols_are_offered(alpn: Seq<String>)
    ensures
        alpn.len() > 0 ==> protocols_of(alpn) == texts(alpn),
        alpn.len() == 0 ==> protocols_of(alpn) == seq![seq!['h', '2'], "http/1.1"@],
{
    reveal_strlit("h2");
    assert("h2"@ =~= seq!['h', '2']);
}

proof fn list_steps(items: Seq<(u16, Seq<u8>)>, item: (u16, Seq<u8>))
    ensures
        ext_list(items.push(item)) == ext_list(items) + ext(item.0, item.1),
        ext_list(Seq::empty()) == Seq::<u8>::empty(),
{
    let one = seq![item];
    lists_add_up(items, one);
    assert(items + one =~= items.push(item));
    assert(one.skip(1) =~= Seq::<(u16, Seq<u8>)>::empty());
    reveal_with_fuel(ext_list, 2);
    assert(ext_list(one) =~= ext(item.0, item.1));
}

/// The first extensions of a browser: a reserved one for Chrome and Edge, the name, the extended
/// master secret, 23, the renegotiation, 65281, the groups, 10, the forms of points, 11, and a place
/// for a ticket, 35.
pub proof fn first_extensions(fp: FpKind, name: Seq<u8>, pick: nat)
    requires
        pick < 16,
    ensures
        first_exts(fp, name, pick) == ext_list(
            (if fp is Chrome || fp is Edge {
                seq![((257 * (16 * pick + 10)) as u16, Seq::<u8>::empty())]
            } else {
                Seq::empty()
            }).push((0u16, server_name_data(name))).push((23u16, Seq::empty())).push(
                (65281u16, seq![0u8]),
            ).push((10u16, u16_list_data(groups_of(fp)))).push((11u16, seq![1u8, 0u8])).push(
                (35u16, Seq::empty()),
            ),
        ),
{
    let e = Seq::<(u16, Seq<u8>)>::empty();
    let i0 = ((257 * (16 * pick + 10)) as u16, Seq::<u8>::empty());
    reserved_values(pick);
    let start = if fp is Chrome || fp is Edge {
        seq![i0]
    } else {
        e
    };
    list_steps(e, i0);
    assert(e.push(i0) =~= seq![i0]);
    assert(Seq::<u8>::empty() + ext(i0.0, i0.1) =~= ext(i0.0, i0.1));
    let i1 = (0u16, server_name_data(name));
    let i2 = (23u16, Seq::<u8>::empty());
    let i3 = (65281u16, seq![0u8]);
    let i4 = (10u16, u16_list_data(groups_of(fp)));
    let i5 = (11u16, seq![1u8, 0u8]);
    let i6 = (35u16, Seq::<u8>::empty());
    list_steps(start, i1);
    list_steps(start.push(i1), i2);
    list_steps(start.push(i1).push(i2), i3);
    list_steps(start.push(i1).push(i2).push(i3), i4);
    list_steps(start.push(i1).push(i2).push(i3).push(i4), i5);
    list_steps(start.push(i1).push(i2).push(i3).push(i4).push(i5), i6);
}

/// The extensions that follow: the protocols, 16, the status of the certificate, 5, the signatures,
/// 13, signed times, 18, the share of the key, 51, the modes of shared keys, 45, and the versions,
/// 43, with TLS 1.3 first.
pub proof fn middle_extensions(fp: FpKind, alpn: Seq<Seq<char>>, key: Seq<u8>)
    ensures
        middle_exts(fp, alpn, key) == ext_list(
            Seq::<(u16, Seq<u8>)>::empty().push((16u16, alpn_data(alpn))).push(
                (5u16, seq![1u8, 0, 0, 0, 0]),
            ).push((13u16, u16_list_data(algorithms_of(fp)))).push((18u16, Seq::empty())).push(
                (51u16, key_share_data(key)),
            ).push((45u16, seq![1u8, 1u8])).push((43u16, seq![4u8, 3, 4, 3, 3])),
        ),
{
    let e = Seq::<(u16, Seq<u8>)>::empty();
    let i1 = (16u16, alpn_data(alpn));
    let i2 = (5u16, seq![1u8, 0, 0, 0, 0]);
    let i3 = (13u16, u16_list_data(algorithms_of(fp)));
    let i4 = (18u16, Seq::<u8>::empty());
    let i5 = (51u16, key_share_data(key));
    let i6 = (45u16, seq![1u8, 1u8]);
    let i7 = (43u16, seq![4u8, 3, 4, 3, 3]);
    list_steps(e, i1);
    assert(Seq::<u8>::empty() + ext(i1.0, i1.1) =~= ext(i1.0, i1.1));
    list_steps(e.push(i1), i2);
    list_steps(e.push(i1).push(i2), i3);
    list_steps(e.push(i1).push(i2).push(i3), i4);
    list_steps(e.push(i1).push(i2).push(i3).push(i4), i5);
    list_steps(e.push(i1).push(i2).push(i3).push(i4).push(i5), i6);
    list_steps(e.push(i1).push(i2).push(i3).push(i4).push(i5).push(i6), i7);
}

proof fn ext_len(typ: u16, data: Seq<u8>)
    ensures
        ext(typ, data).len() == 4 + data.len(),
{
    reveal(ext);
    network_order(typ as nat);
    network_order(data.len());
}

/// Chrome and Edge end with the compression of certificates, 27, and the settings of HTTP/2, 17513,
/// and fill their extensions up to 512 bytes where there are fewer than 508; other browsers add
/// nothing.
pub proof fn last_extensions(
    fp: FpKind,
    name: Seq<u8>,
    alpn: Seq<String>,
    key: Seq<u8>,
    pick: nat,
)
    ensures
        ({
            let front = first_exts(fp, name, pick) + middle_exts(fp, protocols_of(alpn), key);
            let all = utls_exts(fp, name, alpn, key, pick);
            let tail = ext(27, seq![2u8, 0, 2]) + ext(17513, seq![0u8, 3, 2, 104, 50]);
            let n = front.len() + tail.len();
            &&& !(fp is Chrome) && !(fp is Edge) ==> all == front
            &&& (fp is Chrome || fp is Edge) && n >= 508 ==> all == front + tail
            &&& (fp is Chrome || fp is Edge) && n < 508 ==> all == front + tail + ext(
                21,
                zeros((508 - n) as nat),
            ) && all.len() == 512
        }),
{
    let front = first_exts(fp, name, pick) + middle_exts(fp, protocols_of(alpn), key);
    let tail = ext(27, seq![2u8, 0, 2]) + ext(17513, seq![0u8, 3, 2, 104, 50]);
    let n = front.len() + tail.len();
    let all = utls_exts(fp, name, alpn, key, pick);
    if fp is Chrome || fp is Edge {
        assert(last_exts(fp) == tail);
        if n < 508 {
            ext_len(21, zeros((508 - n) as nat));
            assert(all =~= front + tail + ext(21, zeros((508 - n) as nat)));
        } else {
            assert(all =~= front + tail);
        }
    } else {
        assert(all =~= front);
    }
}

/// The hello is a record of the type 22 and the version 0x0301 with one message of the type 1: the
/// version 0x0303, the random value, the session of 32 bytes, the suites, no compression and the
/// extensions.
pub proof fn browser_hello_is_read(
    random: Seq<u8>,
    session: Seq<u8>,
    suites: Seq<u8>,
    exts: Seq<u8>,
    body: Seq<u8>,
    fp: FpKind,
    name: Seq<u8>,
    alpn: Seq<String>,
    picks: HelloPicks,
)
    ensures
        body_of(random, session, suites, exts) == seq![3u8, 3u8] + random + seq![32u8] + session
            + suites + seq![1u8, 0u8] + two(exts.len()) + exts,
        hello_record(body) == seq![22u8, 3, 1] + two(body.len() + 4) + (seq![1u8] + three(
            body.len(),
        ) + body),
        utls_body(fp, name, alpn, picks) == body_of(
            picks.random@,
            picks.session_id@,
            u16_list_data(suites_of(fp, picks.cipher_grease as nat)),
            utls_exts(fp, name, alpn, picks.key@, picks.ext_grease as nat),
        ),
{
    network_order(exts.len());
    network_order(body.len());
    network_order(body.len() + 4);
    assert((seq![1u8] + three(body.len()) + body).len() == body.len() + 4);
}

/// In a list of shares the first of the group 29 with 32 bytes counts.
pub proof fn shares_are_walked(before: Seq<u8>, group: u16, key: Seq<u8>, after: Seq<u8>, end: nat)
    requires
        key.len() < 0x1_0000,
        before.len() + 4 + key.len() <= end,
        end == before.len() + 4 + key.len() + after.len(),
    ensures
        ({
            let d = before + two(group as nat) + two(key.len()) + key + after;
            share_in_list(d, before.len(), end) == if group == 29 && key.len() == 32 {
                Some(before.len() + 4)
            } else {
                share_in_list(d, before.len() + 4 + key.len(), end)
            }
        }),
{
    let d = before + two(group as nat) + two(key.len()) + key + after;
    let p = before.len() as int;
    assert(d.subrange(p, p + 2) =~= two(group as nat));
    assert(d.subrange(p + 2, p + 4) =~= two(key.len()));
    network_value(two(group as nat));
    network_value(two(key.len()));
}

/// The extension of shares is found by its type, 51, and others are passed over.
pub proof fn share_extension_is_found(
    before: Seq<u8>,
    kind: u16,
    data: Seq<u8>,
    after: Seq<u8>,
    end: nat,
)
    requires
        data.len() < 0x1_0000,
        end == before.len() + 4 + data.len() + after.len(),
    ensures
        ({
            let d = before + two(kind as nat) + two(data.len()) + data + after;
            share_in_exts(d, before.len(), end) == if kind == 51 {
                match share_in_ext(data) {
                    Some(p) => Some(before.len() + 4 + p),
                    None => None,
                }
            } else {
                share_in_exts(d, before.len() + 4 + data.len(), end)
            }
        }),
        data.len() >= 2 && data[0] * 256 + data[1] + 2 == data.len() ==> share_in_ext(data)
            == share_in_list(data, 2, data.len()),
        data.len() < 2 ==> share_in_ext(data) is None,
{
    let d = before + two(kind as nat) + two(data.len()) + data + after;
    let p = before.len() as int;
    assert(d.subrange(p, p + 2) =~= two(kind as nat));
    assert(d.subrange(p + 2, p + 4) =~= two(data.len()));
    assert(d.subrange(p + 4, p + 4 + data.len()) =~= data);
    network_value(two(kind as nat));
    network_value(two(data.len()));
    if data.len() >= 2 {
        network_value(data.subrange(0, 2));
    }
}

proof fn fields_of_a_hello(random: Seq<u8>, session: Seq<u8>, list: Seq<u8>, exts: Seq<u8>)
    requires
        random.len() == 32,
        session.len() == 32,
    ensures
        ({
            let body = body_of(random, session, two(list.len()) + list, exts);
            let b = 69 + list.len() as int;
            &&& body.len() == b + 4 + exts.len()
            &&& body[34] == 32
            &&& body.subrange(67, 69) == two(list.len())
            &&& body[b] == 1
            &&& body.subrange(b + 2, b + 4) == two(exts.len())
            &&& body.skip(b + 4) == exts
        }),
{
    let body = body_of(random, session, two(list.len()) + list, exts);
    network_order(exts.len());
    let front = seq![3u8, 3u8] + random + seq![32u8] + session;
    let middle = two(list.len()) + list + seq![1u8, 0u8];
    assert(body =~= front + middle + two(exts.len()) + exts);
    assert(front.len() == 67);
    let b = 69 + list.len() as int;
    assert(body.subrange(67, 69) =~= two(list.len()));
    assert(body.subrange(b + 2, b + 4) =~= two(exts.len()));
    assert(body.skip(b + 4) =~= exts);
}

proof fn body_of_a_record(body: Seq<u8>)
    ensures
        hello_record(body).skip(9) == body,
        hello_record(body).len() == 9 + body.len(),
        hello_record(body)[0] == 22,
{
    network_order(body.len());
    network_order(body.len() + 4);
    let inner = seq![1u8] + three(body.len()) + body;
    let r = hello_record(body);
    assert(inner.len() == body.len() + 4);
    assert(r =~= seq![22u8, 3, 1] + two(body.len() + 4) + inner);
    assert(r.skip(9) =~= body);
}

proof fn range_of_a_hello(body: Seq<u8>, list: nat, exts: nat)
    requires
        list < 0x1_0000,
        exts < 0x1_0000,
        body.len() == 73 + list + exts,
        body[34] == 32,
        body.subrange(67, 69) == two(list),
        body[69 + list as int] == 1,
        body.subrange(71 + list as int, 73 + list as int) == two(exts),
    ensures
        exts_range(body) == Some((73 + list, body.len())),
{
    network_value(two(list));
    network_value(two(exts));
}

proof fn place_in_a_record(body: Seq<u8>, from: nat)
    requires
        exts_range(body) == Some((from, body.len())),
    ensures
        share_pos(hello_record(body)) == match share_in_exts(body, from, body.len()) {
            Some(p) => Some(9 + p),
            None => None,
        },
{
    body_of_a_record(body);
}

/// The extensions of a hello stand at its end, behind the session, the suites and the compression,
/// and the share in them is found from the start of the record.
pub proof fn share_of_a_hello(
    random: Seq<u8>,
    session: Seq<u8>,
    list: Seq<u8>,
    exts: Seq<u8>,
)
    requires
        random.len() == 32,
        session.len() == 32,
        list.len() < 0x1_0000,
        exts.len() < 0x1_0000,
    ensures
        ({
            let body = body_of(random, session, two(list.len()) + list, exts);
            let from = body.len() - exts.len();
            &&& exts_range(body) == Some((from as nat, body.len()))
            &&& body.skip(from) == exts
            &&& share_pos(hello_record(body)) == match share_in_exts(
                body,
                from as nat,
                body.len(),
            ) {
                Some(p) => Some(9 + p),
                None => None,
            }
        }),
{
    let body = body_of(random, session, two(list.len()) + list, exts);
    let b = 69 + list.len() as int;
    fields_of_a_hello(random, session, list, exts);
    range_of_a_hello(body, list.len(), exts.len());
    place_in_a_record(body, (b + 4) as nat);
}

/// The key of a record is the 32 bytes of its share, and a patch puts them into the place of the
/// share of another record; where either has none, nothing is changed.
pub proof fn keys_are_copied(fake: Seq<u8>, own: Seq<u8>, key: Seq<u8>, p: nat)
    ensures
        own.len() >= 9 && own[0] == 22 && own.len() >= 9 + own[6] * 0x1_0000 + own[7] * 256 + own[8]
            && share_pos(own) == Some(p) ==> share_key(own) == Some(
            own.subrange(p as int, p as int + 32),
        ),
        own.len() < 9 || own[0] != 22 ==> share_key(own) is None && share_pos(own) is None,
        share_key(own) == Some(key) && share_pos(fake) == Some(p) ==> patched(fake, own)
            == fake.take(p as int) + key + fake.skip(p as int + key.len()),
        share_key(own) is None || share_pos(fake) is None ==> patched(fake, own) == fake,
{
    if own.len() >= 9 {
        network_value(own.subrange(6, 9));
    }
}

// ---- the settings of a connection ----

/// What tells connections apart: whether certificates are checked, the protocols, the file of
/// authorities, the certificates, the browser and whether the hello is encrypted, in this order,
/// each only where it is set.
pub proof fn settings_tell_apart(tls: TlsConfig)
    ensures
        ({
            let parts = fingerprint_parts(tls);
            let a: int = if tls.ca_path is Some {
                1
            } else {
                0
            };
            let b: int = if tls.certificate@.len() > 0 {
                1
            } else {
                0
            };
            let c: int = if tls.utls is Some {
                1
            } else {
                0
            };
            let d: int = if tls.ech is Some {
                1
            } else {
                0
            };
            &&& parts.len() == 2 + a + b + c + d
            &&& tls.insecure ==> parts[0] == "insecure=true"@
            &&& !tls.insecure ==> parts[0] == "insecure=false"@
            &&& parts[1] == "alpn="@ + debug_list(texts(tls.alpn@))
            &&& tls.ca_path matches Some(p) ==> parts[2] == "ca_path="@ + p@
            &&& tls.certificate@.len() > 0 ==> parts[2 + a] == certificate_part(tls.certificate@)
            &&& tls.utls matches Some(u) ==> parts[2 + a + b] == "utls="@ + browser_name(
                u.fingerprint,
            ) + (if u.enabled {
                "_enabled=true"@
            } else {
                "_enabled=false"@
            })
            &&& tls.ech matches Some(e) ==> parts[2 + a + b + c] == (if e.enabled {
                "ech_enabled=true"@
            } else {
                "ech_enabled=false"@
            })
        }),
{
    reveal_strlit("insecure=");
    reveal_strlit("true");
    reveal_strlit("false");
    reveal_strlit("insecure=true");
    reveal_strlit("insecure=false");
    reveal_strlit("_enabled=");
    reveal_strlit("_enabled=true");
    reveal_strlit("_enabled=false");
    reveal_strlit("ech_enabled=");
    reveal_strlit("ech_enabled=true");
    reveal_strlit("ech_enabled=false");
    assert("insecure="@ + "true"@ =~= "insecure=true"@);
    assert("insecure="@ + "false"@ =~= "insecure=false"@);
    assert("_enabled="@ + "true"@ =~= "_enabled=true"@);
    assert("_enabled="@ + "false"@ =~= "_enabled=false"@);
    assert("ech_enabled="@ + "true"@ =~= "ech_enabled=true"@);
    assert("ech_enabled="@ + "false"@ =~= "ech_enabled=false"@);
    if let Some(u) = tls.utls {
        let name = browser_name(u.fingerprint);
        assert("utls="@ + name + "_enabled="@ + "true"@ =~= "utls="@ + name + "_enabled=true"@);
        assert("utls="@ + name + "_enabled="@ + "false"@ =~= "utls="@ + name + "_enabled=false"@);
    }
}

/// Browsers are named as they are called.
pub proof fn browsers_by_name(fp: UtlsFingerprint)
    ensures
        browser_name(fp) == match fp {
            UtlsFingerprint::Chrome => "Chrome"@,
            UtlsFingerprint::Firefox => "Firefox"@,
            UtlsFingerprint::Safari => "Safari"@,
            UtlsFingerprint::Ios => "Ios"@,
            UtlsFingerprint::Android => "Android"@,
            UtlsFingerprint::Edge => "Edge"@,
            UtlsFingerprint::Browser360 => "Browser360"@,
            UtlsFingerprint::Qq => "Qq"@,
            UtlsFingerprint::Go => "Go"@,
            UtlsFingerprint::Random => "Random"@,
        },
{
}

/// Certificates are told apart by how many there are and by the length and the first 32 bytes of the
/// first, in hexadecimal digits.
pub proof fn certificates_tell_apart(certs: Seq<String>, bytes: Seq<u8>, b: u8)
    ensures
        certs.len() > 0 ==> certificate_part(certs) == "cert_inline_count="@ + crate::text::dec_text(
            certs.len(),
        ) + "_len0="@ + crate::text::dec_text(encode_utf8(certs[0]@).len()) + "_head0="@ + hex_dump(
            cert_head(encode_utf8(certs[0]@)),
        ),
        bytes.len() <= 32 ==> cert_head(bytes) == bytes,
        bytes.len() > 32 ==> cert_head(bytes) == bytes.take(32),
        hex_dump(Seq::empty()).len() == 0,
        hex_dump(bytes.push(b)) == hex_dump(bytes) + hex_byte_text(b),
{
    assert(bytes.push(b).drop_last() =~= bytes);
    if bytes.len() == 32 {
        assert(bytes.take(32) =~= bytes);
    }
}

/// All certificates of the settings are taken, in their order, and one that cannot be read spoils
/// them all.
pub proof fn certificates_are_collected(pems: Seq<String>, pem: String)
    ensures
        all_certificates(Seq::empty()) == Some(Seq::<Seq<u8>>::empty()),
        all_certificates(pems.push(pem)) == match (
            all_certificates(pems),
            pem_certificates(encode_utf8(pem@)),
        ) {
            (Some(a), Some(b)) => Some(a + b),
            _ => None,
        },
{
    assert(pems.push(pem).drop_last() =~= pems);
}

/// A hello is encrypted, or made like a browser's, only where that is set and enabled.
pub proof fn wishes_are_enabled(tls: TlsConfig)
    ensures
        wants_ech(tls) <==> tls.ech is Some && tls.ech->Some_0.enabled,
        wants_utls(tls) <==> tls.utls is Some && tls.utls->Some_0.enabled,
{
}

} // verus!
