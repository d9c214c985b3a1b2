//! The messages and certificates of a TLS server, as they are read.

use crate::laws::bytes::{network_value, two};
use crate::laws::tls::message;
use crate::tls::certificate::{
    certified, der_at, der_children, der_contents, ed25519_key, ed25519_parts,
};
use crate::tls::parse::{bytes_at, number_at};
use crate::tls::server_hello::{
    hello_fields, leaf_certificate, retry_random, scan_extensions, server_hello, share_of,
    HelloError,
};
use crate::wire::be_value;
use vstd::prelude::*;

verus! {

/// A number of three bytes, the high one first.
pub open spec fn three(n: nat) -> Seq<u8> {
    seq![(n / 0x1_0000 % 256) as u8] + two(n)
}

proof fn three_is_read(n: nat)
    requires
        n < 0x100_0000,
    ensures
        be_value(three(n)) == n,
{
    network_value(three(n));
}

/// Bytes are read where they stand, and numbers with the high byte first.
pub proof fn fields_are_read(before: Seq<u8>, b: Seq<u8>, after: Seq<u8>, n: nat)
    ensures
        bytes_at(before + b + after, before.len(), b.len()) == Some(b),
        bytes_at(before + b, before.len(), b.len() + 1) is None,
        n < 256 ==> number_at(before + seq![n as u8] + after, before.len(), 1) == Some(n),
        n < 0x1_0000 ==> number_at(before + two(n) + after, before.len(), 2) == Some(n),
        n < 0x100_0000 ==> number_at(before + three(n) + after, before.len(), 3) == Some(n),
{
    let p = before.len() as int;
    assert((before + b + after).subrange(p, p + b.len()) =~= b);
    let one = seq![n as u8];
    assert((before + one + after).subrange(p, p + 1) =~= one);
    assert((before + two(n) + after).subrange(p, p + 2) =~= two(n));
    assert((before + three(n) + after).subrange(p, p + 3) =~= three(n));
    network_value(one);
    network_value(two(n));
    network_value(three(n));
}

/// The random value that asks for another hello.
pub proof fn retry_is_known()
    ensures
        retry_random() == seq![
            0xcfu8,
            0x21,
            0xad,
            0x74,
            0xe5,
            0x9a,
            0x61,
            0x11,
            0xbe,
            0x1d,
            0x8c,
            0x02,
            0x1e,
            0x65,
            0xb8,
            0x91,
            0xc2,
            0xa2,
            0x11,
            0x16,
            0x7a,
            0xbb,
            0x8c,
            0x5e,
            0x07,
            0x9e,
            0x09,
            0xe2,
            0xc8,
            0xa8,
            0x33,
            0x9c,
        ],
{
}

/// A share of a key: the group, the length, the key. Only one of 32 bytes in the group 29 counts.
pub proof fn shares_are_read(group: u16, key: Seq<u8>, rest: Seq<u8>)
    requires
        key.len() < 0x1_0000,
    ensures
        group == 29 && key.len() == 32 ==> share_of(
            two(group as nat) + two(key.len()) + key + rest,
        ) == Some(Some(key)),
        group != 29 || key.len() != 32 ==> share_of(
            two(group as nat) + two(key.len()) + key + rest,
        ) == Some(None::<Seq<u8>>),
{
    let d = two(group as nat) + two(key.len()) + key + rest;
    fields_are_read(Seq::empty(), Seq::empty(), two(key.len()) + key + rest, group as nat);
    assert(Seq::<u8>::empty() + two(group as nat) + (two(key.len()) + key + rest) =~= d);
    fields_are_read(two(group as nat), Seq::empty(), key + rest, key.len());
    assert(two(group as nat) + two(key.len()) + (key + rest) =~= d);
    fields_are_read(two(group as nat) + two(key.len()), key, rest, 0);
}

/// An extension of a ServerHello: 43 says whether the version is 1.3, 51 brings a share, and all
/// others are passed over.
pub proof fn server_extensions_are_read(
    before: Seq<u8>,
    kind: u16,
    data: Seq<u8>,
    after: Seq<u8>,
    share: Option<Seq<u8>>,
    tls13: bool,
)
    requires
        data.len() < 0x1_0000,
    ensures
        ({
            let e = two(kind as nat) + two(data.len()) + data;
            let all = before + e + after;
            let next = before.len() + e.len();
            let got = scan_extensions(all, before.len(), share, tls13);
            &&& kind == 43 ==> got == scan_extensions(
                all,
                next,
                share,
                data == seq![3u8, 4u8],
            )
            &&& kind == 51 ==> (match share_of(data) {
                Some(Some(k)) => got == scan_extensions(all, next, Some(k), tls13),
                Some(None) => got == scan_extensions(all, next, share, tls13),
                None => got is None,
            })
            &&& kind != 43 && kind != 51 ==> got == scan_extensions(all, next, share, tls13)
        }),
        scan_extensions(before, before.len(), share, tls13) == Some((share, tls13)),
{
    let e = two(kind as nat) + two(data.len()) + data;
    let all = before + e + after;
    fields_are_read(before, Seq::empty(), two(data.len()) + data + after, kind as nat);
    assert(before + two(kind as nat) + (two(data.len()) + data + after) =~= all);
    fields_are_read(before + two(kind as nat), Seq::empty(), data + after, data.len());
    assert(before + two(kind as nat) + two(data.len()) + (data + after) =~= all);
    fields_are_read(before + two(kind as nat) + two(data.len()), data, after, 0);
    assert(before + two(kind as nat) + two(data.len()) + data + after =~= all);
}

/// The body of a ServerHello.
#[verifier::opaque]
pub open spec fn hello_body(
    random: Seq<u8>,
    session: Seq<u8>,
    suite: u16,
    compression: u8,
    exts: Seq<u8>,
) -> Seq<u8> {
    seq![3u8, 3u8] + random + seq![session.len() as u8] + session + two(suite as nat) + seq![
        compression,
    ] + two(exts.len()) + exts
}

proof fn hello_fields_are_read(
    random: Seq<u8>,
    session: Seq<u8>,
    suite: u16,
    compression: u8,
    exts: Seq<u8>,
)
    requires
        random.len() == 32,
        session.len() <= 255,
        exts.len() < 0x1_0000,
    ensures
        ({
            let body = hello_body(random, session, suite, compression, exts);
            let n = session.len();
            &&& body.take(2) == seq![3u8, 3u8]
            &&& body.subrange(2, 34) == random
            &&& 40 <= body.len() <= 40 + 255 + 0x1_0000
            &&& number_at(body, 34, 1) == Some(n)
            &&& bytes_at(body, 35, n) == Some(session)
            &&& number_at(body, 35 + n, 2) == Some(suite as nat)
            &&& number_at(body, 37 + n, 1) == Some(compression as nat)
            &&& number_at(body, 38 + n, 2) == Some(exts.len())
            &&& bytes_at(body, 40 + n, exts.len()) == Some(exts)
        }),
{
    reveal(hello_body);
    let body = hello_body(random, session, suite, compression, exts);
    let none = Seq::<u8>::empty();
    let a = seq![3u8, 3u8] + random;
    assert(body.take(2) =~= seq![3u8, 3u8]);
    assert(body.subrange(2, 34) =~= random);
    let one = seq![session.len() as u8];
    let x = seq![compression];
    let after_len = session + two(suite as nat) + x + two(exts.len()) + exts;
    fields_are_read(a, none, after_len, session.len());
    assert(a + one + after_len =~= body);
    let after_session = two(suite as nat) + x + two(exts.len()) + exts;
    fields_are_read(a + one, session, after_session, 0);
    assert(a + one + session + after_session =~= body);
    let after_suite = x + two(exts.len()) + exts;
    fields_are_read(a + one + session, none, after_suite, suite as nat);
    assert(a + one + session + two(suite as nat) + after_suite =~= body);
    let after_x = two(exts.len()) + exts;
    fields_are_read(a + one + session + two(suite as nat), none, after_x, compression as nat);
    assert(a + one + session + two(suite as nat) + x + after_x =~= body);
    let b = a + one + session + two(suite as nat) + x;
    fields_are_read(b, none, exts, exts.len());
    fields_are_read(b + two(exts.len()), exts, none, 0);
    assert(b + two(exts.len()) + exts + none =~= body);
}

proof fn hello_is_framed(body: Seq<u8>)
    requires
        40 <= body.len() < 0x100_0000,
        body.take(2) == seq![3u8, 3u8],
    ensures
        server_hello(message(2, body)) == if body.subrange(2, 34) == retry_random() {
            Err::<(nat, Seq<u8>, Seq<u8>), HelloError>(HelloError::HelloRetryRequest)
        } else {
            hello_fields(body)
        },
{
    framed_parts(body);
    three_is_read(body.len());
}

proof fn framed_parts(body: Seq<u8>)
    ensures
        ({
            let raw = message(2, body);
            &&& raw.len() == 4 + body.len()
            &&& raw[0] == 2
            &&& raw.subrange(1, 4) == three(body.len())
            &&& raw.skip(4) == body
        }),
{
    let raw = message(2, body);
    assert(raw.subrange(1, 4) =~= three(body.len()));
    assert(raw.skip(4) =~= body);
}

/// A ServerHello is a message of the type 2: the version 0x0303, a random value, the session, the
/// suite, no compression and extensions. What is taken of it are the suite, the session and the
/// share; a faulty one is refused for its first fault.
pub proof fn server_hello_is_read(
    random: Seq<u8>,
    session: Seq<u8>,
    suite: u16,
    compression: u8,
    exts: Seq<u8>,
)
    requires
        random.len() == 32,
        session.len() <= 255,
        exts.len() < 0x1_0000,
    ensures
        ({
            let raw = message(2, hello_body(random, session, suite, compression, exts));
            let got = server_hello(raw);
            if random == retry_random() {
                got == Err::<(nat, Seq<u8>, Seq<u8>), HelloError>(HelloError::HelloRetryRequest)
            } else if compression != 0 {
                got == Err::<(nat, Seq<u8>, Seq<u8>), HelloError>(HelloError::Compression)
            } else {
                match scan_extensions(exts, 0, None, false) {
                    None => got == Err::<(nat, Seq<u8>, Seq<u8>), HelloError>(
                        HelloError::Truncated,
                    ),
                    Some((_, false)) => got == Err::<(nat, Seq<u8>, Seq<u8>), HelloError>(
                        HelloError::NotTls13,
                    ),
                    Some((None, true)) => got == Err::<(nat, Seq<u8>, Seq<u8>), HelloError>(
                        HelloError::MissingKeyShare,
                    ),
                    Some((Some(key), true)) => got == Ok::<_, HelloError>(
                        (suite as nat, session, key),
                    ),
                }
            }
        }),
{
    let body = hello_body(random, session, suite, compression, exts);
    let raw = message(2, body);
    hello_fields_are_read(random, session, suite, compression, exts);
    hello_is_framed(body);
}

/// What is no ServerHello of this protocol is refused: another type, another length than the one
/// that it says, and another version.
pub proof fn other_messages_are_refused(raw: Seq<u8>)
    ensures
        raw.len() < 42 || raw[0] != 2 ==> server_hello(raw) == Err::<
            (nat, Seq<u8>, Seq<u8>),
            HelloError,
        >(HelloError::Invalid),
        raw.len() >= 42 && raw[0] == 2 && raw.len() != 4 + raw[1] * 0x1_0000 + raw[2] * 256 + raw[3]
            ==> server_hello(raw) == Err::<(nat, Seq<u8>, Seq<u8>), HelloError>(HelloError::Length),
        raw.len() >= 42 && raw[0] == 2 && raw.len() == 4 + raw[1] * 0x1_0000 + raw[2] * 256 + raw[3]
            && (raw[4] != 3 || raw[5] != 3) ==> server_hello(raw) == Err::<
            (nat, Seq<u8>, Seq<u8>),
            HelloError,
        >(HelloError::LegacyVersion),
{
    if raw.len() >= 42 {
        network_value(raw.subrange(1, 4));
        let b = raw.skip(4).take(2);
        assert(b[0] == raw[4] && b[1] == raw[5]);
        if b == seq![3u8, 3u8] {
            assert(b[0] == 3 && b[1] == 3);
        }
    }
}

/// With the version and the share among its extensions, in this order, a ServerHello gives its
/// suite, its session and the key.
pub proof fn usual_server_hello(random: Seq<u8>, session: Seq<u8>, suite: u16, key: Seq<u8>)
    requires
        random.len() == 32,
        random != retry_random(),
        session.len() <= 255,
        key.len() == 32,
    ensures
        ({
            let exts = two(43) + two(2) + seq![3u8, 4u8] + (two(51) + two(36) + (two(29) + two(32)
                + key));
            server_hello(message(2, hello_body(random, session, suite, 0, exts))) == Ok::<
                _,
                HelloError,
            >((suite as nat, session, key))
        }),
{
    let none = Seq::<u8>::empty();
    let v = seq![3u8, 4u8];
    let a = two(43) + two(2) + v;
    let d = two(29) + two(32) + key;
    let b = two(51) + two(36) + d;
    let exts = a + b;
    server_hello_is_read(random, session, suite, 0, exts);
    server_extensions_are_read(none, 43, v, b, None, false);
    assert(none + a + b =~= exts);
    server_extensions_are_read(a, 51, d, none, None, true);
    assert(a + b + none =~= exts);
    shares_are_read(29, key, none);
    assert(two(29) + two(32) + key + none =~= d);
    server_extensions_are_read(exts, 0, none, none, Some(key), true);
}

/// The certificate of the server is the first of the list in its message, behind a context.
pub proof fn first_certificate_is_taken(context: Seq<u8>, cert: Seq<u8>, others: Seq<u8>)
    requires
        context.len() <= 255,
        3 + cert.len() + others.len() < 0x100_0000,
    ensures
        leaf_certificate(
            seq![context.len() as u8] + context + three(3 + cert.len() + others.len()) + (three(
                cert.len(),
            ) + cert + others),
        ) == Some(cert),
{
    let list = three(cert.len()) + cert + others;
    assert(list.len() == 3 + cert.len() + others.len());
    context_is_passed(context, list);
    first_is_read(cert, others);
}

proof fn context_is_passed(context: Seq<u8>, list: Seq<u8>)
    requires
        context.len() <= 255,
        list.len() < 0x100_0000,
    ensures
        ({
            let body = seq![context.len() as u8] + context + three(list.len()) + list;
            let n = context.len();
            &&& number_at(body, 0, 1) == Some(n)
            &&& bytes_at(body, 1, n) == Some(context)
            &&& number_at(body, 1 + n, 3) == Some(list.len())
            &&& bytes_at(body, 4 + n, list.len()) == Some(list)
        }),
{
    let none = Seq::<u8>::empty();
    let one = seq![context.len() as u8];
    let len = three(list.len());
    let body = one + context + len + list;
    fields_are_read(none, none, context + len + list, context.len());
    assert(none + one + (context + len + list) =~= body);
    fields_are_read(one, context, len + list, 0);
    assert(one + context + (len + list) =~= body);
    fields_are_read(one + context, none, list, list.len());
    assert(one + context + len + list =~= body);
    fields_are_read(one + context + len, list, none, 0);
    assert(one + context + len + list + none =~= body);
}

proof fn first_is_read(cert: Seq<u8>, others: Seq<u8>)
    requires
        cert.len() < 0x100_0000,
    ensures
        ({
            let list = three(cert.len()) + cert + others;
            &&& number_at(list, 0, 3) == Some(cert.len())
            &&& bytes_at(list, 3, cert.len()) == Some(cert)
        }),
{
    let none = Seq::<u8>::empty();
    let len = three(cert.len());
    let list = len + cert + others;
    fields_are_read(none, none, cert + others, cert.len());
    assert(none + len + (cert + others) =~= list);
    fields_are_read(len, cert, others, 0);
}

// ---- certificates ----

/// A length as it stands before the contents of an item.
pub open spec fn item_len(n: nat) -> Seq<u8> {
    if n < 128 {
        seq![n as u8]
    } else if n < 256 {
        seq![0x81u8, n as u8]
    } else {
        seq![0x82u8] + two(n)
    }
}

/// An item: its tag, the length of its contents and the contents.
#[verifier::opaque]
pub open spec fn item(tag: u8, contents: Seq<u8>) -> Seq<u8> {
    seq![tag] + item_len(contents.len()) + contents
}

/// Items one after another.
pub open spec fn items(list: Seq<(u8, Seq<u8>)>) -> Seq<u8>
    decreases list.len(),
{
    if list.len() == 0 {
        Seq::empty()
    } else {
        item(list[0].0, list[0].1) + items(list.skip(1))
    }
}

/// An item is read where it stands: its tag and where its contents start and end.
pub proof fn items_are_read(before: Seq<u8>, tag: u8, contents: Seq<u8>, after: Seq<u8>)
    requires
        contents.len() < 0x1_0000,
    ensures
        ({
            let all = before + item(tag, contents) + after;
            let end = before.len() + item(tag, contents).len();
            &&& der_at(all, before.len()) == Some((tag, (end - contents.len()) as nat, end))
            &&& 2 <= item(tag, contents).len() - contents.len() <= 4
            &&& der_contents(all, (tag, (end - contents.len()) as nat, end)) == contents
        }),
{
    reveal(item);
    let it = item(tag, contents);
    let all = before + it + after;
    let n = contents.len();
    let p = before.len() as int;
    let end = p + it.len();
    assert(all[p] == tag);
    assert(all.subrange(end - n, end) =~= contents);
    if n < 128 {
        assert(all[p + 1] == n as u8);
    } else if n < 256 {
        assert(all[p + 1] == 0x81);
        assert(all[p + 2] == n as u8);
        network_value(all.subrange(p + 2, p + 3));
    } else {
        assert(all[p + 1] == 0x82);
        assert(all[p + 2] == two(n)[0] && all[p + 3] == two(n)[1]);
        network_value(all.subrange(p + 2, p + 4));
    }
}

/// Items that follow each other are all read, in their order.
pub proof fn item_lists_are_read(before: Seq<u8>, list: Seq<(u8, Seq<u8>)>)
    requires
        forall|i: int| 0 <= i < list.len() ==> (#[trigger] list[i]).1.len() < 0x1_0000,
    ensures
        ({
            let all = before + items(list);
            der_children(all, before.len()) matches Some(nodes) && nodes.len() == list.len()
                && forall|i: int|
                0 <= i < list.len() ==> (#[trigger] nodes[i]).0 == list[i].0 && der_contents(
                    all,
                    nodes[i],
                ) == list[i].1
        }),
    decreases list.len(),
{
    let all = before + items(list);
    if list.len() > 0 {
        let first = item(list[0].0, list[0].1);
        let rest = list.skip(1);
        assert(list[0].1.len() < 0x1_0000);
        assert forall|i: int| 0 <= i < rest.len() implies (#[trigger] rest[i]).1.len()
            < 0x1_0000 by {
            assert(rest[i] == list[i + 1]);
        }
        item_lists_are_read(before + first, rest);
        items_are_read(before, list[0].0, list[0].1, items(rest));
        assert(before + first + items(rest) =~= all);
        let node = der_at(all, before.len())->Some_0;
        let others = der_children(all, node.2)->Some_0;
        let nodes = der_children(all, before.len())->Some_0;
        assert(nodes =~= seq![node] + others);
        assert forall|i: int| 0 <= i < list.len() implies (#[trigger] nodes[i]).0 == list[i].0
            && der_contents(all, nodes[i]) == list[i].1 by {
            if i > 0 {
                assert(nodes[i] == others[i - 1]);
                assert(rest[i - 1] == list[i]);
            }
        }
    }
}

/// A key of Ed25519 is 32 bytes in a bit string, behind the identifier of the algorithm, which is
/// 1.3.101.112.
pub proof fn ed25519_keys_are_read(key: Seq<u8>, more: Seq<u8>, oid: Seq<u8>, after: Seq<u8>)
    requires
        oid.len() < 100,
        more.len() < 100,
        key.len() < 1000,
    ensures
        ({
            let spki = item(0x30, item(0x06, oid) + more) + item(0x03, seq![0u8] + key) + after;
            ed25519_key(spki) == if oid == seq![0x2bu8, 0x65, 0x70] && key.len() == 32 {
                Some(key)
            } else {
                None
            }
        }),
{
    let none = Seq::<u8>::empty();
    let a = item(0x06, oid) + more;
    let b = seq![0u8] + key;
    let alg = item(0x30, a);
    let spki = alg + item(0x03, b) + after;
    items_are_read(none, 0x06, oid, more);
    assert(none + item(0x06, oid) + more =~= a);
    items_are_read(none, 0x30, a, item(0x03, b) + after);
    assert(none + alg + (item(0x03, b) + after) =~= spki);
    items_are_read(alg, 0x03, b, after);
    assert(b.skip(1) =~= key);
}

/// A certificate is what was signed, the algorithm and the signature, a bit string.
pub proof fn certificates_are_read(tbs: Seq<u8>, algorithm: Seq<u8>, signature: Seq<u8>)
    requires
        tbs.len() < 0x8000,
        algorithm.len() < 100,
        signature.len() < 1000,
    ensures
        ed25519_parts(
            item(
                0x30,
                item(0x30, tbs) + item(0x30, algorithm) + item(0x03, seq![0u8] + signature),
            ),
        ) == certified(tbs, seq![0u8] + signature),
{
    let none = Seq::<u8>::empty();
    let t = item(0x30, tbs);
    let g = item(0x30, algorithm);
    let s = item(0x03, seq![0u8] + signature);
    let c = t + g + s;
    items_are_read(none, 0x30, tbs, g + s);
    assert(none + t + (g + s) =~= c);
    items_are_read(t, 0x30, algorithm, s);
    items_are_read(t + g, 0x03, seq![0u8] + signature, none);
    assert(t + g + s + none =~= c);
    items_are_read(none, 0x30, c, none);
    assert(none + item(0x30, c) + none =~= item(0x30, c));
}

/// The key stands behind five fields of what was signed, and behind the version where it is given;
/// the signature is what follows the first byte of its bit string, which is zero.
pub proof fn certified_keys(fields: Seq<(u8, Seq<u8>)>, signature: Seq<u8>, b: u8)
    requires
        forall|i: int| 0 <= i < fields.len() ==> (#[trigger] fields[i]).1.len() < 0x1_0000,
        fields.len() > 0,
    ensures
        ({
            let at: int = if fields[0].0 == 0xa0 {
                6
            } else {
                5
            };
            certified(items(fields), seq![0u8] + signature) == if at < fields.len() {
                match ed25519_key(fields[at].1) {
                    Some(key) => Some((key, signature)),
                    None => None,
                }
            } else {
                None
            }
        }),
        b != 0 ==> certified(items(fields), seq![b] + signature) is None,
        certified(items(fields), Seq::empty()) is None,
{
    let none = Seq::<u8>::empty();
    item_lists_are_read(none, fields);
    assert(none + items(fields) =~= items(fields));
    let s = seq![0u8] + signature;
    assert(s.skip(1) =~= signature);
    assert(s[0] == 0);
    assert((seq![b] + signature)[0] == b);
    let nodes = der_children(items(fields), 0)->Some_0;
    assert(nodes[0].0 == fields[0].0);
    if fields.len() > 5 {
        assert(nodes[5].0 == fields[5].0);
    }
    if fields.len() > 6 {
        assert(nodes[6].0 == fields[6].0);
    }
}

} // verus!
