//! What the steps of the state machines change and what they keep.

use crate::anytls::{distinct, in_order, to_close, Idle};
use crate::anytls_outbound::AnyTlsOutbound;
use crate::common::group::keeps_static;
use crate::common::interface_finder::{
    groups, named_entries, names_of, usable, Interface, ListedAddr,
};
use crate::common::smux::{MultiplexPool, SmuxSession};
use crate::naive::NaiveOutbound;
use crate::shadowsocks::{
    chunk_total, did, handed_out, keyed, method_2022, method_key_len, received, AeadCipher, Plan,
    SsRead, SsReader, Stage,
};
use crate::ssh::{answers, Totp};
use crate::text::has_part;
use crate::tls::connector::byte_lists;
use crate::tls::ech::{are_configs, config_view, has_bytes, is_config, EchConfig};
use crate::tls::reality::ServerFlight;
use crate::tls::record::RecordKey;
use crate::tls::stream::RecordWriter;
use vstd::prelude::*;

verus! {

// ---- Shadowsocks ----

/// A cipher has a key of the length of its method, and sealing and opening keep both.
pub proof fn ciphers_keep_their_keys(a: AeadCipher, b: AeadCipher)
    ensures
        a.wf() <==> a.key@.len() == method_key_len(a.method),
        a.same_key(&b) <==> a.method == b.method && a.key@ == b.key@,
{
}

/// The stages of a response: the salt, then for the 2022 edition the header and the padding, then
/// chunks.
pub proof fn responses_have_stages(r: SsReader)
    ensures
        r.dec is None ==> r.stage() is Salt,
        r.dec is Some && method_2022(r.method) && !r.response_read && r.padding is None
            ==> r.stage() is Header,
        r.dec is Some && method_2022(r.method) && !r.response_read ==> (r.padding matches Some(n)
            ==> r.stage() == Stage::Padding(n as nat)),
        r.dec is Some && (!method_2022(r.method) || r.response_read) ==> r.stage() is Chunks,
        r.request_salt matches Some(s) ==> r.salt_seq() == Some(s@),
        r.request_salt is None ==> r.salt_seq() is None,
        r.wf() ==> (r.dec matches Some(c) ==> c.method == r.method && c.key@.len()
            == method_key_len(r.method)),
{
}

/// Bytes that come in are put behind those that are there, the session key is set once the salt is
/// used up, and data is handed out from the front; nothing else changes.
pub proof fn readers_change_little(
    before: SsReader,
    after: SsReader,
    bytes: Seq<u8>,
    key: Seq<u8>,
    n: nat,
    data: Seq<u8>,
)
    ensures
        received(before, after, bytes) ==> after.raw@ == before.raw@ + bytes && after.plain
            == before.plain && after.dec == before.dec && after.padding == before.padding
            && after.response_read == before.response_read && after.method == before.method
            && after.request_salt == before.request_salt && after.check_time == before.check_time,
        keyed(before, after, key) ==> (after.dec matches Some(c) && c.key@ == key && c.counter == 0
            && c.method == before.method) && after.raw@ == before.raw@.skip(
            method_key_len(before.method) as int,
        ) && after.plain == before.plain && after.padding == before.padding && after.response_read
            == before.response_read && after.method == before.method && after.request_salt
            == before.request_salt && after.check_time == before.check_time,
        handed_out(before, after, n, data) ==> data.len() <= n && data + after.plain@
            == before.plain@ && (data.len() < n ==> after.plain@.len() == 0) && after.raw
            == before.raw && after.dec == before.dec && after.padding == before.padding
            && after.response_read == before.response_read && after.method == before.method
            && after.request_salt == before.request_salt && after.check_time == before.check_time,
{
}

/// A step takes from what has arrived just the bytes that it used, counts the messages that it
/// opened, and keeps the key, the method and the salt.
pub proof fn steps_use_up_what_they_read(
    s: SsRead,
    old: SsReader,
    new: SsReader,
    plan: Plan,
    other: SsReader,
    bytes: nat,
    n: nat,
)
    ensures
        new.advanced(&old, bytes, n) ==> new.raw@ == old.raw@.skip(bytes as int) && new.method
            == old.method && new.request_salt == old.request_salt && new.check_time
            == old.check_time && (new.dec is Some <==> old.dec is Some) && (new.dec matches Some(c)
            ==> c.counter == old.dec->Some_0.counter + n && c.key@ == old.dec->Some_0.key@
            && c.method == old.dec->Some_0.method),
        did(s, old, new, plan) ==> (match plan {
            Plan::Ready => s is Data && new == old,
            Plan::More(at) => s == SsRead::More(at) && new == old,
            Plan::Derive(salt) => (s matches SsRead::DeriveKey(x) && x@ == salt) && new == old,
            Plan::Fail(e, b, k) => s == SsRead::Failed(e) && new.advanced(&old, b, k) && new.plain
                == old.plain && new.padding == old.padding && new.response_read
                == old.response_read,
            Plan::Header(b, p) => s is Progress && new.advanced(&old, b, 1) && (
            new.padding matches Some(q) && q == p) && !(new.response_read && !old.response_read)
                && new.plain == old.plain,
            Plan::Padding(b) => s is Progress && new.advanced(&old, b, 1) && new.response_read
                && new.plain == old.plain,
            Plan::Chunk(b, data) => s is Data && new.advanced(&old, b, 2) && new.plain@ == data
                && new.response_read == old.response_read,
        }),
{
}

/// Data makes as many chunks of 16383 bytes as hold it.
pub proof fn chunks_are_counted(len: nat)
    ensures
        chunk_total(0) == 0,
        chunk_total(len) * 16383 >= len,
        len > 0 ==> (chunk_total(len) - 1) * 16383 < len,
{
}

// ---- TLS ----

/// The dialogue keeps the suite, the keys of both sides and the secrets.
pub proof fn dialogues_keep_their_keys(a: ServerFlight, b: ServerFlight)
    requires
        a.same_keys(&b),
    ensures
        a.suite == b.suite,
        a.client == b.client,
        a.server.suite == b.server.suite,
        a.server.key@ == b.server.key@,
        a.server.iv@ == b.server.iv@,
        a.client_secret@ == b.client_secret@,
        a.server_secret@ == b.server_secret@,
        a.master_secret@ == b.master_secret@,
        a.auth_key@ == b.auth_key@,
{
}

/// A record key has a key of the length of its suite and twelve bytes for its nonces.
pub proof fn record_keys_fit(k: RecordKey, w: RecordWriter)
    ensures
        k.wf() <==> k.key@.len() == crate::tls::keys::suite_key_len(k.suite) && k.iv@.len() == 12,
        w.pos <= w.frame@.len() ==> w.frame@ == w.frame@.take(w.pos as int) + w.pending(),
{
}

/// Configs are those of the bytes of the list, one for one.
pub proof fn configs_match_their_bytes(configs: Seq<EchConfig>, raws: Seq<Seq<u8>>, i: int)
    requires
        are_configs(configs, raws),
    ensures
        configs.len() == raws.len(),
        0 <= i < configs.len() ==> configs[i].raw@ == raws[i] && (config_view(raws[i]) matches Ok(v)
            && is_config(configs[i], raws[i], v)),
{
    if 0 <= i < configs.len() {
        assert(has_bytes(configs[i], raws[i]));
    }
}

/// Lists of bytes are taken one for one.
pub proof fn lists_are_taken_one_for_one(lists: Seq<Vec<u8>>, i: int)
    ensures
        byte_lists(lists).len() == lists.len(),
        0 <= i < lists.len() ==> byte_lists(lists)[i] == lists[i]@,
{
}

// ---- others ----

/// Interfaces have the names and the addresses that were listed for them.
pub proof fn interfaces_have_their_addresses(
    interfaces: Seq<Interface>,
    listed: Seq<ListedAddr>,
    i: int,
    j: int,
)
    requires
        groups(interfaces, listed),
        0 <= i < interfaces.len(),
    ensures
        interfaces.len() == names_of(listed).len(),
        interfaces[i].name@ == names_of(listed)[i],
        interfaces[i].addrs@.len() == usable(named_entries(listed, interfaces[i].name@)).len(),
        0 <= j < interfaces[i].addrs@.len() ==> interfaces[i].addrs@[j].0 == usable(
            named_entries(listed, interfaces[i].name@),
        )[j].0 && interfaces[i].addrs@[j].1 == usable(
            named_entries(listed, interfaces[i].name@),
        )[j].1,
{
    let names = interfaces.map_values(|f: Interface| f.name@);
    assert(names[i] == interfaces[i].name@);
    let p = crate::common::interface_finder::plain(interfaces[i].addrs@);
    if 0 <= j < interfaces[i].addrs@.len() {
        assert(p[j] == (interfaces[i].addrs@[j].0, interfaces[i].addrs@[j].1 as nat));
    }
}

/// An answer to a question for the password is the password, and an answer to a question that asks
/// for neither the password nor a code is empty, whenever it is given.
pub proof fn answers_at_any_time(
    text: Seq<char>,
    prompt: Seq<char>,
    password: Seq<char>,
    totp: Option<Totp>,
)
    requires
        answers(text, prompt, Some(password), totp),
    ensures
        has_part(prompt, "Password: "@) ==> text == password,
        !has_part(prompt, "Password: "@) && !has_part(prompt, "Verification code: "@) ==> text.len()
            == 0,
        !has_part(prompt, "Password: "@) && totp is None ==> text.len() == 0,
{
}

/// Idle sessions stand in the order of their numbers, each once, and those that are closed are among
/// the older ones and have been idle for too long.
pub proof fn idle_sessions(idle: Seq<Idle>, i: int, j: int, now: u64, timeout: u64, min_idle: nat)
    requires
        0 <= i < j < idle.len(),
    ensures
        in_order(idle) ==> idle[i].seq <= idle[j].seq,
        distinct(idle) ==> idle[i].seq != idle[j].seq,
        j < idle.len() - min_idle && now > idle[j].since + timeout ==> to_close(
            idle,
            idle[j].seq,
            now,
            timeout,
            min_idle,
        ),
        distinct(idle) && j >= idle.len() - min_idle ==> !to_close(
            idle,
            idle[j].seq,
            now,
            timeout,
            min_idle,
        ),
        distinct(idle) && now <= idle[j].since + timeout ==> !to_close(
            idle,
            idle[j].seq,
            now,
            timeout,
            min_idle,
        ),
{
    let seq = idle[j].seq;
    if distinct(idle) && to_close(idle, seq, now, timeout, min_idle) {
        let k = choose|k: int|
            0 <= k < idle.len() - min_idle && (#[trigger] idle[k]).seq == seq
                && crate::anytls::expired(idle[k], now, timeout);
        if k < j {
            assert(idle[k].seq != idle[j].seq);
        }
        if k > j {
            assert(idle[j].seq != idle[k].seq);
        }
    }
}

/// Streams of smux have odd numbers, and a pool keeps to its limits.
pub proof fn pools_keep_their_limits(s: SmuxSession, p: MultiplexPool, i: int)
    ensures
        s.wf() <==> s.next_id % 2 == 1,
        p.wf() ==> p.counts@.len() <= p.max_connections,
        p.wf() && 0 <= i < p.counts@.len() ==> 1 <= p.counts@[i] && p.counts@[i] <= p.max_streams,
{
}

/// The nodes of the settings stay at the front of a group.
pub proof fn settings_stay_in_front(outbounds: Seq<Seq<char>>, all: Seq<Seq<char>>, i: int)
    requires
        keeps_static(outbounds, all),
        0 <= i < outbounds.len(),
    ensures
        outbounds.len() <= all.len(),
        all[i] == outbounds[i],
{
    assert(all.take(outbounds.len() as int)[i] == outbounds[i]);
}

/// Datagrams go through a stream only where that is set and enabled.
pub proof fn datagrams_in_streams<R>(o: NaiveOutbound<R>)
    ensures
        o.udp_enabled() <==> o.config.udp_over_tcp is Some && o.config.udp_over_tcp->Some_0.enabled,
{
}

/// An outbound that was not used has no session and has counted none.
pub proof fn unused_outbounds<R>(o: AnyTlsOutbound<R>)
    ensures
        o.unused() <==> o.client.pool.idle@.len() == 0 && o.client.pool.session_seq == 0,
{
}

} // verus!
