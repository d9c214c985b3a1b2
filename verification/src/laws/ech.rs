//! The settings of the encrypted ClientHello: their bytes, their text and where DNS has them.

use crate::config::OutboundECHOptions;
use crate::encoding::base64_standard;
use crate::laws::bytes::{network_value, two};
use crate::laws::server::fields_are_read;
use crate::text::{first_at, joined_text};
use crate::tls::ech::{
    answers_param, config_list, config_view, ech_contents, ech_param, file_of, is_config, name_end,
    pem_bytes, pem_list, questions_end, raw_configs, record_param, response_param, settings_list,
    suites_at, visible_name, without_final_dots, without_spaces, EchCipherSuite, EchConfig,
    EchError, EchView,
};
use crate::tls::parse::{bytes_at, number_at};
use vstd::prelude::*;
use vstd::utf8::{encode_utf8, encode_utf8_decode_utf8, encode_utf8_valid_utf8};

verus! {

/// Suites are pairs of numbers of two bytes.
pub proof fn suites_are_pairs(before: Seq<u8>, kdf: u16, aead: u16, after: Seq<u8>, end: nat)
    requires
        end >= before.len() + 4,
    ensures
        ({
            let s = before + two(kdf as nat) + two(aead as nat) + after;
            suites_at(s, before.len(), end) == match suites_at(s, before.len() + 4, end) {
                Some(rest) => Some(seq![EchCipherSuite { kdf_id: kdf, aead_id: aead }] + rest),
                None => None,
            }
        }),
        suites_at(before, end, end) == Some(Seq::<EchCipherSuite>::empty()),
{
    let s = before + two(kdf as nat) + two(aead as nat) + after;
    fields_are_read(before, Seq::empty(), two(aead as nat) + after, kdf as nat);
    assert(before + two(kdf as nat) + (two(aead as nat) + after) =~= s);
    fields_are_read(before + two(kdf as nat), Seq::empty(), after, aead as nat);
}

/// What stands before the suites of a config.
#[verifier::opaque]
pub open spec fn config_head(id: u8, kem: u16, key: Seq<u8>) -> Seq<u8> {
    seq![id] + two(kem as nat) + two(key.len()) + key + two(4)
}

/// What stands behind the suites of a config.
#[verifier::opaque]
pub open spec fn config_tail(longest: u8, name: Seq<u8>, exts: Seq<u8>) -> Seq<u8> {
    seq![longest] + seq![name.len() as u8] + name + two(exts.len()) + exts
}

/// The contents of a config with one suite.
pub open spec fn contents(
    id: u8,
    kem: u16,
    key: Seq<u8>,
    kdf: u16,
    aead: u16,
    longest: u8,
    name: Seq<char>,
    exts: Seq<u8>,
) -> Seq<u8> {
    config_head(id, kem, key) + two(kdf as nat) + two(aead as nat) + config_tail(
        longest,
        encode_utf8(name),
        exts,
    )
}

proof fn head_has_fields(id: u8, kem: u16, key: Seq<u8>, after: Seq<u8>)
    requires
        key.len() < 0x1_0000,
    ensures
        ({
            let s = config_head(id, kem, key) + after;
            let k = key.len();
            &&& number_at(s, 0, 1) == Some(id as nat)
            &&& number_at(s, 1, 2) == Some(kem as nat)
            &&& number_at(s, 3, 2) == Some(k)
            &&& bytes_at(s, 5, k) == Some(key)
            &&& number_at(s, 5 + k, 2) == Some(4nat)
            &&& config_head(id, kem, key).len() == 7 + k
        }),
{
    reveal(config_head);
    let s = config_head(id, kem, key) + after;
    let e = Seq::<u8>::empty();
    let t2 = key + two(4) + after;
    let t1 = two(key.len()) + t2;
    let t0 = two(kem as nat) + t1;
    let a0 = seq![id];
    assert(e + a0 + t0 =~= s);
    fields_are_read(e, e, t0, id as nat);
    assert(a0 + two(kem as nat) + t1 =~= s);
    fields_are_read(a0, e, t1, kem as nat);
    let a2 = a0 + two(kem as nat);
    assert(a2 + two(key.len()) + t2 =~= s);
    fields_are_read(a2, e, t2, key.len());
    let a3 = a2 + two(key.len());
    assert(a3 + key + (two(4) + after) =~= s);
    fields_are_read(a3, key, two(4) + after, 0);
    let a4 = a3 + key;
    assert(a4 + two(4) + after =~= s);
    fields_are_read(a4, e, after, 4);
}

proof fn tail_has_fields(before: Seq<u8>, longest: u8, name: Seq<u8>, exts: Seq<u8>)
    requires
        name.len() <= 255,
        exts.len() < 0x1_0000,
    ensures
        ({
            let s = before + config_tail(longest, name, exts);
            let k = before.len();
            &&& number_at(s, k, 1) == Some(longest as nat)
            &&& number_at(s, k + 1, 1) == Some(name.len())
            &&& bytes_at(s, k + 2, name.len()) == Some(name)
            &&& number_at(s, k + 2 + name.len(), 2) == Some(exts.len())
            &&& s.len() == k + 4 + name.len() + exts.len()
        }),
{
    reveal(config_tail);
    let s = before + config_tail(longest, name, exts);
    let e = Seq::<u8>::empty();
    let b1 = seq![longest];
    let b2 = seq![name.len() as u8];
    let t3 = two(exts.len()) + exts;
    let t2 = name + t3;
    let t1 = b2 + t2;
    assert(before + b1 + t1 =~= s);
    fields_are_read(before, e, t1, longest as nat);
    let a1 = before + b1;
    assert(a1 + b2 + t2 =~= s);
    fields_are_read(a1, e, t2, name.len());
    let a2 = a1 + b2;
    assert(a2 + name + t3 =~= s);
    fields_are_read(a2, name, t3, 0);
    let a3 = a2 + name;
    assert(a3 + two(exts.len()) + exts =~= s);
    fields_are_read(a3, e, exts, exts.len());
}

/// A config is read field by field: its number, the key exchange, the key, the suites, the length
/// that names are filled up to, the public name, and extensions that are passed over.
pub proof fn configs_are_read(
    id: u8,
    kem: u16,
    key: Seq<u8>,
    kdf: u16,
    aead: u16,
    longest: u8,
    name: Seq<char>,
    exts: Seq<u8>,
)
    requires
        key.len() < 0x1_0000,
        encode_utf8(name).len() <= 255,
        exts.len() < 0x1_0000,
    ensures
        ech_contents(contents(id, kem, key, kdf, aead, longest, name, exts)) == Ok::<_, EchError>(
            EchView {
                config_id: id as nat,
                kem_id: kem as nat,
                public_key: key,
                cipher_suites: seq![EchCipherSuite { kdf_id: kdf, aead_id: aead }],
                maximum_name_length: longest as nat,
                public_name: name,
            },
        ),
{
    reveal(ech_contents);
    let s = contents(id, kem, key, kdf, aead, longest, name, exts);
    let head = config_head(id, kem, key);
    let suite = EchCipherSuite { kdf_id: kdf, aead_id: aead };
    let n = encode_utf8(name);
    let tail = config_tail(longest, n, exts);
    head_has_fields(id, kem, key, two(kdf as nat) + two(aead as nat) + tail);
    assert(head + (two(kdf as nat) + two(aead as nat) + tail) =~= s);
    suites_are_pairs(head, kdf, aead, tail, head.len() + 4);
    assert(suites_at(s, head.len() + 4, head.len() + 4) == Some(Seq::<EchCipherSuite>::empty()));
    assert(seq![suite] + Seq::empty() =~= seq![suite]);
    tail_has_fields(head + two(kdf as nat) + two(aead as nat), longest, n, exts);
    encode_utf8_valid_utf8(name);
    encode_utf8_decode_utf8(name);
}

/// A config is of the version 0xfe0d, and its contents stand behind their length.
pub proof fn config_versions(raw: Seq<u8>, c: EchConfig, v: EchView)
    requires
        raw.len() >= 4,
    ensures
        raw[0] == 0xfe && raw[1] == 0x0d ==> config_view(raw) == ech_contents(raw.skip(4)),
        raw[0] != 0xfe || raw[1] != 0x0d ==> (config_view(raw) matches Err(
            EchError::UnsupportedVersion(n),
        ) && n == raw[0] * 256 + raw[1]),
        config_view(raw) == Ok::<_, EchError>(v) ==> visible_name(raw) == v.public_name,
        is_config(c, raw, v) ==> c.version == 0xfe0d && c.raw@ == raw && c.config_id == v.config_id
            && c.kem_id == v.kem_id && c.public_key@ == v.public_key && c.cipher_suites@
            == v.cipher_suites && c.maximum_name_length == v.maximum_name_length && c.public_name@
            == v.public_name,
{
    network_value(raw.subrange(0, 2));
}

/// A list of configs stands behind its length; one that is empty or cut off is none.
pub proof fn config_lists(data: Seq<u8>, raw: Seq<u8>)
    ensures
        data.len() < 2 ==> config_list(data) == Err::<Seq<Seq<u8>>, EchError>(
            EchError::ListTooShort,
        ),
        data.len() >= 2 && data.len() < 2 + data[0] * 256 + data[1] ==> config_list(data) == Err::<
            Seq<Seq<u8>>,
            EchError,
        >(EchError::ListTruncated),
        data.len() >= 2 && data[0] == 0 && data[1] == 0 ==> config_list(data) == Err::<
            Seq<Seq<u8>>,
            EchError,
        >(EchError::ListEmpty),
        4 <= raw.len() && raw.len() < 0x1_0000 && raw.len() == 4 + raw[2] * 256 + raw[3] ==> (
        match config_view(raw) {
            Ok(_) => config_list(two(raw.len()) + raw) == Ok::<_, EchError>(seq![raw]),
            Err(e) => config_list(two(raw.len()) + raw) == Err::<Seq<Seq<u8>>, EchError>(e),
        }),
{
    if data.len() >= 2 {
        network_value(data.subrange(0, 2));
        if data[0] == 0 && data[1] == 0 {
            assert(data.subrange(2, 2) =~= Seq::empty());
        }
    }
    if 4 <= raw.len() && raw.len() < 0x1_0000 && raw.len() == 4 + raw[2] * 256 + raw[3] {
        let d = two(raw.len()) + raw;
        assert(d.subrange(0, 2) =~= two(raw.len()));
        network_value(two(raw.len()));
        assert(d.subrange(2, 2 + raw.len() as int) =~= raw);
        network_value(raw.subrange(2, 4));
        assert(raw.subrange(0, raw.len() as int) =~= raw);
        assert(seq![raw] + Seq::<Seq<u8>>::empty() =~= seq![raw]);
        reveal_with_fuel(raw_configs, 2);
        assert(raw.subrange(0, 2) =~= d.subrange(2, 4));
    }
}

/// White space does not count in the text of the configs.
pub proof fn spaces_are_left_out(s: Seq<char>, c: char)
    ensures
        without_spaces(Seq::empty()).len() == 0,
        c == ' ' || c == '\t' || c == '\n' || c == '\r' || c == '\x0c' ==> without_spaces(s.push(c))
            == without_spaces(s),
        c == '\x0b' ==> without_spaces(s.push(c)) == without_spaces(s).push(c),
        c > ' ' ==> without_spaces(s.push(c)) == without_spaces(s).push(c),
{
    assert(s.push(c).drop_last() =~= s);
}

/// The text of the configs stands between two marks, and only once.
pub proof fn marked_texts(s: Seq<char>, i: int, to: int)
    ensures
        first_at(s, "-----BEGIN ECH CONFIGS-----"@, 0) is None ==> pem_bytes(s) == Err::<
            Seq<u8>,
            EchError,
        >(EchError::PemNotFound),
        first_at(s, "-----BEGIN ECH CONFIGS-----"@, 0) == Some(i) && first_at(
            s,
            "-----END ECH CONFIGS-----"@,
            i + 27,
        ) is None ==> pem_bytes(s) == Err::<Seq<u8>, EchError>(EchError::PemNotTerminated),
        first_at(s, "-----BEGIN ECH CONFIGS-----"@, 0) == Some(i) && first_at(
            s,
            "-----END ECH CONFIGS-----"@,
            i + 27,
        ) == Some(to) ==> (match base64_standard(without_spaces(s.subrange(i + 27, to))) {
            None => pem_bytes(s) == Err::<Seq<u8>, EchError>(EchError::PemBase64),
            Some(b) => pem_bytes(s) == if first_at(
                s,
                "-----BEGIN ECH CONFIGS-----"@,
                to + 25,
            ) is Some {
                Err(EchError::PemMultiple)
            } else {
                Ok(b)
            },
        }),
{
    reveal_strlit("-----BEGIN ECH CONFIGS-----");
    reveal_strlit("-----END ECH CONFIGS-----");
    assert("-----BEGIN ECH CONFIGS-----"@.len() == 27);
    assert("-----END ECH CONFIGS-----"@.len() == 25);
}

/// The configs come from the settings where these have any lines, else from a file where one is
/// named, else there are none. Lines are joined by line ends.
pub proof fn configs_of_the_settings(
    options: OutboundECHOptions,
    text: Seq<char>,
    file: Option<Seq<char>>,
)
    ensures
        options.config@.len() > 0 ==> file_of(options) is None && settings_list(options, file)
            == settings_list(options, None),
        options.config@.len() > 0 ==> (settings_list(options, file) matches Ok(list) ==> (
        list matches Some(b) && pem_list(
            joined_text(crate::text::texts(options.config@), seq!['\n']),
        ) == Ok::<_, EchError>(b))),
        options.config@.len() == 0 && options.config_path is None ==> settings_list(options, file)
            == Ok::<Option<Seq<u8>>, EchError>(None) && file_of(options) is None,
        options.config@.len() == 0 ==> (options.config_path matches Some(p) ==> file_of(options)
            == Some(p@) && settings_list(options, None) == Err::<Option<Seq<u8>>, EchError>(
            EchError::FileNotRead,
        ) && (match pem_list(text) {
            Ok(b) => settings_list(options, Some(text)) == Ok::<_, EchError>(Some(b)),
            Err(e) => settings_list(options, Some(text)) == Err::<Option<Seq<u8>>, EchError>(e),
        })),
        pem_list(text) matches Ok(b) ==> pem_bytes(text) == Ok::<_, EchError>(b) && config_list(
            b,
        ) is Ok,
{
    reveal_strlit("\n");
    assert("\n"@ =~= seq!['\n']);
}

/// A name in a DNS message ends with an empty label, or with a reference of two bytes.
pub proof fn dns_names_end(before: Seq<u8>, label: Seq<u8>, after: Seq<u8>, hi: u8)
    requires
        label.len() < 192,
        after.len() > 0,
    ensures
        name_end(before + seq![0u8] + after, before.len()) == Some(before.len() + 1),
        hi >= 192 ==> name_end(before + seq![hi] + after, before.len()) == Some(before.len() + 2),
        label.len() > 0 ==> name_end(
            before + seq![label.len() as u8] + label + after,
            before.len(),
        ) == name_end(
            before + seq![label.len() as u8] + label + after,
            before.len() + 1 + label.len(),
        ),
        name_end(before, before.len()) is None,
{
    assert((before + seq![0u8] + after)[before.len() as int] == 0);
    assert((before + seq![hi] + after)[before.len() as int] == hi);
    assert((before + seq![label.len() as u8] + label + after)[before.len() as int]
        == label.len() as u8);
}

/// The configs are the value of the key 5 of a service record; other keys are passed over.
pub proof fn service_keys(before: Seq<u8>, key: u16, value: Seq<u8>, text: Seq<char>, after: Seq<u8>)
    requires
        value.len() < 0x1_0000,
    ensures
        ({
            let s = before + two(key as nat) + two(value.len()) + value + after;
            &&& key == 5 && value == encode_utf8(text) ==> ech_param(s, before.len()) == Some(text)
            &&& key != 5 ==> ech_param(s, before.len()) == ech_param(
                s,
                before.len() + 4 + value.len(),
            )
        }),
        ech_param(before, before.len()) is None,
{
    let s = before + two(key as nat) + two(value.len()) + value + after;
    let p = before.len() as int;
    assert(s.subrange(p, p + 2) =~= two(key as nat));
    assert(s.subrange(p + 2, p + 4) =~= two(value.len()));
    assert(s.subrange(p + 4, p + 4 + value.len()) =~= value);
    network_value(two(key as nat));
    network_value(two(value.len()));
    encode_utf8_valid_utf8(text);
    encode_utf8_decode_utf8(text);
}

/// An answer of DNS is its name, its type, eight bytes more of which the last two are the length of
/// the data, and the data. Only answers of the type 65 that have the configs count, and the first of
/// them is taken.
pub proof fn answers_are_walked(s: Seq<u8>, pos: nat, n: nat, p: nat)
    requires
        n > 0,
        name_end(s, pos) == Some(p),
        p + 10 <= s.len(),
        p + 10 + s[p as int + 8] * 256 + s[p as int + 9] <= s.len(),
    ensures
        ({
            let len = s[p as int + 8] * 256 + s[p as int + 9];
            let data = s.subrange(p as int + 10, p as int + 10 + len);
            answers_param(s, pos, n) == if s[p as int] == 0 && s[p as int + 1] == 65 && record_param(
                data,
            ) is Some {
                record_param(data)
            } else {
                answers_param(s, (p + 10 + len) as nat, (n - 1) as nat)
            }
        }),
        answers_param(s, pos, 0) is None,
        questions_end(s, pos, 0) == Some(pos),
        questions_end(s, pos, n) == questions_end(s, p + 4, (n - 1) as nat),
{
    network_value(s.subrange(p as int, p as int + 2));
    network_value(s.subrange(p as int + 8, p as int + 10));
}

/// A message of DNS has a head of twelve bytes, of which the third pair counts the questions and the
/// fourth the answers; a service record has its keys behind a priority and a name.
pub proof fn dns_messages(s: Seq<u8>, data: Seq<u8>, p: nat)
    ensures
        s.len() < 12 ==> response_param(s) is None,
        s.len() >= 12 ==> response_param(s) == match questions_end(
            s,
            12,
            (s[4] * 256 + s[5]) as nat,
        ) {
            Some(q) => answers_param(s, q, (s[6] * 256 + s[7]) as nat),
            None => None,
        },
        data.len() < 2 ==> record_param(data) is None,
        data.len() >= 2 && name_end(data, 2) == Some(p) ==> record_param(data) == ech_param(data, p),
{
    if s.len() >= 12 {
        network_value(s.subrange(4, 6));
        network_value(s.subrange(6, 8));
    }
}

/// Dots at the end of a name do not count.
pub proof fn final_dots(s: Seq<char>)
    ensures
        without_final_dots(s.push('.')) == without_final_dots(s),
        s.len() == 0 || s.last() != '.' ==> without_final_dots(s) == s,
{
    assert(s.push('.').drop_last() =~= s);
}

} // verus!
