//! The proxies that are asked by HTTP, and SSH.

use crate::config::{
    header_pair, host_of, is_host_header, other_headers, socks_version, HttpHeaderValue,
    NaiveOutboundConfig, SocksVersion, TotpOption,
};
use crate::encoding::base64_text;
use crate::http::{
    auth_line, breaks_line, connect_text, header_lines, illegal, opaque_host, request_target,
    right_step, ConnectStep, HttpError, HttpOutbound, MAX_RESPONSE_HEADER_BYTES,
};
use crate::laws::words::{case_does_not_count, lower_words_stay, same_word};
use crate::naive::{
    basic_auth, config_fault, connect_headers, padding_of, NaiveError, UOT_MAGIC_PORT,
};
use crate::net::Target;
use crate::ssh::{
    algorithm_of, answer_to, base32_secret, expanded, is_inline, openssh_key, option_settings,
    readable_keys, totp_code, AuthMethod, AuthPlan, SshError, Totp, TotpAlgorithm, MAX_ROUNDS,
};
use crate::text::{has_part, text_in};
use vstd::prelude::*;
use vstd::utf8::encode_utf8;

verus! {

// ---- HTTP ----

/// The end of a line.
pub open spec fn line_end() -> Seq<char> {
    seq!['\r', '\n']
}

/// The lines of headers that follow each other are those of the first and then those of the second,
/// and one header is its name, a colon, a blank, its value and the end of the line.
pub proof fn headers_are_lines(
    a: Seq<(Seq<char>, Seq<char>)>,
    b: Seq<(Seq<char>, Seq<char>)>,
    name: Seq<char>,
    value: Seq<char>,
)
    ensures
        header_lines(Seq::empty()) == Seq::<char>::empty(),
        header_lines(seq![(name, value)]) == name + seq![':', ' '] + value + line_end(),
        header_lines(a + b) == header_lines(a) + header_lines(b),
    decreases b.len(),
{
    reveal_strlit(": ");
    reveal_strlit("\r\n");
    let one = seq![(name, value)];
    assert(one.drop_last() =~= Seq::empty());
    assert(one.last() == (name, value));
    assert(header_lines(one.drop_last()) =~= Seq::empty());
    assert(": "@ =~= seq![':', ' ']);
    assert("\r\n"@ =~= line_end());
    assert(header_lines(one) =~= name + seq![':', ' '] + value + line_end());
    if b.len() == 0 {
        assert(a + b =~= a);
        assert(header_lines(a + b) =~= header_lines(a) + header_lines(b));
    } else {
        headers_are_lines(a, b.drop_last(), name, value);
        assert((a + b).drop_last() =~= a + b.drop_last());
        assert((a + b).last() == b.last());
        assert(header_lines(a + b) =~= header_lines(a) + header_lines(b));
    }
}

/// A request has the line that asks for the tunnel, the host, the wish to keep the connection, the
/// credentials and the other headers, and an empty line behind them.
pub proof fn tunnels_are_asked_for(
    asked: Seq<char>,
    host: Seq<char>,
    auth: Seq<char>,
    headers: Seq<(Seq<char>, Seq<char>)>,
)
    ensures
        connect_text(asked, host, auth, headers) == "CONNECT "@ + asked + " HTTP/1.1"@ + line_end()
            + header_lines(
            seq![("Host"@, host), ("Proxy-Connection"@, "Keep-Alive"@)],
        ) + auth + header_lines(headers) + line_end(),
{
    reveal_strlit("CONNECT ");
    reveal_strlit(" HTTP/1.1\r\n");
    reveal_strlit(" HTTP/1.1");
    reveal_strlit("Host: ");
    reveal_strlit("Host");
    reveal_strlit("\r\n");
    reveal_strlit("Proxy-Connection: Keep-Alive\r\n");
    reveal_strlit("Proxy-Connection");
    reveal_strlit("Keep-Alive");
    let a = seq![("Host"@, host)];
    let b = seq![("Proxy-Connection"@, "Keep-Alive"@)];
    headers_are_lines(a, b, "Host"@, host);
    headers_are_lines(a, b, "Proxy-Connection"@, "Keep-Alive"@);
    assert(a + b =~= seq![("Host"@, host), ("Proxy-Connection"@, "Keep-Alive"@)]);
    assert(" HTTP/1.1\r\n"@ =~= " HTTP/1.1"@ + line_end());
    assert("Host: "@ =~= "Host"@ + seq![':', ' ']);
    assert("\r\n"@ =~= line_end());
    assert("Proxy-Connection: Keep-Alive\r\n"@ =~= "Proxy-Connection"@ + seq![':', ' ']
        + "Keep-Alive"@ + line_end());
    assert(connect_text(asked, host, auth, headers) =~= "CONNECT "@ + asked + " HTTP/1.1"@
        + line_end() + header_lines(a + b) + auth + header_lines(headers) + line_end());
}

/// A user name is sent with its password, or with none, in the header of the credentials; without a
/// user name there is no such header.
pub proof fn credentials_are_sent(user: Seq<char>, password: Option<Seq<char>>, word: Seq<char>)
    ensures
        auth_line(None, password) == Seq::<char>::empty(),
        auth_line(Some(user), Some(word)) == header_lines(
            seq![("Proxy-Authorization"@, basic_auth(user, word))],
        ),
        auth_line(Some(user), None) == auth_line(Some(user), Some(Seq::empty())),
        basic_auth(user, word) == "Basic "@ + base64_text(encode_utf8(user + seq![':'] + word)),
{
    reveal_strlit("Proxy-Authorization: Basic ");
    reveal_strlit("Proxy-Authorization");
    reveal_strlit("Basic ");
    reveal_strlit("\r\n");
    assert(user.push(':') + word =~= user + seq![':'] + word);
    let coded = base64_text(encode_utf8(user + seq![':'] + word));
    headers_are_lines(Seq::empty(), Seq::empty(), "Proxy-Authorization"@, basic_auth(user, word));
    assert("Proxy-Authorization: Basic "@ =~= "Proxy-Authorization"@ + seq![':', ' ']
        + "Basic "@);
    assert("\r\n"@ =~= line_end());
    assert(auth_line(Some(user), Some(word)) =~= "Proxy-Authorization"@ + seq![':', ' '] + (
    "Basic "@ + coded) + line_end());
}

/// The request names the address and, where there is one, the path, with one slash between them
/// whether or not the path starts with one.
pub proof fn paths_follow_a_slash(authority: Seq<char>, path: Seq<char>)
    requires
        path.len() == 0 || path[0] != '/',
    ensures
        request_target(authority, None) == authority,
        request_target(authority, Some(path)) == authority + seq!['/'] + path,
        request_target(authority, Some(seq!['/'] + path)) == authority + seq!['/'] + path,
{
    assert((seq!['/'] + path).skip(1) =~= path);
    assert(authority.push('/') + path =~= authority + seq!['/'] + path);
}

/// The host that is set stands in the request unless it is empty or is the name that is asked for.
pub proof fn set_hosts_are_sent(host: Seq<char>, target: Target)
    ensures
        !opaque_host(None, target),
        host.len() == 0 ==> !opaque_host(Some(host), target),
        target matches Target::Domain(name, _) ==> (name@ == host ==> !opaque_host(
            Some(host),
            target,
        )),
        target matches Target::Domain(name, _) ==> (name@ != host && host.len() > 0 ==> opaque_host(
            Some(host),
            target,
        )),
        target is Socket && host.len() > 0 ==> opaque_host(Some(host), target),
{
}

/// Header names are the same in any case: the last header named host sets the host, and all others
/// are sent in their order.
pub proof fn host_header_is_apart(headers: Seq<(String, HttpHeaderValue)>, h: (String, HttpHeaderValue))
    ensures
        is_host_header(h) <==> same_word(h.0@, "host"@),
        h.1 matches HttpHeaderValue::Single(v) ==> header_pair(h) == (h.0@, v@),
        host_of(Seq::empty()) is None,
        other_headers(Seq::empty()).len() == 0,
        host_of(headers.push(h)) == if same_word(h.0@, "host"@) {
            Some(header_pair(h).1)
        } else {
            host_of(headers)
        },
        other_headers(headers.push(h)) == if same_word(h.0@, "host"@) {
            other_headers(headers)
        } else {
            other_headers(headers).push(header_pair(h))
        },
{
    reveal_strlit("host");
    lower_words_stay("host"@);
    case_does_not_count(h.0@, "host"@);
    assert(headers.push(h).drop_last() =~= headers);
}

/// A header is illegal where its name or its value has an end of line.
pub proof fn line_ends_are_illegal(name: Seq<char>, value: Seq<char>, i: int)
    ensures
        0 <= i < name.len() && (name[i] == '\r' || name[i] == '\n') ==> illegal((name, value)),
        0 <= i < value.len() && (value[i] == '\r' || value[i] == '\n') ==> illegal((name, value)),
        !name.contains('\r') && !name.contains('\n') && !value.contains('\r') && !value.contains(
            '\n',
        ) ==> !illegal((name, value)),
{
    if 0 <= i < name.len() && (name[i] == '\r' || name[i] == '\n') {
        assert(breaks_line(name));
    }
    if 0 <= i < value.len() && (value[i] == '\r' || value[i] == '\n') {
        assert(breaks_line(value));
    }
}

/// Only a status of 200 opens the tunnel, and what stands behind the head is its first data; all
/// others fail, 407 and 405 in their own ways. A head that is not whole is waited for.
pub proof fn status_decides(step: ConnectStep, raw: Seq<u8>, end: usize, code: u16)
    ensures
        right_step(step, raw, Some(None)) <==> step is NeedMore,
        right_step(step, raw, None) ==> step == ConnectStep::Failed(HttpError::Malformed),
        right_step(step, raw, Some(Some((end, None)))) ==> step == ConnectStep::Failed(
            HttpError::MissingStatus,
        ),
        right_step(step, raw, Some(Some((end, Some(code))))) ==> (match step {
            ConnectStep::Open(rest) => code == 200 && rest@ == raw.skip(end as int),
            ConnectStep::NeedMore => false,
            ConnectStep::Failed(e) => code != 200 && (e == HttpError::AuthRequired <==> code == 407)
                && (e == HttpError::MethodNotAllowed <==> code == 405) && (code != 407 && code
                != 405 ==> e == HttpError::UnexpectedStatus(code)),
        }),
        MAX_RESPONSE_HEADER_BYTES == 64 * 1024,
{
}

/// The versions of SOCKS by their names; without one it is the fifth.
pub proof fn socks_versions_by_name(v: String)
    ensures
        socks_version(None) == Some(SocksVersion::V5),
        v@ == seq!['5'] <==> socks_version(Some(v)) == Some(SocksVersion::V5),
        v@ == seq!['4'] <==> socks_version(Some(v)) == Some(SocksVersion::V4),
        v@ == seq!['4', 'a'] <==> socks_version(Some(v)) == Some(SocksVersion::V4a),
{
    reveal_strlit("5");
    reveal_strlit("4");
    reveal_strlit("4a");
    assert("5"@ =~= seq!['5']);
    assert("4"@ =~= seq!['4']);
    assert("4a"@ =~= seq!['4', 'a']);
    assert("5"@[0] == '5' && "4"@[0] == '4');
    assert("4a"@.len() == 2);
}

// ---- NaiveProxy ----

/// The outbound needs TLS, does not go over QUIC, and knows its congestion controls by name, with
/// none named as well. The first fault is the one that is told.
pub proof fn naive_faults(config: NaiveOutboundConfig)
    ensures
        ({
            let name = config.quic_congestion_control@;
            let known = name.len() == 0 || name == "bbr"@ || name == "bbr2"@ || name == "cubic"@
                || name == "reno"@;
            config_fault(config) == if !config.tls.enabled {
                Some(NaiveError::TlsDisabled)
            } else if config.quic {
                Some(NaiveError::QuicUnsupported)
            } else if known {
                None
            } else {
                Some(NaiveError::CongestionControl)
            }
        }),
        UOT_MAGIC_PORT == 443,
{
    reveal_strlit("");
    if config.quic_congestion_control@.len() == 0 {
        assert(config.quic_congestion_control@ =~= ""@);
    }
}

/// Padding is as long as it is asked to be. Its first sixteen signs are punctuation marks, each by
/// the low four bits of what was picked for it, and all others are tildes.
pub proof fn naive_padding(picks: Seq<u8>, len: nat, i: int)
    requires
        0 <= i < len,
    ensures
        padding_of(picks, len).len() == len,
        i >= 16 ==> padding_of(picks, len)[i] == '~',
        i < 16 ==> padding_of(picks, len)[i] == seq![
            '!',
            '#',
            '$',
            '(',
            ')',
            '+',
            '<',
            '>',
            '?',
            '@',
            '[',
            ']',
            '^',
            '`',
            '{',
            '}',
        ][picks[i] as int % 16],
{
}

/// A tunnel is asked for with the credentials, the padding and the headers of the settings, in this
/// order.
pub proof fn naive_headers(config: NaiveOutboundConfig, padding: Seq<char>, i: int)
    ensures
        ({
            let h = connect_headers(config, padding);
            &&& h.len() == 2 + config.extra_headers@.len()
            &&& h[0] == ("Proxy-Authorization"@, basic_auth(config.username@, config.password@))
            &&& h[1] == ("Padding"@, padding)
            &&& 0 <= i < config.extra_headers@.len() ==> h[2 + i] == (
                config.extra_headers@[i].0@,
                config.extra_headers@[i].1@,
            )
        }),
{
}

// ---- SSH ----

/// A tilde at the start of a path stands for the home directory, where there is one.
pub proof fn tilde_is_home(path: Seq<char>, home: Seq<char>, rest: Seq<char>)
    ensures
        expanded(path, None) == path,
        expanded(seq!['~'], Some(home)) == home,
        expanded(seq!['~', '/'] + rest, Some(home)) == home + seq!['/'] + rest,
        path.len() == 0 || path[0] != '~' ==> expanded(path, Some(home)) == path,
        path.len() > 1 && path[1] != '/' ==> expanded(path, Some(home)) == path,
{
    let p = seq!['~', '/'] + rest;
    assert(p[0] == '~' && p[1] == '/');
    assert(p.skip(2) =~= rest);
    assert(p.len() >= 2);
    assert(home.push('/') + rest =~= home + seq!['/'] + rest);
    if path == seq!['~'] {
        assert(path[0] == '~' && path.len() == 1);
    }
}

/// A key stands in the settings where they speak of a private key.
pub proof fn keys_in_the_settings(raw: Seq<char>, i: int)
    ensures
        0 <= i && i + 11 <= raw.len() && raw.subrange(i, i + 11) == "PRIVATE KEY"@ ==> is_inline(
            raw,
        ),
        is_inline(raw) ==> has_part(raw, "PRIVATE KEY"@),
{
    reveal_strlit("PRIVATE KEY");
    assert("PRIVATE KEY"@.len() == 11);
}

/// The keys that are expected are those that can be read, in their order.
pub proof fn readable_keys_count(texts: Seq<String>, t: String)
    ensures
        readable_keys(Seq::empty()).len() == 0,
        openssh_key(t@) is None ==> readable_keys(texts.push(t)) == readable_keys(texts),
        openssh_key(t@) matches Some(k) ==> readable_keys(texts.push(t)) == readable_keys(
            texts,
        ).push(k),
{
    assert(texts.push(t).drop_last() =~= texts);
}

/// The hash functions of one-time codes, named in any case.
pub proof fn totp_hashes_by_name(name: Seq<char>)
    ensures
        algorithm_of(name) == if same_word(name, "sha1"@) {
            Some(TotpAlgorithm::Sha1)
        } else if same_word(name, "sha256"@) {
            Some(TotpAlgorithm::Sha256)
        } else if same_word(name, "sha512"@) {
            Some(TotpAlgorithm::Sha512)
        } else {
            None
        },
{
    reveal_strlit("sha1");
    reveal_strlit("sha256");
    reveal_strlit("sha512");
    lower_words_stay("sha1"@);
    lower_words_stay("sha256"@);
    lower_words_stay("sha512"@);
    case_does_not_count(name, "sha1"@);
    case_does_not_count(name, "sha256"@);
    case_does_not_count(name, "sha512"@);
}

/// One-time codes have six to eight digits and a secret of at least sixteen bytes. A bare secret
/// makes codes of six digits with SHA-1, a new one every thirty seconds.
pub proof fn totp_settings_are_judged(opt: TotpOption)
    ensures
        option_settings(opt) matches Ok((a, digits, step, secret)) ==> (6 <= digits && digits <= 8
            && secret.len() >= 16 && (opt is OtpAuth ==> a == TotpAlgorithm::Sha1 && digits == 6
            && step == 30)),
        opt matches TotpOption::OtpAuth { secret } ==> (match base32_secret(secret@) {
            Some(s) => s.len() >= 16 <==> option_settings(opt) == Ok::<_, SshError>(
                (TotpAlgorithm::Sha1, 6usize, 30u64, s),
            ),
            None => option_settings(opt) == Err::<(TotpAlgorithm, usize, u64, Seq<u8>), SshError>(
                SshError::TotpSecret,
            ),
        }),
        opt matches TotpOption::Common(c) ==> (algorithm_of(c.algorithm@) is None
            ==> option_settings(opt) == Err::<(TotpAlgorithm, usize, u64, Seq<u8>), SshError>(
            SshError::TotpAlgorithm,
        )),
        opt matches TotpOption::Common(c) ==> (match (
            algorithm_of(c.algorithm@),
            base32_secret(c.secret@),
        ) {
            (Some(a), Some(s)) => option_settings(opt) == if 6 <= c.digits && c.digits <= 8
                && s.len() >= 16 {
                Ok((a, c.digits, c.step, s))
            } else {
                Err(SshError::TotpConfig)
            },
            (Some(_), None) => option_settings(opt) == Err::<
                (TotpAlgorithm, usize, u64, Seq<u8>),
                SshError,
            >(SshError::TotpSecret),
            _ => true,
        }),
{
}

/// The way that is tried next: a key before a password and a password before questions, each only
/// where there is one and where it is allowed.
pub proof fn ways_are_ranked(
    plan: AuthPlan,
    allowed: spec_fn(AuthMethod) -> bool,
    tried: AuthMethod,
    m: AuthMethod,
)
    ensures
        plan.is_next(-1, allowed, m) <==> (m == if plan.has_key && allowed(AuthMethod::PublicKey) {
            AuthMethod::PublicKey
        } else if plan.has_password && allowed(AuthMethod::Password) {
            AuthMethod::Password
        } else {
            AuthMethod::KeyboardInteractive
        } && allowed(m)),
        plan.is_next(crate::ssh::rank(AuthMethod::PublicKey), allowed, m) <==> (m == if plan.has_password
            && allowed(AuthMethod::Password) {
            AuthMethod::Password
        } else {
            AuthMethod::KeyboardInteractive
        } && allowed(m)),
        plan.is_next(crate::ssh::rank(AuthMethod::Password), allowed, m) <==> (m
            == AuthMethod::KeyboardInteractive && allowed(m)),
        !plan.is_next(crate::ssh::rank(AuthMethod::KeyboardInteractive), allowed, m),
{
    let a = crate::ssh::rank(AuthMethod::PublicKey);
    let b = crate::ssh::rank(AuthMethod::Password);
    let c = crate::ssh::rank(AuthMethod::KeyboardInteractive);
    assert(a < b && b < c && a > -1);
}

/// A question for the password is answered with it and a question for a code with the code of the
/// moment; what is not there, and all other questions, with nothing.
pub proof fn questions_are_answered(
    prompt: Seq<char>,
    password: Seq<char>,
    totp: Totp,
    now: u64,
    other: Option<Seq<char>>,
)
    ensures
        has_part(prompt, "Password: "@) ==> answer_to(prompt, Some(password), Some(totp), Some(now))
            == password && answer_to(prompt, None, Some(totp), Some(now)).len() == 0,
        !has_part(prompt, "Password: "@) && has_part(prompt, "Verification code: "@) ==> answer_to(
            prompt,
            other,
            Some(totp),
            Some(now),
        ) == totp_code(totp.algorithm, totp.digits, totp.step, totp.secret@, now) && answer_to(
            prompt,
            other,
            None,
            Some(now),
        ).len() == 0,
        !has_part(prompt, "Password: "@) && !has_part(prompt, "Verification code: "@) ==> answer_to(
            prompt,
            other,
            Some(totp),
            Some(now),
        ).len() == 0,
        MAX_ROUNDS == 5,
{
}

/// The request of an outbound: the target, with the path of the settings, the host of the settings
/// where it hides the target, the credentials, and the headers other than the host.
pub proof fn outbounds_ask<R>(o: HttpOutbound<R>, target: Target, authority: Seq<char>)
    ensures
        ({
            let headers = o.config.headers.0@;
            let host = host_of(headers);
            o.request_text(target, authority) == connect_text(
                request_target(authority, text_in(o.config.path)),
                if opaque_host(host, target) {
                    host->Some_0
                } else {
                    authority
                },
                auth_line(text_in(o.config.username), text_in(o.config.password)),
                other_headers(headers),
            )
        }),
        o.config.path matches Some(p) ==> text_in(o.config.path) == Some(p@),
        o.config.path is None ==> text_in(o.config.path) is None,
{
}

} // verus!
