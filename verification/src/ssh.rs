//! An outbound through an SSH server.

use crate::clock::unix_seconds;
use crate::config::{SshOutboundConfig, TotpOption};
use crate::net::{is_target_host, target_port, Target};
use crate::status::OutboundStatus;
use crate::text::{
    chars_of, contains_text, has_part, lower_text, text_eq, text_in, text_of, to_lower_text,
};
use crate::wire::bytes_eq;
use vstd::prelude::*;

verus! {

/// Why there is no session.
#[derive(Clone, Copy, Debug, PartialEq, Eq, Structural)]
pub enum SshError {
    /// A private key cannot be read.
    PrivateKey,
    TotpSecret,
    TotpAlgorithm,
    /// The number of digits or the length of the secret is out of bounds.
    TotpConfig,
    /// The server's key is none of those that are expected.
    UnknownKey,
    AuthRejected,
    TooManyRounds,
    UdpUnsupported,
}

// ---- keys ----

/// A private key.
#[verifier::external_type_specification]
#[verifier::external_body]
pub struct ExPrivateKey(russh::keys::PrivateKey);

/// A public key: its data, and the comment behind it.
#[derive(Clone, Debug, PartialEq, Eq)]
pub struct HostKey {
    pub data: Vec<u8>,
    pub comment: String,
}

/// The data and the comment of a public key in the format of OpenSSH, where it is one.
pub uninterp spec fn openssh_key(text: Seq<char>) -> Option<(Seq<u8>, Seq<char>)>;

/// `PublicKey::from_openssh` of the `ssh_key` crate: what it reads depends on the text alone. The
/// format is left unsaid.
#[verifier::external_body]
pub(crate) fn read_openssh_key(text: &str) -> (key: Option<HostKey>)
    ensures
        key is Some <==> openssh_key(text@) is Some,
        key matches Some(k) ==> openssh_key(text@) == Some((k.data@, k.comment@)),
{
    let key = russh::keys::ssh_key::PublicKey::from_openssh(text).ok()?;
    Some(HostKey { data: key.to_bytes().ok()?, comment: key.comment().to_string() })
}

/// The private key that a text holds, where it holds one that the pass phrase opens.
pub uninterp spec fn secret_key(text: Seq<char>, passphrase: Option<Seq<char>>) -> Option<
    russh::keys::PrivateKey,
>;

/// `decode_secret_key` of the `russh` crate: which key comes out, and whether one does, depends on
/// the text and the pass phrase alone. The formats are left unsaid.
#[verifier::external_body]
pub(crate) fn decode_key(text: &str, passphrase: &Option<String>) -> (key: Option<
    russh::keys::PrivateKey,
>)
    ensures
        key == secret_key(text@, text_in(*passphrase)),
{
    russh::keys::decode_secret_key(text, passphrase.as_deref()).ok()
}

/// `home_dir` of the `dirs` crate: the home directory as text. Which one that is depends on the
/// machine.
#[verifier::external_body]
pub(crate) fn home_dir() -> (home: Option<String>) {
    dirs::home_dir().map(|p| p.to_string_lossy().to_string())
}

/// A path with a leading tilde written out. Names of other users are left as they are.
pub open spec fn expanded(path: Seq<char>, home: Option<Seq<char>>) -> Seq<char> {
    match home {
        None => path,
        Some(h) => if path == seq!['~'] {
            h
        } else if path.len() >= 2 && path[0] == '~' && path[1] == '/' {
            h.push('/') + path.skip(2)
        } else {
            path
        },
    }
}

/// Writes out a leading tilde.
pub fn expand_tilde_in(path: &str, home: &Option<String>) -> (out: String)
    ensures
        out@ == expanded(path@, text_in(*home)),
{
    let chars: Vec<char> = chars_of(path);
    match home {
        None => path.to_string(),
        Some(h) => {
            if chars.len() == 1 && chars[0] == '~' {
                assert(path@ =~= seq!['~']);
                h.clone()
            } else if chars.len() >= 2 && chars[0] == '~' && chars[1] == '/' {
                let mut out: String = h.clone();
                let rest: String = text_of(&chars, 2, chars.len());
                assert(rest@ =~= path@.skip(2));
                out.push('/');
                out.append(&rest);
                out
            } else {
                path.to_string()
            }
        },
    }
}

/// Writes out a leading tilde for the user of the process.
pub fn expand_tilde(path: &str) -> (out: String)
    ensures
        exists|home: Option<Seq<char>>| out@ == #[trigger] expanded(path@, home),
        path@.len() == 0 || path@[0] != '~' ==> out@ == path@,
{
    let home: Option<String> = home_dir();
    let out: String = expand_tilde_in(path, &home);
    assert(out@ == expanded(path@, text_in(home)));
    out
}

/// Where a private key is found.
pub enum KeyLoad {
    NoKey,
    Key(russh::keys::PrivateKey),
    /// In the file with this path.
    ReadFile(String),
}

/// Whether the settings hold the key itself.
pub open spec fn is_inline(raw: Seq<char>) -> bool {
    has_part(raw, "PRIVATE KEY"@)
}

/// The keys that are expected of a server.
pub struct ExpectedKeys {
    /// Whether any are expected.
    pub checked: bool,
    pub keys: Vec<HostKey>,
}

/// A public key as plain values.
pub open spec fn key_parts(key: HostKey) -> (Seq<u8>, Seq<char>) {
    (key.data@, key.comment@)
}

/// The keys that texts hold; those that hold none are passed over.
pub open spec fn readable_keys(texts: Seq<String>) -> Seq<(Seq<u8>, Seq<char>)>
    decreases texts.len(),
{
    if texts.len() == 0 {
        Seq::empty()
    } else {
        match openssh_key(texts.last()@) {
            Some(k) => readable_keys(texts.drop_last()).push(k),
            None => readable_keys(texts.drop_last()),
        }
    }
}

impl ExpectedKeys {
    /// The keys as plain values.
    pub open spec fn parts(self) -> Seq<(Seq<u8>, Seq<char>)> {
        self.keys@.map_values(|k: HostKey| key_parts(k))
    }

    /// Judges the key of a server: any is good where none is expected, else only an expected one.
    pub fn check_server_key(&self, key: &HostKey) -> (res: Result<(), SshError>)
        ensures
            res == if !self.checked || self.parts().contains(key_parts(*key)) {
                Ok::<(), SshError>(())
            } else {
                Err::<(), SshError>(SshError::UnknownKey)
            },
    {
        if !self.checked {
            return Ok(());
        }
        let mut i: usize = 0;
        while i < self.keys.len()
            invariant
                i <= self.keys@.len(),
                forall|j: int| 0 <= j < i ==> key_parts(#[trigger] self.keys@[j]) != key_parts(*key),
            decreases self.keys@.len() - i,
        {
            if bytes_eq(&self.keys[i].data, &key.data) && text_eq(
                &self.keys[i].comment,
                &key.comment,
            ) {
                assert(self.parts()[i as int] == key_parts(*key));
                return Ok(());
            }
            i += 1;
        }
        Err(SshError::UnknownKey)
    }
}

// ---- one-time codes ----

/// The hash of one-time codes.
#[derive(Clone, Copy, Debug, PartialEq, Eq, Structural)]
pub enum TotpAlgorithm {
    Sha1,
    Sha256,
    Sha512,
}

/// A maker of one-time codes.
#[derive(Debug)]
pub struct Totp {
    pub algorithm: TotpAlgorithm,
    pub digits: usize,
    /// For how many seconds a code holds.
    pub step: u64,
    pub secret: Vec<u8>,
}

/// The bytes that a text holds in base 32, where it is such a text.
pub uninterp spec fn base32_secret(text: Seq<char>) -> Option<Seq<u8>>;

/// `Secret::to_bytes` of the `totp_rs` crate on an encoded secret: what it decodes depends on the
/// text alone. The code is left unsaid.
#[verifier::external_body]
pub(crate) fn decode_secret(text: &str) -> (bytes: Option<Vec<u8>>)
    ensures
        bytes is Some <==> base32_secret(text@) is Some,
        bytes matches Some(b) ==> base32_secret(text@) == Some(b@),
{
    totp_rs::Secret::Encoded(text.to_string()).to_bytes().ok()
}

/// The code of a moment.
pub uninterp spec fn totp_code(
    algorithm: TotpAlgorithm,
    digits: usize,
    step: u64,
    secret: Seq<u8>,
    time: u64,
) -> Seq<char>;

/// `TOTP::generate` of the `totp_rs` crate: the code depends on the settings, the secret and the
/// time alone. It divides by the step and raises ten to the number of digits. How the code is made
/// is left unsaid.
#[verifier::external_body]
pub(crate) fn generate_code(
    algorithm: TotpAlgorithm,
    digits: usize,
    step: u64,
    secret: &[u8],
    time: u64,
) -> (code: String)
    requires
        step > 0,
        digits <= 8,
    ensures
        code@ == totp_code(algorithm, digits, step, secret@, time),
{
    let algorithm = match algorithm {
        TotpAlgorithm::Sha1 => totp_rs::Algorithm::SHA1,
        TotpAlgorithm::Sha256 => totp_rs::Algorithm::SHA256,
        TotpAlgorithm::Sha512 => totp_rs::Algorithm::SHA512,
    };
    totp_rs::TOTP { algorithm, digits, skew: 1, step, secret: secret.to_vec() }.generate(time)
}

/// `TOTP::new` of the `totp_rs` crate: it takes six to eight digits and a secret of sixteen bytes
/// or more, whatever the hash and the step.
#[verifier::external_body]
pub(crate) fn totp_accepts(
    algorithm: TotpAlgorithm,
    digits: usize,
    step: u64,
    secret: &[u8],
) -> (yes: bool)
    ensures
        yes == (6 <= digits <= 8 && secret@.len() >= 16),
{
    let algorithm = match algorithm {
        TotpAlgorithm::Sha1 => totp_rs::Algorithm::SHA1,
        TotpAlgorithm::Sha256 => totp_rs::Algorithm::SHA256,
        TotpAlgorithm::Sha512 => totp_rs::Algorithm::SHA512,
    };
    totp_rs::TOTP::new(algorithm, digits, 1, step, secret.to_vec()).is_ok()
}

/// The hash that a name stands for; case does not matter.
pub open spec fn algorithm_of(name: Seq<char>) -> Option<TotpAlgorithm> {
    if lower_text(name) == "sha1"@ {
        Some(TotpAlgorithm::Sha1)
    } else if lower_text(name) == "sha256"@ {
        Some(TotpAlgorithm::Sha256)
    } else if lower_text(name) == "sha512"@ {
        Some(TotpAlgorithm::Sha512)
    } else {
        None
    }
}

fn read_algorithm(name: &str) -> (algorithm: Option<TotpAlgorithm>)
    ensures
        algorithm == algorithm_of(name@),
{
    let lower: String = to_lower_text(name);
    if text_eq(&lower, "sha1") {
        Some(TotpAlgorithm::Sha1)
    } else if text_eq(&lower, "sha256") {
        Some(TotpAlgorithm::Sha256)
    } else if text_eq(&lower, "sha512") {
        Some(TotpAlgorithm::Sha512)
    } else {
        None
    }
}

/// The maker of codes that settings lead to, as plain values.
pub open spec fn totp_settings(
    algorithm: Option<TotpAlgorithm>,
    digits: usize,
    step: u64,
    secret: Option<Seq<u8>>,
) -> Result<(TotpAlgorithm, usize, u64, Seq<u8>), SshError> {
    match algorithm {
        None => Err(SshError::TotpAlgorithm),
        Some(a) => match secret {
            None => Err(SshError::TotpSecret),
            Some(s) => if 6 <= digits <= 8 && s.len() >= 16 {
                Ok((a, digits, step, s))
            } else {
                Err(SshError::TotpConfig)
            },
        },
    }
}

/// The settings of a way to make codes: six digits that hold for thirty seconds, where only a
/// secret is given.
pub open spec fn option_settings(opt: TotpOption) -> Result<
    (TotpAlgorithm, usize, u64, Seq<u8>),
    SshError,
> {
    match opt {
        TotpOption::OtpAuth { secret } => totp_settings(
            Some(TotpAlgorithm::Sha1),
            6,
            30,
            base32_secret(secret@),
        ),
        TotpOption::Common(c) => totp_settings(
            algorithm_of(c.algorithm@),
            c.digits,
            c.step,
            base32_secret(c.secret@),
        ),
    }
}

/// Makes a maker of codes out of a secret that was decoded.
pub fn totp_from(
    algorithm: Option<TotpAlgorithm>,
    digits: usize,
    step: u64,
    secret: Option<Vec<u8>>,
) -> (res: Result<Totp, SshError>)
    ensures
        match (
            res,
            totp_settings(
                algorithm,
                digits,
                step,
                match secret {
                    Some(s) => Some(s@),
                    None => None,
                },
            ),
        ) {
            (Ok(t), Ok((a, d, st, s))) => t.algorithm == a && t.digits == d && t.step == st
                && t.secret@ == s,
            (Err(e), Err(f)) => e == f,
            _ => false,
        },
{
    let algorithm: TotpAlgorithm = match algorithm {
        Some(a) => a,
        None => {
            return Err(SshError::TotpAlgorithm);
        },
    };
    let secret: Vec<u8> = match secret {
        Some(s) => s,
        None => {
            return Err(SshError::TotpSecret);
        },
    };
    if !totp_accepts(algorithm, digits, step, &secret) {
        return Err(SshError::TotpConfig);
    }
    Ok(Totp { algorithm, digits, step, secret })
}

impl Totp {
    /// Whether the codes are those of the settings.
    pub open spec fn wf(self) -> bool {
        6 <= self.digits <= 8
    }

    /// The code of a moment.
    pub open spec fn code_at(self, time: u64) -> Seq<char> {
        totp_code(self.algorithm, self.digits, self.step, self.secret@, time)
    }
}

// ---- authentication ----

/// A way to authenticate.
#[derive(Clone, Copy, Debug, PartialEq, Eq, Structural)]
pub enum AuthMethod {
    PublicKey,
    Password,
    KeyboardInteractive,
}

/// What a way to authenticate came to.
#[derive(Debug)]
pub enum AuthOutcome {
    Success,
    /// The server names the ways that are left.
    Rejected(Vec<AuthMethod>),
    /// The attempt itself failed.
    Failed,
}

/// What follows on an attempt to authenticate.
#[derive(Clone, Copy, Debug, PartialEq, Eq, Structural)]
pub enum AuthStep {
    Done,
    Try(AuthMethod),
    GiveUp,
}

/// The place of a way in the order in which they are tried.
pub open spec fn rank(m: AuthMethod) -> int {
    match m {
        AuthMethod::PublicKey => 0,
        AuthMethod::Password => 1,
        AuthMethod::KeyboardInteractive => 2,
    }
}

/// The ways that can be tried at all.
#[derive(Clone, Copy, Debug, PartialEq, Eq, Structural)]
pub struct AuthPlan {
    pub has_key: bool,
    pub has_password: bool,
}

impl AuthPlan {
    /// Whether a way can be tried at all.
    pub open spec fn has(self, m: AuthMethod) -> bool {
        match m {
            AuthMethod::PublicKey => self.has_key,
            AuthMethod::Password => self.has_password,
            AuthMethod::KeyboardInteractive => true,
        }
    }

    /// Whether `m` is the next way: the first of those that are allowed and stand behind `from`.
    pub open spec fn is_next(
        self,
        from: int,
        allowed: spec_fn(AuthMethod) -> bool,
        m: AuthMethod,
    ) -> bool {
        &&& rank(m) > from
        &&& self.has(m)
        &&& allowed(m)
        &&& forall|o: AuthMethod|
            from < #[trigger] rank(o) < rank(m) ==> !(self.has(o) && allowed(o))
    }

    /// The way that is tried first.
    pub fn first(&self) -> (m: AuthMethod)
        ensures
            self.is_next(-1, |o: AuthMethod| true, m),
    {
        if self.has_key {
            AuthMethod::PublicKey
        } else if self.has_password {
            AuthMethod::Password
        } else {
            AuthMethod::KeyboardInteractive
        }
    }

    /// What follows on an attempt. Ways are tried in order, after a rejection only those that the
    /// server has left.
    pub fn next(&self, tried: AuthMethod, outcome: &AuthOutcome) -> (step: AuthStep)
        ensures
            match *outcome {
                AuthOutcome::Success => step is Done,
                AuthOutcome::Rejected(left) => match step {
                    AuthStep::Try(m) => self.is_next(
                        rank(tried),
                        |o: AuthMethod| left@.contains(o),
                        m,
                    ),
                    AuthStep::GiveUp => forall|o: AuthMethod|
                        #[trigger] rank(o) > rank(tried) ==> !(self.has(o) && left@.contains(o)),
                    AuthStep::Done => false,
                },
                AuthOutcome::Failed => match step {
                    AuthStep::Try(m) => self.is_next(rank(tried), |o: AuthMethod| true, m),
                    AuthStep::GiveUp => tried is KeyboardInteractive,
                    AuthStep::Done => false,
                },
            },
    {
        let (password, keyboard): (bool, bool) = match outcome {
            AuthOutcome::Success => {
                return AuthStep::Done;
            },
            AuthOutcome::Failed => (true, true),
            AuthOutcome::Rejected(left) => (
                has_method(left, AuthMethod::Password),
                has_method(left, AuthMethod::KeyboardInteractive),
            ),
        };
        match tried {
            AuthMethod::PublicKey => {
                if self.has_password && password {
                    AuthStep::Try(AuthMethod::Password)
                } else if keyboard {
                    AuthStep::Try(AuthMethod::KeyboardInteractive)
                } else {
                    AuthStep::GiveUp
                }
            },
            AuthMethod::Password => {
                if keyboard {
                    AuthStep::Try(AuthMethod::KeyboardInteractive)
                } else {
                    AuthStep::GiveUp
                }
            },
            AuthMethod::KeyboardInteractive => AuthStep::GiveUp,
        }
    }
}

fn has_method(list: &[AuthMethod], m: AuthMethod) -> (yes: bool)
    ensures
        yes == list@.contains(m),
{
    let mut i: usize = 0;
    while i < list.len()
        invariant
            i <= list@.len(),
            forall|j: int| 0 <= j < i ==> list@[j] != m,
        decreases list@.len() - i,
    {
        if list[i] == m {
            assert(list@[i as int] == m);
            return true;
        }
        i += 1;
    }
    false
}

/// What the server says in an interactive session.
#[derive(Debug)]
pub enum KeyboardEvent {
    Success,
    Failure,
    /// It asks these questions.
    Prompts(Vec<String>),
}

/// How many times questions are answered.
pub const MAX_ROUNDS: u8 = 5;

/// An interactive session.
pub struct KeyboardSession {
    /// How many answers of the server were looked at.
    pub rounds: u8,
}

/// The answer to a question.
pub open spec fn answer_to(
    prompt: Seq<char>,
    password: Option<Seq<char>>,
    totp: Option<Totp>,
    now: Option<u64>,
) -> Seq<char> {
    if has_part(prompt, "Password: "@) {
        match password {
            Some(p) => p,
            None => Seq::empty(),
        }
    } else if has_part(prompt, "Verification code: "@) {
        match (totp, now) {
            (Some(t), Some(time)) => t.code_at(time),
            _ => Seq::empty(),
        }
    } else {
        Seq::empty()
    }
}

/// Whether a text answers a question at some time.
pub open spec fn answers(
    text: Seq<char>,
    prompt: Seq<char>,
    password: Option<Seq<char>>,
    totp: Option<Totp>,
) -> bool {
    exists|now: Option<u64>| text == #[trigger] answer_to(prompt, password, totp, now)
}

/// Answers a question at a given time.
pub fn answer(prompt: &str, password: &Option<String>, totp: &Option<Totp>, now: Option<u64>) -> (text:
    String)
    requires
        totp matches Some(t) ==> t.wf() && t.step > 0,
    ensures
        text@ == answer_to(prompt@, text_in(*password), *totp, now),
{
    let empty: String = String::new();
    assert(empty@ =~= Seq::empty());
    if contains_text(prompt, "Password: ") {
        match password {
            Some(p) => p.clone(),
            None => empty,
        }
    } else if contains_text(prompt, "Verification code: ") {
        match (totp, now) {
            (Some(t), Some(time)) => generate_code(t.algorithm, t.digits, t.step, &t.secret, time),
            _ => empty,
        }
    } else {
        empty
    }
}

/// Answers questions, each at the time at which it is come to.
pub fn answer_all(prompts: &[String], password: &Option<String>, totp: &Option<Totp>) -> (out: Vec<
    String,
>)
    requires
        totp matches Some(t) ==> t.wf() && t.step > 0,
    ensures
        out@.len() == prompts@.len(),
        forall|i: int|
            0 <= i < out@.len() ==> answers(
                (#[trigger] out@[i])@,
                prompts@[i]@,
                text_in(*password),
                *totp,
            ),
{
    let mut out: Vec<String> = Vec::new();
    let mut i: usize = 0;
    while i < prompts.len()
        invariant
            i <= prompts@.len(),
            out@.len() == i,
            totp matches Some(t) ==> t.wf() && t.step > 0,
            forall|j: int|
                0 <= j < i ==> answers(
                    (#[trigger] out@[j])@,
                    prompts@[j]@,
                    text_in(*password),
                    *totp,
                ),
        decreases prompts@.len() - i,
    {
        let now: Option<u64> = unix_seconds();
        let text: String = answer(&prompts[i], password, totp, now);
        assert(text@ == answer_to(prompts@[i as int]@, text_in(*password), *totp, now));
        out.push(text);
        i += 1;
    }
    out
}

/// What follows on what the server says.
#[derive(Clone, Copy, Debug, PartialEq, Eq, Structural)]
pub enum KeyboardStep {
    Done,
    /// The questions are to be answered.
    Answer,
    Failed(SshError),
}

impl KeyboardSession {
    /// A session that has just begun.
    pub fn new() -> (s: KeyboardSession)
        ensures
            s.rounds == 0,
    {
        KeyboardSession { rounds: 0 }
    }

    /// Judges what the server says. Questions are answered only so many times.
    pub fn on_event(&mut self, event: &KeyboardEvent) -> (step: KeyboardStep)
        requires
            old(self).rounds <= MAX_ROUNDS,
        ensures
            final(self).rounds == if old(self).rounds < MAX_ROUNDS {
                old(self).rounds + 1
            } else {
                old(self).rounds as int
            },
            step == if old(self).rounds == MAX_ROUNDS {
                KeyboardStep::Failed(SshError::TooManyRounds)
            } else {
                match *event {
                    KeyboardEvent::Success => KeyboardStep::Done,
                    KeyboardEvent::Failure => KeyboardStep::Failed(SshError::AuthRejected),
                    KeyboardEvent::Prompts(_) => KeyboardStep::Answer,
                }
            },
    {
        if self.rounds >= MAX_ROUNDS {
            return KeyboardStep::Failed(SshError::TooManyRounds);
        }
        self.rounds += 1;
        match event {
            KeyboardEvent::Success => KeyboardStep::Done,
            KeyboardEvent::Failure => KeyboardStep::Failed(SshError::AuthRejected),
            KeyboardEvent::Prompts(_) => KeyboardStep::Answer,
        }
    }
}

// ---- the outbound ----

/// An outbound through an SSH server; `R` is what looks names up.
pub struct SshOutbound<R> {
    pub config: SshOutboundConfig,
    pub resolver: Option<R>,
}

impl<R> SshOutbound<R> {
    /// An outbound that leaves names to the system.
    pub fn new(config: SshOutboundConfig) -> (o: Self)
        ensures
            o == (SshOutbound { config, resolver: None::<R> }),
    {
        SshOutbound { config, resolver: None }
    }

    /// Sets what looks names up.
    pub fn with_resolver(self, resolver: R) -> (o: Self)
        ensures
            o == (SshOutbound { resolver: Some(resolver), ..self }),
    {
        let mut o = self;
        o.resolver = Some(resolver);
        o
    }

    /// The keys that are expected of the server. Those that cannot be read are passed over.
    pub fn parse_host_keys(&self) -> (expected: ExpectedKeys)
        ensures
            match self.config.host_key {
                None => !expected.checked && expected.parts().len() == 0,
                Some(texts) => expected.checked == (texts@.len() > 0) && expected.parts()
                    == readable_keys(texts@),
            },
    {
        let mut keys: Vec<HostKey> = Vec::new();
        match &self.config.host_key {
            None => ExpectedKeys { checked: false, keys },
            Some(texts) => {
                let mut i: usize = 0;
                assert(keys@.map_values(|k: HostKey| key_parts(k)) =~= Seq::empty());
                while i < texts.len()
                    invariant
                        i <= texts@.len(),
                        keys@.map_values(|k: HostKey| key_parts(k)) == readable_keys(
                            texts@.take(i as int),
                        ),
                    decreases texts@.len() - i,
                {
                    assert(texts@.take(i + 1).drop_last() =~= texts@.take(i as int));
                    assert(texts@.take(i + 1).last() == texts@[i as int]);
                    if let Some(key) = read_openssh_key(&texts[i]) {
                        let ghost before = keys@.map_values(|k: HostKey| key_parts(k));
                        let ghost parts = key_parts(key);
                        keys.push(key);
                        assert(keys@.map_values(|k: HostKey| key_parts(k)) =~= before.push(parts));
                    }
                    i += 1;
                }
                assert(texts@.take(i as int) =~= texts@);
                ExpectedKeys { checked: texts.len() > 0, keys }
            },
        }
    }

    /// Loads the private key, or says which file holds it.
    pub fn load_private_key(&self) -> (res: Result<KeyLoad, SshError>)
        ensures
            match self.config.private_key {
                None => res matches Ok(KeyLoad::NoKey),
                Some(raw) => if is_inline(raw@) {
                    match (
                        res,
                        secret_key(raw@, text_in(self.config.private_key_passphrase)),
                    ) {
                        (Ok(KeyLoad::Key(k)), Some(key)) => k == key,
                        (Err(e), None) => e == SshError::PrivateKey,
                        _ => false,
                    }
                } else {
                    res matches Ok(KeyLoad::ReadFile(path)) && exists|home: Option<Seq<char>>|
                        path@ == #[trigger] expanded(raw@, home)
                },
            },
    {
        let raw: &String = match &self.config.private_key {
            None => {
                return Ok(KeyLoad::NoKey);
            },
            Some(r) => r,
        };
        if contains_text(raw, "PRIVATE KEY") {
            return match decode_key(raw, &self.config.private_key_passphrase) {
                Some(key) => Ok(KeyLoad::Key(key)),
                None => Err(SshError::PrivateKey),
            };
        }
        Ok(KeyLoad::ReadFile(expand_tilde(raw)))
    }

    /// The private key in the text of a file.
    pub fn key_from_file(&self, text: &str) -> (res: Result<russh::keys::PrivateKey, SshError>)
        ensures
            match (res, secret_key(text@, text_in(self.config.private_key_passphrase))) {
                (Ok(k), Some(key)) => k == key,
                (Err(e), None) => e == SshError::PrivateKey,
                _ => false,
            },
    {
        match decode_key(text, &self.config.private_key_passphrase) {
            Some(key) => Ok(key),
            None => Err(SshError::PrivateKey),
        }
    }

    /// The maker of one-time codes, where the settings have one.
    pub fn build_totp(&self) -> (res: Result<Option<Totp>, SshError>)
        ensures
            match self.config.totp_opt {
                None => res matches Ok(None),
                Some(opt) => match (res, option_settings(opt)) {
                    (Ok(Some(t)), Ok((a, d, st, s))) => t.wf() && t.algorithm == a && t.digits == d
                        && t.step == st && t.secret@ == s,
                    (Err(e), Err(f)) => e == f,
                    _ => false,
                },
            },
    {
        let made: Result<Totp, SshError> = match &self.config.totp_opt {
            None => {
                return Ok(None);
            },
            Some(TotpOption::OtpAuth { secret }) => totp_from(
                Some(TotpAlgorithm::Sha1),
                6,
                30,
                decode_secret(secret),
            ),
            Some(TotpOption::Common(c)) => totp_from(
                read_algorithm(&c.algorithm),
                c.digits,
                c.step,
                decode_secret(&c.secret),
            ),
        };
        match made {
            Ok(t) => Ok(Some(t)),
            Err(e) => Err(e),
        }
    }

    /// The ways to authenticate. A key that cannot be loaded is none.
    pub fn auth_plan(&self, key_loaded: bool) -> (plan: AuthPlan)
        ensures
            plan == (AuthPlan {
                has_key: key_loaded,
                has_password: self.config.password is Some,
            }),
    {
        AuthPlan { has_key: key_loaded, has_password: self.config.password.is_some() }
    }

    /// The host and the port that a channel leads to.
    pub fn channel_target(&self, target: &Target) -> (res: (String, u32))
        ensures
            is_target_host(*target, res.0@),
            res.1 == target_port(*target),
    {
        (target.host(), target.port() as u32)
    }

    /// Datagrams do not go through a channel.
    pub fn open_udp(&self) -> (res: Result<(), SshError>)
        ensures
            res == Err::<(), SshError>(SshError::UdpUnsupported),
    {
        Err(SshError::UdpUnsupported)
    }

    /// What the outbound says about itself.
    pub fn status(&self) -> (s: OutboundStatus)
        ensures
            s.name@ == self.config.tag@,
            s.kind@ == "SSH"@,
            s.now is None,
            s.all@.len() == 0,
            s.history@.len() == 0,
    {
        OutboundStatus::leaf(&self.config.tag, "SSH")
    }
}

/// Where keys are expected, a server without one of them is turned away.
pub proof fn unexpected_key_is_refused(expected: ExpectedKeys, key: HostKey)
    requires
        expected.checked,
        expected.keys@.len() == 0,
    ensures
        !expected.parts().contains(key_parts(key)),
{
}

/// An attempt to authenticate is followed only by ways that stand behind it, so that none is
/// tried twice.
pub proof fn ways_are_tried_in_order(
    plan: AuthPlan,
    from: int,
    allowed: spec_fn(AuthMethod) -> bool,
    a: AuthMethod,
    b: AuthMethod,
)
    requires
        plan.is_next(from, allowed, a),
        plan.is_next(from, allowed, b),
    ensures
        a == b,
        rank(a) > from,
{
    assert(rank(a) <= rank(b) || rank(b) < rank(a));
}

} // verus!
