//! An outbound through an HTTP proxy, by the CONNECT method.

use crate::config::{header_pairs, host_of, other_headers, HttpOutboundConfig};
use crate::encoding::{base64_encode, base64_text};
use crate::net::{is_target_text, Target};
use crate::status::OutboundStatus;
use crate::text::{chars_of, text_eq, text_in, text_of};
use crate::wire::{copy_range, put_bytes};
use vstd::prelude::*;
use vstd::utf8::encode_utf8;

verus! {

/// The most bytes that are read for the head of a response.
pub const MAX_RESPONSE_HEADER_BYTES: usize = 65536;

/// Why no tunnel is made.
#[derive(Clone, Copy, Debug, PartialEq, Eq, Structural)]
pub enum HttpError {
    /// A host of one's own and a path are set at the same time.
    HostAndPath,
    /// The header at this place holds a line break.
    IllegalHeader(usize),
    Closed,
    HeaderTooLarge,
    Malformed,
    MissingStatus,
    AuthRequired,
    MethodNotAllowed,
    UnexpectedStatus(u16),
    UdpUnsupported,
}

/// An outbound through an HTTP proxy; `R` is what looks names up.
pub struct HttpOutbound<R> {
    pub config: HttpOutboundConfig,
    /// The mark of its packets; zero for none.
    pub routing_mark: u32,
    pub resolver: Option<R>,
}

/// The target as `host:port`.
pub fn target_authority(target: &Target) -> (text: String)
    ensures
        is_target_text(*target, text@),
{
    target.to_text()
}

/// Whether a host of one's own stands in for the target: one is set, and it is not the name of the
/// target.
pub open spec fn opaque_host(host: Option<Seq<char>>, target: Target) -> bool {
    match host {
        None => false,
        Some(h) => h.len() > 0 && !(target matches Target::Domain(name, _) && name@ == h),
    }
}

/// `p` without a slash in front.
pub open spec fn without_slash(p: Seq<char>) -> Seq<char> {
    if p.len() > 0 && p[0] == '/' {
        p.skip(1)
    } else {
        p
    }
}

/// What is asked for: the target, and the path behind it where there is one.
pub open spec fn request_target(authority: Seq<char>, path: Option<Seq<char>>) -> Seq<char> {
    match path {
        Some(p) => authority.push('/') + without_slash(p),
        None => authority,
    }
}

/// The line with the credentials, if any.
pub open spec fn auth_line(username: Option<Seq<char>>, password: Option<Seq<char>>) -> Seq<char> {
    match username {
        None => Seq::empty(),
        Some(user) => {
            let pass = match password {
                Some(p) => p,
                None => Seq::empty(),
            };
            "Proxy-Authorization: Basic "@ + base64_text(encode_utf8(user.push(':') + pass))
                + "\r\n"@
        },
    }
}

/// The lines of headers.
pub open spec fn header_lines(headers: Seq<(Seq<char>, Seq<char>)>) -> Seq<char>
    decreases headers.len(),
{
    if headers.len() == 0 {
        Seq::empty()
    } else {
        header_lines(headers.drop_last()) + headers.last().0 + ": "@ + headers.last().1 + "\r\n"@
    }
}

/// A request for a tunnel.
pub open spec fn connect_text(
    asked: Seq<char>,
    host: Seq<char>,
    auth: Seq<char>,
    headers: Seq<(Seq<char>, Seq<char>)>,
) -> Seq<char> {
    "CONNECT "@ + asked + " HTTP/1.1\r\n"@ + "Host: "@ + host + "\r\n"@
        + "Proxy-Connection: Keep-Alive\r\n"@ + auth + header_lines(headers) + "\r\n"@
}

/// Whether a text holds a line break.
pub open spec fn breaks_line(s: Seq<char>) -> bool {
    exists|i: int| 0 <= i < s.len() && (s[i] == '\r' || s[i] == '\n')
}

/// Whether a header holds a line break.
pub open spec fn illegal(h: (Seq<char>, Seq<char>)) -> bool {
    breaks_line(h.0) || breaks_line(h.1)
}

fn has_line_break(s: &str) -> (yes: bool)
    ensures
        yes == breaks_line(s@),
{
    let chars: Vec<char> = chars_of(s);
    let mut i: usize = 0;
    while i < chars.len()
        invariant
            i <= chars@.len(),
            chars@ == s@,
            forall|j: int| 0 <= j < i ==> s@[j] != '\r' && s@[j] != '\n',
        decreases chars@.len() - i,
    {
        if chars[i] == '\r' || chars[i] == '\n' {
            assert(s@[i as int] == '\r' || s@[i as int] == '\n');
            return true;
        }
        i += 1;
    }
    false
}

fn put_auth(req: &mut String, username: &Option<String>, password: &Option<String>)
    ensures
        final(req)@ == old(req)@ + auth_line(text_in(*username), text_in(*password)),
{
    if let Some(user) = username {
        let mut pair: String = user.clone();
        pair.push(':');
        if let Some(pass) = password {
            pair.append(pass);
        }
        let ghost pass = match password {
            Some(p) => p@,
            None => Seq::<char>::empty(),
        };
        assert(pair@ =~= user@.push(':') + pass);
        req.append("Proxy-Authorization: Basic ");
        req.append(&base64_encode(pair.as_str().as_bytes()));
        req.append("\r\n");
    }
    assert(req@ =~= old(req)@ + auth_line(text_in(*username), text_in(*password)));
}

fn put_headers(req: &mut String, headers: &[(String, String)]) -> (res: Result<(), HttpError>)
    ensures
        match res {
            Ok(()) => (forall|i: int|
                0 <= i < headers@.len() ==> !illegal(#[trigger] header_pairs(headers@)[i]))
                && final(req)@ == old(req)@ + header_lines(header_pairs(headers@)),
            Err(e) => exists|i: int|
                0 <= i < headers@.len() && illegal(#[trigger] header_pairs(headers@)[i]) && e
                    == HttpError::IllegalHeader(i as usize) && forall|j: int|
                    0 <= j < i ==> !illegal(#[trigger] header_pairs(headers@)[j]),
        },
{
    let ghost all = header_pairs(headers@);
    let mut i: usize = 0;
    assert(req@ =~= old(req)@ + header_lines(all.take(0)));
    while i < headers.len()
        invariant
            i <= headers@.len(),
            all == header_pairs(headers@),
            forall|j: int| 0 <= j < i ==> !illegal(#[trigger] all[j]),
            req@ == old(req)@ + header_lines(all.take(i as int)),
        decreases headers@.len() - i,
    {
        assert(all[i as int] == (headers@[i as int].0@, headers@[i as int].1@));
        if has_line_break(&headers[i].0) || has_line_break(&headers[i].1) {
            assert(illegal(all[i as int]));
            return Err(HttpError::IllegalHeader(i));
        }
        req.append(&headers[i].0);
        req.append(": ");
        req.append(&headers[i].1);
        req.append("\r\n");
        assert(all.take(i + 1).drop_last() =~= all.take(i as int));
        assert(req@ =~= old(req)@ + header_lines(all.take(i + 1)));
        i += 1;
    }
    assert(all.take(i as int) =~= all);
    Ok(())
}

/// What `httparse` makes of the start of a response: nothing where it is malformed; where it is
/// whole, the length of its head and its status.
pub uninterp spec fn http_response(bytes: Seq<u8>) -> Option<Option<(usize, Option<u16>)>>;

/// `Response::parse` of the `httparse` crate, with room for 64 headers. What it finds depends on
/// the bytes alone, and the head is no longer than they are. The grammar of a response is left
/// unsaid.
#[verifier::external_body]
pub(crate) fn parse_response(bytes: &[u8]) -> (res: Option<Option<(usize, Option<u16>)>>)
    ensures
        res == http_response(bytes@),
        res matches Some(Some((offset, _))) ==> offset <= bytes@.len(),
{
    let mut headers = [httparse::EMPTY_HEADER; 64];
    let mut response = httparse::Response::new(&mut headers);
    match response.parse(bytes) {
        Ok(httparse::Status::Complete(offset)) => Some(Some((offset, response.code))),
        Ok(httparse::Status::Partial) => Some(None),
        Err(_) => None,
    }
}

/// How far the reading of a response is.
#[derive(Debug)]
pub enum ConnectStep {
    NeedMore,
    /// The tunnel is there. What was read behind the head belongs to it.
    Open(Vec<u8>),
    Failed(HttpError),
}

/// Whether a step is right for what was read and what was found in it.
pub open spec fn right_step(
    step: ConnectStep,
    raw: Seq<u8>,
    found: Option<Option<(usize, Option<u16>)>>,
) -> bool {
    match found {
        None => step == ConnectStep::Failed(HttpError::Malformed),
        Some(None) => step is NeedMore,
        Some(Some((_, None))) => step == ConnectStep::Failed(HttpError::MissingStatus),
        Some(Some((offset, Some(code)))) => if code == 200 {
            step matches ConnectStep::Open(rest) && rest@ == raw.skip(offset as int)
        } else if code == 407 {
            step == ConnectStep::Failed(HttpError::AuthRequired)
        } else if code == 405 {
            step == ConnectStep::Failed(HttpError::MethodNotAllowed)
        } else {
            step == ConnectStep::Failed(HttpError::UnexpectedStatus(code))
        },
    }
}

/// What follows on what was found in a response.
pub fn judge_response(raw: &[u8], found: Option<Option<(usize, Option<u16>)>>) -> (step: ConnectStep)
    requires
        found matches Some(Some((offset, _))) ==> offset <= raw@.len(),
    ensures
        right_step(step, raw@, found),
{
    match found {
        None => ConnectStep::Failed(HttpError::Malformed),
        Some(None) => ConnectStep::NeedMore,
        Some(Some((_, None))) => ConnectStep::Failed(HttpError::MissingStatus),
        Some(Some((offset, Some(code)))) => {
            if code == 200 {
                let rest: Vec<u8> = copy_range(raw, offset, raw.len());
                assert(rest@ =~= raw@.skip(offset as int));
                ConnectStep::Open(rest)
            } else if code == 407 {
                ConnectStep::Failed(HttpError::AuthRequired)
            } else if code == 405 {
                ConnectStep::Failed(HttpError::MethodNotAllowed)
            } else {
                ConnectStep::Failed(HttpError::UnexpectedStatus(code))
            }
        },
    }
}

/// A response that is being read.
pub struct ConnectReader {
    pub raw: Vec<u8>,
}

impl ConnectReader {
    /// Nothing was read.
    pub fn new() -> (reader: ConnectReader)
        ensures
            reader.raw@.len() == 0,
    {
        ConnectReader { raw: Vec::new() }
    }

    /// Takes what was read; nothing at the end of the connection.
    pub fn on_read(&mut self, chunk: &[u8]) -> (step: ConnectStep)
        ensures
            final(self).raw@ == old(self).raw@ + chunk@,
            if chunk@.len() == 0 {
                step == ConnectStep::Failed(HttpError::Closed)
            } else if old(self).raw@.len() + chunk@.len() > MAX_RESPONSE_HEADER_BYTES {
                step == ConnectStep::Failed(HttpError::HeaderTooLarge)
            } else {
                right_step(
                    step,
                    old(self).raw@ + chunk@,
                    http_response(old(self).raw@ + chunk@),
                )
            },
    {
        put_bytes(&mut self.raw, chunk);
        if chunk.len() == 0 {
            return ConnectStep::Failed(HttpError::Closed);
        }
        if self.raw.len() > MAX_RESPONSE_HEADER_BYTES {
            return ConnectStep::Failed(HttpError::HeaderTooLarge);
        }
        let found: Option<Option<(usize, Option<u16>)>> = parse_response(&self.raw);
        judge_response(&self.raw, found)
    }
}

impl<R> HttpOutbound<R> {
    /// An outbound that leaves names to the system.
    pub fn new(config: HttpOutboundConfig) -> (o: Self)
        ensures
            o == (HttpOutbound { config, routing_mark: 0, resolver: None::<R> }),
    {
        HttpOutbound { config, routing_mark: 0, resolver: None }
    }

    /// Sets what looks names up.
    pub fn with_resolver(self, resolver: R) -> (o: Self)
        ensures
            o == (HttpOutbound { resolver: Some(resolver), ..self }),
    {
        let mut o = self;
        o.resolver = Some(resolver);
        o
    }

    /// Sets the mark of its packets.
    pub fn with_mark(self, mark: u32) -> (o: Self)
        ensures
            o == (HttpOutbound { routing_mark: mark, ..self }),
    {
        let mut o = self;
        o.routing_mark = mark;
        o
    }

    /// The host of one's own in the settings.
    pub open spec fn own_host(&self) -> Option<Seq<char>> {
        host_of(self.config.headers.0@)
    }

    /// The other headers in the settings.
    pub open spec fn extra_headers(&self) -> Seq<(Seq<char>, Seq<char>)> {
        other_headers(self.config.headers.0@)
    }

    /// The request for a tunnel to `target`, whose text is `authority`.
    pub open spec fn request_text(&self, target: Target, authority: Seq<char>) -> Seq<char> {
        connect_text(
            request_target(authority, text_in(self.config.path)),
            if opaque_host(self.own_host(), target) {
                self.own_host()->Some_0
            } else {
                authority
            },
            auth_line(text_in(self.config.username), text_in(self.config.password)),
            self.extra_headers(),
        )
    }

    /// Makes the request for a tunnel. A host of one's own does not go with a path, and headers
    /// hold no line breaks.
    pub fn connect_request(&self, target: &Target) -> (res: Result<String, HttpError>)
        ensures
            match res {
                Ok(req) => {
                    &&& !(opaque_host(self.own_host(), *target) && self.config.path is Some)
                    &&& forall|i: int|
                        0 <= i < self.extra_headers().len() ==> !illegal(
                            #[trigger] self.extra_headers()[i],
                        )
                    &&& exists|authority: Seq<char>| #[trigger]
                        is_target_text(*target, authority) && req@ == self.request_text(
                            *target,
                            authority,
                        )
                },
                Err(HttpError::HostAndPath) => opaque_host(self.own_host(), *target)
                    && self.config.path is Some,
                Err(HttpError::IllegalHeader(i)) => {
                    &&& !(opaque_host(self.own_host(), *target) && self.config.path is Some)
                    &&& i < self.extra_headers().len()
                    &&& illegal(self.extra_headers()[i as int])
                    &&& forall|j: int|
                        0 <= j < i ==> !illegal(#[trigger] self.extra_headers()[j])
                },
                Err(_) => false,
            },
    {
        let authority: String = target_authority(target);
        let (host, extra): (Option<String>, Vec<(String, String)>) =
            self.config.take_host_and_headers();
        let own: bool = match &host {
            None => false,
            Some(h) => h.as_str().unicode_len() > 0 && match target {
                Target::Domain(name, _) => !text_eq(name, h),
                Target::Socket(_) => true,
            },
        };
        if own && self.config.path.is_some() {
            return Err(HttpError::HostAndPath);
        }
        let mut asked: String = authority.clone();
        if let Some(path) = &self.config.path {
            let chars: Vec<char> = chars_of(path);
            let from: usize = if chars.len() > 0 && chars[0] == '/' {
                1
            } else {
                0
            };
            let rest: String = text_of(&chars, from, chars.len());
            assert(rest@ =~= without_slash(path@));
            asked.push('/');
            asked.append(&rest);
        }
        assert(asked@ =~= request_target(authority@, text_in(self.config.path)));
        let mut req: String = "CONNECT ".to_string();
        req.append(&asked);
        req.append(" HTTP/1.1\r\n");
        req.append("Host: ");
        match host {
            Some(h) if own => req.append(&h),
            _ => req.append(&authority),
        }
        req.append("\r\n");
        req.append("Proxy-Connection: Keep-Alive\r\n");
        put_auth(&mut req, &self.config.username, &self.config.password);
        if let Err(e) = put_headers(&mut req, &extra) {
            return Err(e);
        }
        req.append("\r\n");
        assert(is_target_text(*target, authority@));
        assert(req@ =~= self.request_text(*target, authority@));
        Ok(req)
    }

    /// The name that TLS asks for, where TLS is used.
    pub fn tls_name(&self) -> (name: Option<String>)
        ensures
            text_in(name) == if !self.config.tls.enabled {
                None::<Seq<char>>
            } else {
                match self.config.tls.server_name {
                    Some(n) => Some(n@),
                    None => Some(self.config.server@),
                }
            },
    {
        if !self.config.tls.enabled {
            return None;
        }
        match &self.config.tls.server_name {
            Some(n) => Some(n.clone()),
            None => Some(self.config.server.clone()),
        }
    }

    /// Datagrams do not go through a tunnel.
    pub fn open_udp(&self) -> (res: Result<(), HttpError>)
        ensures
            res == Err::<(), HttpError>(HttpError::UdpUnsupported),
    {
        Err(HttpError::UdpUnsupported)
    }

    /// What the outbound says about itself.
    pub fn status(&self) -> (s: OutboundStatus)
        ensures
            s.name@ == self.config.tag@,
            s.kind@ == "HTTP"@,
            s.now is None,
            s.all@.len() == 0,
            s.history@.len() == 0,
    {
        OutboundStatus::leaf(&self.config.tag, "HTTP")
    }
}

} // verus!
