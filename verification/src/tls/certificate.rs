//! The certificate by which a REALITY server shows that it knows the authentication key.

use crate::crypto::{hmac_sha512, hmac_sha512_of};
use crate::wire::{be_value, bytes_eq, copy_range};
use vstd::prelude::*;

verus! {

/// Why a certificate does not authenticate the server.
#[derive(Clone, Copy, Debug, PartialEq, Eq, Structural)]
pub enum CertError {
    NotEd25519,
    Mismatch,
}

/// A DER value: its tag, and where its contents start and end.
pub struct DerNode {
    pub tag: u8,
    pub start: usize,
    pub end: usize,
}

/// The length field at `pos`: the length and where it ends. Lengths of up to four bytes are
/// read.
pub open spec fn der_len(s: Seq<u8>, pos: nat) -> Option<(nat, nat)> {
    if pos >= s.len() {
        None
    } else if s[pos as int] < 128 {
        Some((s[pos as int] as nat, pos + 1))
    } else {
        let n = (s[pos as int] - 128) as nat;
        if n == 0 || n > 4 || pos + 1 + n > s.len() {
            None
        } else {
            Some((be_value(s.subrange(pos as int + 1, pos as int + 1 + n)), pos + 1 + n))
        }
    }
}

/// The value at `pos`: its tag, and where its contents start and end.
pub open spec fn der_at(s: Seq<u8>, pos: nat) -> Option<(u8, nat, nat)> {
    if pos >= s.len() {
        None
    } else {
        match der_len(s, pos + 1) {
            Some((len, start)) => if start + len <= s.len() {
                Some((s[pos as int], start, start + len))
            } else {
                None
            },
            None => None,
        }
    }
}

/// The contents of a value.
pub open spec fn der_contents(s: Seq<u8>, node: (u8, nat, nat)) -> Seq<u8> {
    s.subrange(node.1 as int, node.2 as int)
}

/// The values that follow one another from `pos` to the end.
pub open spec fn der_children(s: Seq<u8>, pos: nat) -> Option<Seq<(u8, nat, nat)>>
    decreases s.len() - pos,
{
    if pos >= s.len() {
        Some(Seq::empty())
    } else {
        match der_at(s, pos) {
            Some(node) => if node.2 > pos {
                match der_children(s, node.2) {
                    Some(rest) => Some(seq![node] + rest),
                    None => None,
                }
            } else {
                None
            },
            None => None,
        }
    }
}

/// The Ed25519 key in a SubjectPublicKeyInfo.
pub open spec fn ed25519_key(spki: Seq<u8>) -> Option<Seq<u8>> {
    match der_at(spki, 0) {
        None => None,
        Some(alg) => match der_at(spki, alg.2) {
            None => None,
            Some(bits) => if alg.0 != 0x30 || bits.0 != 0x03 {
                None
            } else {
                let a = der_contents(spki, alg);
                let b = der_contents(spki, bits);
                match der_at(a, 0) {
                    None => None,
                    Some(oid) => if oid.0 != 0x06 || der_contents(a, oid) != seq![
                        0x2bu8,
                        0x65,
                        0x70,
                    ] || b.len() != 33 || b[0] != 0 {
                        None
                    } else {
                        Some(b.skip(1))
                    },
                }
            },
        },
    }
}

/// The Ed25519 key and the signature of a certificate.
pub open spec fn ed25519_parts(cert: Seq<u8>) -> Option<(Seq<u8>, Seq<u8>)> {
    match der_at(cert, 0) {
        None => None,
        Some(outer) => {
            let c = der_contents(cert, outer);
            match der_at(c, 0) {
                Some(tbs) => match der_at(c, tbs.2) {
                    Some(alg) => match der_at(c, alg.2) {
                        Some(sig) => if outer.0 != 0x30 || tbs.0 != 0x30 || sig.0 != 0x03 {
                            None
                        } else {
                            certified(der_contents(c, tbs), der_contents(c, sig))
                        },
                        None => None,
                    },
                    None => None,
                },
                None => None,
            }
        },
    }
}

/// The key that the signed part of a certificate names, with the signature.
pub open spec fn certified(tbs: Seq<u8>, sig: Seq<u8>) -> Option<(Seq<u8>, Seq<u8>)> {
    if sig.len() == 0 || sig[0] != 0 {
        None
    } else {
        match der_children(tbs, 0) {
            None => None,
            Some(nodes) => {
                let i: int = if nodes.len() > 0 && nodes[0].0 == 0xa0 {
                    6
                } else {
                    5
                };
                if i < nodes.len() {
                    match ed25519_key(der_contents(tbs, nodes[i])) {
                        Some(key) => Some((key, sig.skip(1))),
                        None => None,
                    }
                } else {
                    None
                }
            },
        }
    }
}

spec fn same_node(node: Option<DerNode>, want: Option<(u8, nat, nat)>, len: nat) -> bool {
    match (node, want) {
        (Some(n), Some((tag, start, end))) => n.tag == tag && n.start as nat == start
            && n.end as nat == end && start <= end <= len,
        (None, None) => true,
        _ => false,
    }
}

/// Reads the DER value at `pos`.
pub fn der_read(input: &[u8], pos: usize) -> (node: Option<DerNode>)
    ensures
        match (node, der_at(input@, pos as nat)) {
            (Some(n), Some((tag, start, end))) => n.tag == tag && n.start as nat == start
                && n.end as nat == end && pos + 2 <= start <= end <= input@.len(),
            (None, None) => true,
            _ => false,
        },
{
    if pos >= input.len() || pos + 1 >= input.len() {
        return None;
    }
    let tag: u8 = input[pos];
    let first: u8 = input[pos + 1];
    let mut at: usize = pos + 2;
    let len: u64 = if first < 128 {
        first as u64
    } else {
        let count: usize = (first - 128) as usize;
        if count == 0 || count > 4 || count > input.len() - at {
            return None;
        }
        let mut len: u64 = 0;
        let mut i: usize = 0;
        let ghost from = at as int;
        assert(input@.subrange(from, from) =~= Seq::empty());
        assert(be_value(Seq::<u8>::empty()) == 0);
        while i < count
            invariant
                i <= count <= 4,
                0 <= from,
                at == from + i,
                from + count <= input@.len(),
                len as nat == be_value(input@.subrange(from, at as int)),
                i == 0 ==> len == 0,
                i <= 1 ==> len < 0x100,
                i <= 2 ==> len < 0x1_0000,
                i <= 3 ==> len < 0x100_0000,
                len < 0x1_0000_0000,
            decreases count - i,
        {
            assert(input@.subrange(from, at + 1).drop_last() =~= input@.subrange(from, at as int));
            len = len * 256 + input[at] as u64;
            at += 1;
            i += 1;
        }
        len
    };
    if len > (input.len() - at) as u64 {
        return None;
    }
    Some(DerNode { tag, start: at, end: at + len as usize })
}

/// Reads the Ed25519 key in a SubjectPublicKeyInfo.
pub fn extract_ed25519_spki(spki: &[u8]) -> (key: Option<Vec<u8>>)
    ensures
        match (key, ed25519_key(spki@)) {
            (Some(k), Some(l)) => k@ == l && l.len() == 32,
            (None, None) => true,
            _ => false,
        },
{
    let alg: DerNode = match der_read(spki, 0) {
        Some(n) => n,
        None => {
            return None;
        },
    };
    let bits: DerNode = match der_read(spki, alg.end) {
        Some(n) => n,
        None => {
            return None;
        },
    };
    if alg.tag != 0x30 || bits.tag != 0x03 {
        return None;
    }
    let a: &[u8] = &spki[alg.start..alg.end];
    let b: &[u8] = &spki[bits.start..bits.end];
    let oid: DerNode = match der_read(a, 0) {
        Some(n) => n,
        None => {
            return None;
        },
    };
    let ed25519: [u8; 3] = [0x2b, 0x65, 0x70];
    assert(ed25519@ =~= seq![0x2bu8, 0x65, 0x70]);
    if oid.tag != 0x06 || !bytes_eq(&a[oid.start..oid.end], &ed25519) {
        return None;
    }
    if b.len() != 33 || b[0] != 0 {
        return None;
    }
    let key: Vec<u8> = copy_range(b, 1, 33);
    assert(key@ =~= b@.skip(1));
    Some(key)
}

/// The value that holds the key: the sixth in `tbs`, or the seventh where the first has the
/// version tag. All values must be readable.
fn key_child(tbs: &[u8]) -> (node: Option<DerNode>)
    ensures
        match der_children(tbs@, 0) {
            None => node is None,
            Some(nodes) => ({
                let i: int = if nodes.len() > 0 && nodes[0].0 == 0xa0 {
                    6
                } else {
                    5
                };
                if i < nodes.len() {
                    same_node(node, Some(nodes[i]), tbs@.len())
                } else {
                    node is None
                }
            }),
        },
{
    let mut pos: usize = 0;
    let mut count: usize = 0;
    let mut index: usize = 5;
    let mut found: Option<DerNode> = None;
    let ghost mut seen: Seq<(u8, nat, nat)> = Seq::empty();
    let ghost all = der_children(tbs@, 0);
    proof {
        if let Some(l) = all {
            assert(seen + l =~= l);
        }
    }
    while pos < tbs.len()
        invariant
            pos <= tbs@.len(),
            all == der_children(tbs@, 0),
            count == seen.len(),
            count <= pos,
            match der_children(tbs@, pos as nat) {
                Some(rest) => all == Some(seen + rest),
                None => all is None,
            },
            index == if seen.len() > 0 && seen[0].0 == 0xa0 {
                6int
            } else {
                5
            },
            if index < seen.len() {
                same_node(found, Some(seen[index as int]), tbs@.len())
            } else {
                found is None
            },
        decreases tbs@.len() - pos,
    {
        let node: DerNode = match der_read(tbs, pos) {
            Some(n) => n,
            None => {
                return None;
            },
        };
        let ghost item = (node.tag, node.start as nat, node.end as nat);
        proof {
            assert(der_at(tbs@, pos as nat) == Some(item));
            if let Some(rest) = der_children(tbs@, item.2) {
                assert(seen + (seq![item] + rest) =~= seen.push(item) + rest);
            }
        }
        if count == 0 && node.tag == 0xa0 {
            index = 6;
        }
        pos = node.end;
        if count == index {
            found = Some(node);
        }
        proof {
            seen = seen.push(item);
        }
        count += 1;
    }
    proof {
        assert(seen + Seq::<(u8, nat, nat)>::empty() =~= seen);
    }
    found
}

/// Reads the Ed25519 key and the signature of a certificate.
pub fn extract_ed25519_cert_parts(cert: &[u8]) -> (parts: Option<(Vec<u8>, Vec<u8>)>)
    ensures
        match (parts, ed25519_parts(cert@)) {
            (Some((k, s)), Some((l, t))) => k@ == l && s@ == t && l.len() == 32,
            (None, None) => true,
            _ => false,
        },
{
    let outer: DerNode = match der_read(cert, 0) {
        Some(n) => n,
        None => {
            return None;
        },
    };
    if outer.tag != 0x30 {
        return None;
    }
    let c: &[u8] = &cert[outer.start..outer.end];
    let tbs: DerNode = match der_read(c, 0) {
        Some(n) => n,
        None => {
            return None;
        },
    };
    let alg: DerNode = match der_read(c, tbs.end) {
        Some(n) => n,
        None => {
            return None;
        },
    };
    let sig: DerNode = match der_read(c, alg.end) {
        Some(n) => n,
        None => {
            return None;
        },
    };
    if tbs.tag != 0x30 || sig.tag != 0x03 {
        return None;
    }
    let t: &[u8] = &c[tbs.start..tbs.end];
    let s: &[u8] = &c[sig.start..sig.end];
    if s.len() == 0 || s[0] != 0 {
        return None;
    }
    let spki: DerNode = match key_child(t) {
        Some(n) => n,
        None => {
            return None;
        },
    };
    match extract_ed25519_spki(&t[spki.start..spki.end]) {
        Some(key) => {
            let signature: Vec<u8> = copy_range(s, 1, s.len());
            assert(signature@ =~= s@.skip(1));
            Some((key, signature))
        },
        None => None,
    }
}

/// Whether a certificate comes from a server that knows the authentication key: its signature
/// must be the HMAC-SHA512 of its Ed25519 key under that key.
pub fn verify_reality_certificate(cert_der: &[u8], auth_key: &[u8]) -> (res: Result<(), CertError>)
    ensures
        res == match ed25519_parts(cert_der@) {
            None => Err::<(), CertError>(CertError::NotEd25519),
            Some((key, sig)) => if sig == hmac_sha512_of(auth_key@, key) {
                Ok::<(), CertError>(())
            } else {
                Err::<(), CertError>(CertError::Mismatch)
            },
        },
{
    match extract_ed25519_cert_parts(cert_der) {
        None => Err(CertError::NotEd25519),
        Some((key, sig)) => {
            let expected: Vec<u8> = hmac_sha512(auth_key, &key);
            if bytes_eq(&expected, &sig) {
                Ok(())
            } else {
                Err(CertError::Mismatch)
            }
        },
    }
}

} // verus!
