//! Authentication of a client: a password hash and some padding.
use crate::anytls::error::{io_error, AnyTlsError, ErrorKind};
use crate::anytls::padding::PaddingFactory;
use crate::octets;
use sha2::{Digest, Sha256};
use vstd::prelude::*;

verus! {

/// The SHA-256 hash of some bytes.
pub uninterp spec fn sha256(data: Seq<u8>) -> Seq<u8>;

/// `sha2`'s `Sha256::digest`. The hash function itself is not stated here.
#[verifier::external_body]
fn sha256_digest(data: &[u8]) -> (out: [u8; 32])
    ensures
        out@ == sha256(data@),
{
    Sha256::digest(data).into()
}

/// The SHA-256 hash of a password.
pub fn hash_password(password: &str) -> (out: [u8; 32])
    ensures
        out@ == sha256(vstd::utf8::encode_utf8(password@)),
{
    sha256_digest(password.as_bytes())
}

/// What the authentication of a client comes to, as far as it has arrived.
pub enum AuthModel {
    Incomplete,
    /// The password is wrong.
    Failed,
    /// The client is authenticated by this many bytes.
    Done(int),
}

/// What the authentication of a client comes to: the password hash in 32
/// bytes, the padding's length in two, and the padding, which means nothing.
pub open spec fn auth_of(b: Seq<u8>, expected: Seq<u8>) -> AuthModel {
    if b.len() < 32 {
        AuthModel::Incomplete
    } else if b.take(32) != expected {
        AuthModel::Failed
    } else if b.len() < 34 || b.len() < 34 + octets::be16(b[32], b[33]) {
        AuthModel::Incomplete
    } else {
        AuthModel::Done(34 + octets::be16(b[32], b[33]))
    }
}

/// See [`AuthModel`].
#[derive(Debug)]
pub enum AuthStep {
    Incomplete,
    Failed(AnyTlsError),
    Done(usize),
}

/// Authenticates a client by what it has sent.
pub fn authenticate_client(received: &[u8], expected_password_hash: &[u8; 32]) -> (step: AuthStep)
    ensures
        match auth_of(received@, expected_password_hash@) {
            AuthModel::Incomplete => step is Incomplete,
            AuthModel::Failed => step matches AuthStep::Failed(e) && e is AuthenticationFailed,
            AuthModel::Done(n) => step matches AuthStep::Done(m) && m == n,
        },
{
    if received.len() < 32 {
        return AuthStep::Incomplete;
    }
    let mut i: usize = 0;
    while i < 32
        invariant
            i <= 32,
            received@.len() >= 32,
            forall|j: int| 0 <= j < i ==> #[trigger] received@[j] == expected_password_hash@[j],
        decreases 32 - i,
    {
        if received[i] != expected_password_hash[i] {
            assert(received@.take(32)[i as int] != expected_password_hash@[i as int]);
            return AuthStep::Failed(AnyTlsError::AuthenticationFailed);
        }
        i += 1;
    }
    assert(received@.take(32) =~= expected_password_hash@);
    if received.len() < 34 {
        return AuthStep::Incomplete;
    }
    let padding_len: usize = octets::read_be16(received[32], received[33]) as usize;
    if received.len() < 34 + padding_len {
        return AuthStep::Incomplete;
    }
    AuthStep::Done(34 + padding_len)
}

/// Authenticates a client that sends nothing more: by how many bytes it is let
/// in. One that stopped early is an input error, unless its hash was there and
/// wrong.
pub fn authenticate_ended(received: &[u8], expected_password_hash: &[u8; 32]) -> (r: Result<
    usize,
    AnyTlsError,
>)
    ensures
        match auth_of(received@, expected_password_hash@) {
            AuthModel::Incomplete => r matches Err(e) && e.is_io(
                ErrorKind::UnexpectedEof,
                "early eof"@,
            ),
            AuthModel::Failed => r matches Err(e) && e is AuthenticationFailed,
            AuthModel::Done(n) => r matches Ok(m) && m == n,
        },
{
    match authenticate_client(received, expected_password_hash) {
        AuthStep::Incomplete => Err(io_error(ErrorKind::UnexpectedEof, "early eof")),
        AuthStep::Failed(e) => Err(e),
        AuthStep::Done(n) => Ok(n),
    }
}

/// The length of the padding that the first of some sizes asks for. A negative
/// size asks for none; a size counts modulo 65536.
pub open spec fn padding_len(sizes: Seq<i32>) -> u16 {
    if sizes.len() == 0 || sizes[0] < 0 {
        0
    } else {
        (sizes[0] as int % 0x1_0000) as u16
    }
}

/// What a client sends to authenticate itself.
pub open spec fn auth_bytes(hash: Seq<u8>, len: u16) -> Seq<u8> {
    hash + octets::be16_bytes(len) + Seq::new(len as nat, |i: int| 0u8)
}

/// What a client sends to authenticate itself, with the sizes that its padding
/// scheme gives for the first packet.
pub fn authentication_with_sizes(password_hash: &[u8; 32], sizes: &[i32]) -> (out: Vec<u8>)
    ensures
        out@ == auth_bytes(password_hash@, padding_len(sizes@)),
{
    let len: u16 = if sizes.len() == 0 || sizes[0] < 0 {
        0
    } else {
        (sizes[0] % 0x1_0000) as u16
    };
    let mut out: Vec<u8> = Vec::new();
    octets::append(&mut out, password_hash.as_slice());
    octets::push_be16(&mut out, len);
    let ghost front = out@;
    let mut i: u16 = 0;
    assert(front + Seq::new(0, |j: int| 0u8) =~= front);
    while i < len
        invariant
            i <= len,
            out@ == front + Seq::new(i as nat, |j: int| 0u8),
        decreases len - i,
    {
        out.push(0);
        assert(out@ =~= front + Seq::new((i + 1) as nat, |j: int| 0u8));
        i += 1;
    }
    assert(out@ =~= auth_bytes(password_hash@, len));
    out
}

/// What a client sends to authenticate itself under a padding scheme. The
/// padding's length is one that the scheme allows for the first packet.
pub fn send_authentication(password_hash: &[u8; 32], padding_factory: &PaddingFactory) -> (out: Vec<
    u8,
>)
    requires
        padding_factory.wf(),
    ensures
        exists|sizes: Seq<i32>|
            crate::anytls::padding::sizes_fit(sizes, padding_factory.plan_of(0)) && out@
                == #[trigger] auth_bytes(password_hash@, padding_len(sizes)),
{
    let sizes = padding_factory.generate_record_payload_sizes(0);
    authentication_with_sizes(password_hash, sizes.as_slice())
}

/// Once a client is let in or refused, what arrives later changes nothing.
pub proof fn law_authentication_settled(b: Seq<u8>, more: Seq<u8>, expected: Seq<u8>)
    requires
        !(auth_of(b, expected) is Incomplete),
    ensures
        auth_of(b + more, expected) == auth_of(b, expected),
{
    assert((b + more).take(32) =~= b.take(32));
}

/// A client that stops before the end of what it has to send is not let in:
/// the rest is missing, or its hash was wrong already.
pub proof fn law_authentication_cut(hash: Seq<u8>, expected: Seq<u8>, len: u16, n: int)
    requires
        hash.len() == 32,
        expected.len() == 32,
        0 <= n < auth_bytes(hash, len).len(),
    ensures
        auth_of(auth_bytes(hash, len).take(n), expected) == (if n >= 32 && hash != expected {
            AuthModel::Failed
        } else {
            AuthModel::Incomplete
        }),
{
    let b = auth_bytes(hash, len).take(n);
    if n >= 32 {
        assert(b.take(32) =~= hash);
    }
    if n >= 34 {
        assert(b[32] == (len / 256) as u8 && b[33] == (len % 256) as u8);
        assert(octets::be16(b[32], b[33]) == len);
    }
}

/// Whoever holds the right password is let in by exactly what they sent,
/// whatever the padding and whatever follows; with any other hash they are
/// not.
pub proof fn law_authentication(hash: Seq<u8>, expected: Seq<u8>, len: u16, rest: Seq<u8>)
    requires
        hash.len() == 32,
        expected.len() == 32,
    ensures
        hash == expected ==> auth_of(auth_bytes(hash, len) + rest, expected) == AuthModel::Done(
            auth_bytes(hash, len).len() as int,
        ),
        hash != expected ==> auth_of(auth_bytes(hash, len) + rest, expected) is Failed,
{
    let b = auth_bytes(hash, len) + rest;
    assert(b.take(32) =~= hash);
    assert(b[32] == (len / 256) as u8 && b[33] == (len % 256) as u8);
    assert(octets::be16(b[32], b[33]) == len);
}

} // verus!
