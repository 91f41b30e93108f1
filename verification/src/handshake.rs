//! The hello handshake between client and exit: length-prefixed framing,
//! the hello messages and their codec, the exit's response computation, the
//! client's verification and key derivation, and the proof that both sides
//! of an x25519 exchange derive the same directional session keys.

use crate::codec::{
    dec_bytes, dec_u32, dec_u8, enc_u32, lemma_dec_u32, lemma_enc_lens, lemma_nested_subrange,
    push_bytes, push_u32, push_u8, read_bytes, read_u32, read_u8,
};
use crate::crypto::{
    blake3_derive_key, blake3_derive_of, blake3_keyed_hash, blake3_keyed_of, ed25519_pub_of,
    ed25519_sig_of, ed25519_sign, ed25519_verifies, ed25519_verify, random_bytes32, x25519_apply,
    x25519_base, x25519_of, x25519_public,
};
use crate::net::{byte_vecs_equal, clone_byte_vec};
use vstd::prelude::*;

verus! {

// ---------------------------------------------------------------------------
// Framing: a four-byte length prefix, with the length capped on read so an
// adversarial peer cannot demand an absurd allocation.
// ---------------------------------------------------------------------------
/// The largest frame a reader accepts.
pub const MAX_FRAME_LEN: u32 = 1048576;

pub open spec fn enc_frame(payload: Seq<u8>) -> Seq<u8>
    recommends
        payload.len() <= MAX_FRAME_LEN,
{
    enc_u32(payload.len() as u32) + payload
}

pub open spec fn dec_frame(s: Seq<u8>, i: int) -> Option<(Seq<u8>, int)> {
    match dec_u32(s, i) {
        Some((n, j)) => if n <= MAX_FRAME_LEN {
            dec_bytes(s, j, n as int)
        } else {
            None
        },
        None => None,
    }
}

/// Lays a payload into a frame.
pub fn frame_message(payload: &Vec<u8>) -> (r: Vec<u8>)
    requires
        payload@.len() <= MAX_FRAME_LEN,
    ensures
        r@ == enc_frame(payload@),
{
    let mut out: Vec<u8> = Vec::new();
    push_u32(&mut out, payload.len() as u32);
    push_bytes(&mut out, payload.as_slice());
    assert(out@ =~= enc_frame(payload@));
    out
}

/// Reads one frame, rejecting lengths over the cap.
pub fn read_frame(s: &[u8], pos: usize) -> (r: Option<(Vec<u8>, usize)>)
    ensures
        match r {
            Some((v, j)) => dec_frame(s@, pos as int) == Some((v@, j as int)) && v@.len()
                <= MAX_FRAME_LEN,
            None => dec_frame(s@, pos as int) is None,
        },
{
    let (n, j) = match read_u32(s, pos) {
        Some(x) => x,
        None => {
            return None;
        },
    };
    if n > MAX_FRAME_LEN {
        return None;
    }
    read_bytes(s, j, n as usize)
}

/// Framing round trip: reading a written frame returns the payload.
pub proof fn lemma_frame_round_trip(payload: Seq<u8>)
    requires
        payload.len() <= MAX_FRAME_LEN,
    ensures
        dec_frame(enc_frame(payload), 0) == Some((payload, enc_frame(payload).len() as int)),
{
    lemma_enc_lens();
    let whole = enc_frame(payload);
    let n: int = whole.len() as int;
    assert(whole.subrange(0, n) =~= whole);
    assert(whole.subrange(0, 4) =~= enc_u32(payload.len() as u32));
    assert(whole.subrange(4, n) =~= payload);
    lemma_nested_subrange(whole, 0, whole, 0, 4);
    lemma_dec_u32(payload.len() as u32, whole, 0);
}

// ---------------------------------------------------------------------------
// Hello messages and their codec
// ---------------------------------------------------------------------------
/// The client's opening move: prove possession of the transport's shared
/// secret against a fresh challenge key, or offer an ephemeral x25519 key.
#[derive(Debug, PartialEq, Eq)]
pub enum ClientCryptHello {
    SharedSecretChallenge(Vec<u8>),
    X25519(Vec<u8>),
}

pub ghost enum ClientCryptHelloView {
    SharedSecretChallenge(Seq<u8>),
    X25519(Seq<u8>),
}

impl View for ClientCryptHello {
    type V = ClientCryptHelloView;

    open spec fn view(&self) -> ClientCryptHelloView {
        match self {
            ClientCryptHello::SharedSecretChallenge(k) => {
                ClientCryptHelloView::SharedSecretChallenge(k@)
            },
            ClientCryptHello::X25519(k) => ClientCryptHelloView::X25519(k@),
        }
    }
}

#[derive(Debug, PartialEq, Eq)]
pub struct ClientHello {
    pub crypt_hello: ClientCryptHello,
}

pub ghost struct ClientHelloView {
    pub crypt_hello: ClientCryptHelloView,
}

impl View for ClientHello {
    type V = ClientHelloView;

    open spec fn view(&self) -> ClientHelloView {
        ClientHelloView { crypt_hello: self.crypt_hello@ }
    }
}

impl ClientHelloView {
    pub open spec fn wf(self) -> bool {
        match self.crypt_hello {
            ClientCryptHelloView::SharedSecretChallenge(k) => k.len() == 32,
            ClientCryptHelloView::X25519(k) => k.len() == 32,
        }
    }
}

/// The exit's answer, mirroring the client's choice.
#[derive(Debug, PartialEq, Eq)]
pub enum ExitHelloInner {
    SharedSecretResponse(Vec<u8>),
    X25519(Vec<u8>),
}

pub ghost enum ExitHelloInnerView {
    SharedSecretResponse(Seq<u8>),
    X25519(Seq<u8>),
}

impl View for ExitHelloInner {
    type V = ExitHelloInnerView;

    open spec fn view(&self) -> ExitHelloInnerView {
        match self {
            ExitHelloInner::SharedSecretResponse(m) => {
                ExitHelloInnerView::SharedSecretResponse(m@)
            },
            ExitHelloInner::X25519(k) => ExitHelloInnerView::X25519(k@),
        }
    }
}

impl ExitHelloInner {
    pub fn clone_inner(&self) -> (r: ExitHelloInner)
        ensures
            r@ == self@,
    {
        match self {
            ExitHelloInner::SharedSecretResponse(m) => {
                ExitHelloInner::SharedSecretResponse(clone_byte_vec(m))
            },
            ExitHelloInner::X25519(k) => ExitHelloInner::X25519(clone_byte_vec(k)),
        }
    }
}

/// The exit hello: the answer plus a signature binding it to the client's
/// hello.
#[derive(Debug, PartialEq, Eq)]
pub struct ExitHello {
    pub inner: ExitHelloInner,
    pub signature: Vec<u8>,
}

pub ghost struct ExitHelloView {
    pub inner: ExitHelloInnerView,
    pub signature: Seq<u8>,
}

impl View for ExitHello {
    type V = ExitHelloView;

    open spec fn view(&self) -> ExitHelloView {
        ExitHelloView { inner: self.inner@, signature: self.signature@ }
    }
}

impl ExitHelloView {
    pub open spec fn wf(self) -> bool {
        self.signature.len() == 64 && match self.inner {
            ExitHelloInnerView::SharedSecretResponse(m) => m.len() == 32,
            ExitHelloInnerView::X25519(k) => k.len() == 32,
        }
    }
}

pub open spec fn enc_client_hello(h: ClientHelloView) -> Seq<u8> {
    match h.crypt_hello {
        ClientCryptHelloView::SharedSecretChallenge(k) => seq![0u8] + k,
        ClientCryptHelloView::X25519(k) => seq![1u8] + k,
    }
}

pub open spec fn dec_client_hello(s: Seq<u8>, i: int) -> Option<(ClientHelloView, int)> {
    match dec_u8(s, i) {
        Some((tag, j)) => if tag == 0 {
            match dec_bytes(s, j, 32) {
                Some((k, m)) => Some(
                    (
                        ClientHelloView {
                            crypt_hello: ClientCryptHelloView::SharedSecretChallenge(k),
                        },
                        m,
                    ),
                ),
                None => None,
            }
        } else if tag == 1 {
            match dec_bytes(s, j, 32) {
                Some((k, m)) => Some(
                    (ClientHelloView { crypt_hello: ClientCryptHelloView::X25519(k) }, m),
                ),
                None => None,
            }
        } else {
            None
        },
        None => None,
    }
}

pub open spec fn enc_exit_inner(inner: ExitHelloInnerView) -> Seq<u8> {
    match inner {
        ExitHelloInnerView::SharedSecretResponse(m) => seq![0u8] + m,
        ExitHelloInnerView::X25519(k) => seq![1u8] + k,
    }
}

pub open spec fn enc_exit_hello(h: ExitHelloView) -> Seq<u8> {
    enc_exit_inner(h.inner) + h.signature
}

pub open spec fn dec_exit_hello(s: Seq<u8>, i: int) -> Option<(ExitHelloView, int)> {
    match dec_u8(s, i) {
        Some((tag, j)) => if tag == 0 || tag == 1 {
            match dec_bytes(s, j, 32) {
                Some((k, m)) => match dec_bytes(s, m, 64) {
                    Some((sig, fin)) => Some(
                        (
                            ExitHelloView {
                                inner: if tag == 0 {
                                    ExitHelloInnerView::SharedSecretResponse(k)
                                } else {
                                    ExitHelloInnerView::X25519(k)
                                },
                                signature: sig,
                            },
                            fin,
                        ),
                    ),
                    None => None,
                },
                None => None,
            }
        } else {
            None
        },
        None => None,
    }
}

/// Decode-of-encode is the identity on client hellos.
pub proof fn lemma_client_hello_round_trip(h: ClientHelloView)
    requires
        h.wf(),
    ensures
        dec_client_hello(enc_client_hello(h), 0) == Some(
            (h, enc_client_hello(h).len() as int),
        ),
{
    let whole = enc_client_hello(h);
    match h.crypt_hello {
        ClientCryptHelloView::SharedSecretChallenge(k) => {
            assert(whole[0] == 0);
            assert(whole.subrange(1, 33) =~= k);
        },
        ClientCryptHelloView::X25519(k) => {
            assert(whole[0] == 1);
            assert(whole.subrange(1, 33) =~= k);
        },
    }
}

/// Decode-of-encode is the identity on exit hellos.
pub proof fn lemma_exit_hello_round_trip(h: ExitHelloView)
    requires
        h.wf(),
    ensures
        dec_exit_hello(enc_exit_hello(h), 0) == Some((h, enc_exit_hello(h).len() as int)),
{
    let whole = enc_exit_hello(h);
    match h.inner {
        ExitHelloInnerView::SharedSecretResponse(m) => {
            assert(whole[0] == 0);
            assert(whole.subrange(1, 33) =~= m);
            assert(whole.subrange(33, 97) =~= h.signature);
        },
        ExitHelloInnerView::X25519(k) => {
            assert(whole[0] == 1);
            assert(whole.subrange(1, 33) =~= k);
            assert(whole.subrange(33, 97) =~= h.signature);
        },
    }
}

impl ClientHello {
    pub fn encode(&self) -> (r: Vec<u8>)
        ensures
            r@ == enc_client_hello(self@),
    {
        let mut out: Vec<u8> = Vec::new();
        match &self.crypt_hello {
            ClientCryptHello::SharedSecretChallenge(k) => {
                push_u8(&mut out, 0);
                push_bytes(&mut out, k.as_slice());
            },
            ClientCryptHello::X25519(k) => {
                push_u8(&mut out, 1);
                push_bytes(&mut out, k.as_slice());
            },
        }
        assert(out@ =~= enc_client_hello(self@));
        out
    }

    pub fn decode(s: &[u8]) -> (r: Option<ClientHello>)
        ensures
            match r {
                Some(h) => dec_client_hello(s@, 0) matches Some((hv, _)) && hv == h@ && h@.wf(),
                None => dec_client_hello(s@, 0) is None,
            },
    {
        let (tag, j) = match read_u8(s, 0) {
            Some(x) => x,
            None => {
                return None;
            },
        };
        if tag > 1 {
            return None;
        }
        let (k, _) = match read_bytes(s, j, 32) {
            Some(x) => x,
            None => {
                return None;
            },
        };
        if tag == 0 {
            Some(ClientHello { crypt_hello: ClientCryptHello::SharedSecretChallenge(k) })
        } else {
            Some(ClientHello { crypt_hello: ClientCryptHello::X25519(k) })
        }
    }
}

impl ExitHello {
    pub fn encode(&self) -> (r: Vec<u8>)
        ensures
            r@ == enc_exit_hello(self@),
    {
        let mut out: Vec<u8> = Vec::new();
        match &self.inner {
            ExitHelloInner::SharedSecretResponse(m) => {
                push_u8(&mut out, 0);
                push_bytes(&mut out, m.as_slice());
            },
            ExitHelloInner::X25519(k) => {
                push_u8(&mut out, 1);
                push_bytes(&mut out, k.as_slice());
            },
        }
        push_bytes(&mut out, self.signature.as_slice());
        assert(out@ =~= enc_exit_hello(self@));
        out
    }

    pub fn decode(s: &[u8]) -> (r: Option<ExitHello>)
        ensures
            match r {
                Some(h) => dec_exit_hello(s@, 0) matches Some((hv, _)) && hv == h@ && h@.wf(),
                None => dec_exit_hello(s@, 0) is None,
            },
    {
        let (tag, j) = match read_u8(s, 0) {
            Some(x) => x,
            None => {
                return None;
            },
        };
        if tag > 1 {
            return None;
        }
        let (k, m) = match read_bytes(s, j, 32) {
            Some(x) => x,
            None => {
                return None;
            },
        };
        let (sig, _) = match read_bytes(s, m, 64) {
            Some(x) => x,
            None => {
                return None;
            },
        };
        let inner = if tag == 0 {
            ExitHelloInner::SharedSecretResponse(k)
        } else {
            ExitHelloInner::X25519(k)
        };
        Some(ExitHello { inner, signature: sig })
    }
}

// ---------------------------------------------------------------------------
// Session keys
// ---------------------------------------------------------------------------
/// The two directional 32-byte keys derived from a shared secret: `c2e`
/// carries client-to-exit bytes, `e2c` the reverse.
#[derive(Debug, PartialEq, Eq)]
pub struct SessionKeys {
    pub c2e: Vec<u8>,
    pub e2c: Vec<u8>,
}

pub ghost struct SessionKeysView {
    pub c2e: Seq<u8>,
    pub e2c: Seq<u8>,
}

impl View for SessionKeys {
    type V = SessionKeysView;

    open spec fn view(&self) -> SessionKeysView {
        SessionKeysView { c2e: self.c2e@, e2c: self.e2c@ }
    }
}

/// The directional keys a shared secret yields: each a keyed derivation
/// labeled with its direction.
pub open spec fn session_keys_of(shared: Seq<u8>) -> SessionKeysView {
    SessionKeysView {
        c2e: blake3_derive_of("c2e"@, shared),
        e2c: blake3_derive_of("e2c"@, shared),
    }
}

/// Derives both directional keys from a shared secret.
pub fn derive_session_keys(shared: &Vec<u8>) -> (r: SessionKeys)
    ensures
        r@ == session_keys_of(shared@),
{
    let c2e = blake3_derive_key("c2e", shared);
    let e2c = blake3_derive_key("e2c", shared);
    SessionKeys { c2e, e2c }
}

/// What the exit signs: the client's hello followed by the exit's inner
/// answer, binding the response to the request.
pub open spec fn exit_sig_msg(ch: ClientHelloView, inner: ExitHelloInnerView) -> Seq<u8> {
    enc_client_hello(ch) + enc_exit_inner(inner)
}

/// Why a handshake failed.
#[derive(Debug, PartialEq, Eq)]
pub enum HandshakeError {
    NoSharedSecret,
    BadSignature,
    BadMac,
    WrongReply,
}

// ---------------------------------------------------------------------------
// Exit side
// ---------------------------------------------------------------------------
/// The exit's whole response computation. For a shared-secret challenge it
/// answers with the keyed hash of the transport secret under the client's
/// challenge key (failing only when the transport has no secret); for an
/// x25519 offer it answers with its own ephemeral public key and derives the
/// directional session keys; either answer is signed over the client hello
/// and the answer together.
pub fn exit_respond(
    client_hello: &ClientHello,
    transport_secret: Option<&Vec<u8>>,
    ephemeral_sk: &Vec<u8>,
    signing_sk: &Vec<u8>,
) -> (r: Result<(ExitHello, Option<SessionKeys>), HandshakeError>)
    requires
        client_hello@.wf(),
        ephemeral_sk@.len() == 32,
        signing_sk@.len() == 32,
        transport_secret matches Some(ss) ==> ss@.len() == 32,
    ensures
        match r {
            Ok((hello, keys)) => {
                &&& hello@.wf()
                &&& hello@.signature == ed25519_sig_of(
                    signing_sk@,
                    exit_sig_msg(client_hello@, hello@.inner),
                )
                &&& ed25519_verifies(
                    ed25519_pub_of(signing_sk@),
                    exit_sig_msg(client_hello@, hello@.inner),
                    hello@.signature,
                )
                &&& match client_hello@.crypt_hello {
                    ClientCryptHelloView::SharedSecretChallenge(ck) => {
                        &&& transport_secret matches Some(ss) && hello@.inner
                            == ExitHelloInnerView::SharedSecretResponse(
                            blake3_keyed_of(ck, ss@),
                        )
                        &&& keys is None
                    },
                    ClientCryptHelloView::X25519(client_epk) => {
                        &&& hello@.inner == ExitHelloInnerView::X25519(
                            x25519_of(ephemeral_sk@, x25519_base()),
                        )
                        &&& keys matches Some(k) && k@ == session_keys_of(
                            x25519_of(ephemeral_sk@, client_epk),
                        )
                    },
                }
            },
            Err(e) => e is NoSharedSecret && (client_hello@.crypt_hello matches
                ClientCryptHelloView::SharedSecretChallenge(_)) && transport_secret is None,
        },
{
    let (inner, keys) = match &client_hello.crypt_hello {
        ClientCryptHello::SharedSecretChallenge(ck) => {
            let ss = match transport_secret {
                Some(ss) => ss,
                None => {
                    return Err(HandshakeError::NoSharedSecret);
                },
            };
            let mac = blake3_keyed_hash(ck, ss.as_slice());
            (ExitHelloInner::SharedSecretResponse(mac), None)
        },
        ClientCryptHello::X25519(client_epk) => {
            let my_epk = x25519_public(ephemeral_sk);
            let shared = x25519_apply(ephemeral_sk, client_epk);
            let keys = derive_session_keys(&shared);
            (ExitHelloInner::X25519(my_epk), Some(keys))
        },
    };
    let ch_bytes = client_hello.encode();
    let mut msg = ch_bytes;
    let inner_for_hello = inner.clone_inner();
    let inner_bytes = match &inner {
        ExitHelloInner::SharedSecretResponse(m) => {
            let mut b: Vec<u8> = Vec::new();
            push_u8(&mut b, 0);
            push_bytes(&mut b, m.as_slice());
            b
        },
        ExitHelloInner::X25519(k) => {
            let mut b: Vec<u8> = Vec::new();
            push_u8(&mut b, 1);
            push_bytes(&mut b, k.as_slice());
            b
        },
    };
    assert(inner_bytes@ =~= enc_exit_inner(inner@));
    push_bytes(&mut msg, inner_bytes.as_slice());
    assert(msg@ =~= exit_sig_msg(client_hello@, inner@));
    let signature = ed25519_sign(signing_sk, &msg);
    Ok((ExitHello { inner: inner_for_hello, signature }, keys))
}

// ---------------------------------------------------------------------------
// Client side
// ---------------------------------------------------------------------------
/// Opens the handshake: with a transport shared secret in hand the client
/// sends a fresh 32-byte challenge key; without one it offers the public key
/// of the returned ephemeral secret.
pub fn client_start(has_transport_secret: bool) -> (r: (ClientHello, Vec<u8>))
    ensures
        r.0@.wf(),
        r.1@.len() == 32,
        has_transport_secret ==> (r.0@.crypt_hello matches
            ClientCryptHelloView::SharedSecretChallenge(ck) && ck == r.1@),
        !has_transport_secret ==> r.0@.crypt_hello == ClientCryptHelloView::X25519(
            x25519_of(r.1@, x25519_base()),
        ),
{
    let secret = random_bytes32();
    if has_transport_secret {
        let ck = clone_byte_vec(&secret);
        (ClientHello { crypt_hello: ClientCryptHello::SharedSecretChallenge(ck) }, secret)
    } else {
        let epk = x25519_public(&secret);
        (ClientHello { crypt_hello: ClientCryptHello::X25519(epk) }, secret)
    }
}

/// The client's verification of the exit's answer. The signature over the
/// two hellos must verify under the exit's signing key from the selector;
/// a shared-secret response must equal the keyed hash of the transport
/// secret under the challenge key; an x25519 reply yields the directional
/// session keys. Each error names exactly the check that failed.
pub fn client_finish(
    client_hello: &ClientHello,
    client_secret: &Vec<u8>,
    exit_hello: &ExitHello,
    exit_vk: &Vec<u8>,
    transport_secret: Option<&Vec<u8>>,
) -> (r: Result<Option<SessionKeys>, HandshakeError>)
    requires
        client_hello@.wf(),
        exit_hello@.wf(),
        client_secret@.len() == 32,
        exit_vk@.len() == 32,
        transport_secret matches Some(ss) ==> ss@.len() == 32,
        client_hello@.crypt_hello is SharedSecretChallenge ==> transport_secret is Some,
    ensures
        match r {
            Ok(keys) => {
                &&& ed25519_verifies(
                    exit_vk@,
                    exit_sig_msg(client_hello@, exit_hello@.inner),
                    exit_hello@.signature,
                )
                &&& match (client_hello@.crypt_hello, exit_hello@.inner) {
                    (
                        ClientCryptHelloView::SharedSecretChallenge(ck),
                        ExitHelloInnerView::SharedSecretResponse(mac),
                    ) => transport_secret matches Some(ss) && mac == blake3_keyed_of(ck, ss@)
                        && keys is None,
                    (
                        ClientCryptHelloView::X25519(_),
                        ExitHelloInnerView::X25519(exit_epk),
                    ) => keys matches Some(k) && k@ == session_keys_of(
                        x25519_of(client_secret@, exit_epk),
                    ) && (forall|other: Seq<u8>|
                        exit_epk == x25519_of(other, x25519_base()) ==> k@ == session_keys_of(
                            x25519_of(other, x25519_of(client_secret@, x25519_base())),
                        )),
                    _ => false,
                }
            },
            Err(e) => match e {
                HandshakeError::BadSignature => !ed25519_verifies(
                    exit_vk@,
                    exit_sig_msg(client_hello@, exit_hello@.inner),
                    exit_hello@.signature,
                ),
                HandshakeError::BadMac => (client_hello@.crypt_hello matches
                    ClientCryptHelloView::SharedSecretChallenge(ck) && exit_hello@.inner matches
                    ExitHelloInnerView::SharedSecretResponse(mac) && transport_secret matches
                    Some(ss) && mac != blake3_keyed_of(ck, ss@)),
                HandshakeError::WrongReply => match (
                    client_hello@.crypt_hello,
                    exit_hello@.inner,
                ) {
                    (
                        ClientCryptHelloView::SharedSecretChallenge(_),
                        ExitHelloInnerView::X25519(_),
                    ) => true,
                    (
                        ClientCryptHelloView::X25519(_),
                        ExitHelloInnerView::SharedSecretResponse(_),
                    ) => true,
                    _ => false,
                },
                HandshakeError::NoSharedSecret => false,
            },
        },
{
    let ch_bytes = client_hello.encode();
    let mut msg = ch_bytes;
    let inner_bytes = match &exit_hello.inner {
        ExitHelloInner::SharedSecretResponse(m) => {
            let mut b: Vec<u8> = Vec::new();
            push_u8(&mut b, 0);
            push_bytes(&mut b, m.as_slice());
            b
        },
        ExitHelloInner::X25519(k) => {
            let mut b: Vec<u8> = Vec::new();
            push_u8(&mut b, 1);
            push_bytes(&mut b, k.as_slice());
            b
        },
    };
    assert(inner_bytes@ =~= enc_exit_inner(exit_hello@.inner));
    push_bytes(&mut msg, inner_bytes.as_slice());
    assert(msg@ =~= exit_sig_msg(client_hello@, exit_hello@.inner));
    if !ed25519_verify(exit_vk, &msg, &exit_hello.signature) {
        return Err(HandshakeError::BadSignature);
    }
    match (&client_hello.crypt_hello, &exit_hello.inner) {
        (ClientCryptHello::SharedSecretChallenge(ck), ExitHelloInner::SharedSecretResponse(mac)) => {
            let ss = match transport_secret {
                Some(ss) => ss,
                None => {
                    return Err(HandshakeError::NoSharedSecret);
                },
            };
            let expect = blake3_keyed_hash(ck, ss.as_slice());
            if byte_vecs_equal(mac.as_slice(), expect.as_slice()) {
                Ok(None)
            } else {
                Err(HandshakeError::BadMac)
            }
        },
        (ClientCryptHello::X25519(_), ExitHelloInner::X25519(exit_epk)) => {
            let shared = x25519_apply(client_secret, exit_epk);
            let keys = derive_session_keys(&shared);
            Ok(Some(keys))
        },
        _ => Err(HandshakeError::WrongReply),
    }
}

/// Mutual key agreement on the x25519 path: when the exit derives its keys
/// from its own ephemeral secret and the client's honest public key, and the
/// client accepts an exit hello carrying the exit's honest public key, both
/// sides hold identical `c2e` and identical `e2c` keys. The hypotheses are
/// exactly what `exit_respond` and `client_finish` guarantee.
pub proof fn lemma_handshake_key_agreement(
    client_sk: Seq<u8>,
    exit_sk: Seq<u8>,
    client_keys: SessionKeysView,
    exit_keys: SessionKeysView,
)
    requires
        exit_keys == session_keys_of(x25519_of(exit_sk, x25519_of(client_sk, x25519_base()))),
        forall|other: Seq<u8>|
            x25519_of(exit_sk, x25519_base()) == x25519_of(other, x25519_base()) ==> client_keys
                == session_keys_of(x25519_of(other, x25519_of(client_sk, x25519_base()))),
    ensures
        client_keys == exit_keys,
        client_keys.c2e == exit_keys.c2e,
        client_keys.e2c == exit_keys.e2c,
{
    assert(client_keys == session_keys_of(
        x25519_of(exit_sk, x25519_of(client_sk, x25519_base())),
    ));
}

} // verus!
