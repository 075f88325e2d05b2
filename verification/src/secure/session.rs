//! Secure-channel sessions, one type per handshake state.

use vstd::prelude::*;

use crate::bytes::bytes_equal;
use crate::command::SCrypt;
use crate::error::{Error, SecureSessionError};
use crate::reply::{CCrypt, CCryptView, RMacI};
use crate::secure::cipher;
use crate::secure::cipher::{
    cbc_decrypt_blocks, cbc_encrypt_blocks, complement_block, encipher, message_mac_of, pad_bytes,
    unpad_bytes,
};

verus! {

/// Source of the random challenges, supplied by the application.
pub trait SecureRandom {
    /// Everything drawn so far, oldest first. Only a verified implementation has to say it.
    open spec fn draws(&self) -> Seq<Result<Seq<u8>, Error>> {
        arbitrary()
    }

    /// Fill `out` with random bytes.
    fn fill_secure_random(&mut self, out: &mut [u8]) -> (r: Result<(), Error>)
        ensures
            final(out)@.len() == old(out)@.len(),
            final(self).draws() == old(self).draws().push(
                match r {
                    Ok(_) => Ok(final(out)@),
                    Err(e) => Err(e),
                },
            ),
    ;
}

/// The key that PDs ship with, for installation.
pub const SCBK_D: [u8; 16] = [
    0x30, 0x31, 0x32, 0x33, 0x34, 0x35, 0x36, 0x37, 0x38, 0x39, 0x3a, 0x3b, 0x3c, 0x3d, 0x3e, 0x3f,
];

/// The three keys of one session.
#[verifier::ext_equal]
pub struct KeysView {
    /// Encrypts DATA and the cryptograms.
    pub s_enc: Seq<u8>,
    /// MAC key of all blocks but the last.
    pub s_mac1: Seq<u8>,
    /// MAC key of the last block.
    pub s_mac2: Seq<u8>,
}

/// Session key with the two-byte tag `0x01 tag`: the tag, six bytes of the ACU's
/// challenge and zeros, encrypted under the base key.
pub open spec fn derive_key(scbk: Seq<u8>, tag: u8, rnd_a: Seq<u8>) -> Seq<u8> {
    cipher::cipher(scbk, seq![0x01, tag] + rnd_a.take(6) + cipher::zeros(8))
}

/// The session keys of a handshake.
pub open spec fn derive_keys(scbk: Seq<u8>, rnd_a: Seq<u8>) -> KeysView {
    KeysView {
        s_enc: derive_key(scbk, 0x82, rnd_a),
        s_mac1: derive_key(scbk, 0x01, rnd_a),
        s_mac2: derive_key(scbk, 0x02, rnd_a),
    }
}

/// Cryptogram by which the PD shows that it has the key.
pub open spec fn client_cryptogram(keys: KeysView, rnd_a: Seq<u8>, rnd_b: Seq<u8>) -> Seq<u8> {
    cipher::cipher(keys.s_enc, rnd_a + rnd_b)
}

/// Cryptogram by which the ACU shows that it has the key.
pub open spec fn server_cryptogram(keys: KeysView, rnd_a: Seq<u8>, rnd_b: Seq<u8>) -> Seq<u8> {
    cipher::cipher(keys.s_enc, rnd_b + rnd_a)
}

/// R-MAC that the first secured command chains on.
pub open spec fn initial_rmac(keys: KeysView, rnd_a: Seq<u8>, rnd_b: Seq<u8>) -> Seq<u8> {
    cipher::cipher(
        keys.s_mac2,
        cipher::cipher(keys.s_mac1, server_cryptogram(keys, rnd_a, rnd_b)),
    )
}

/// Session keys.
#[derive(Debug, Clone, Copy)]
struct SessionKeys {
    s_enc: [u8; 16],
    s_mac1: [u8; 16],
    s_mac2: [u8; 16],
}

impl SessionKeys {
    spec fn spec_view(self) -> KeysView {
        KeysView { s_enc: self.s_enc@, s_mac1: self.s_mac1@, s_mac2: self.s_mac2@ }
    }
}

/// Join two challenges.
fn join(a: &[u8; 8], b: &[u8; 8]) -> (r: [u8; 16])
    ensures
        r@ == a@ + b@,
{
    let mut r: [u8; 16] = [0u8; 16];
    let mut i: usize = 0;
    while i < 8
        invariant
            i <= 8,
            forall|j: int| 0 <= j < i ==> r@[j] == a@[j] && r@[8 + j] == b@[j],
        decreases 8 - i,
    {
        r[i] = a[i];
        r[8 + i] = b[i];
        i = i + 1;
    }
    assert(r@ =~= a@ + b@);
    r
}

/// Derive one session key.
fn session_key(scbk: &[u8; 16], tag: u8, rnd_a: &[u8; 8]) -> (k: [u8; 16])
    ensures
        k@ == derive_key(scbk@, tag, rnd_a@),
{
    let block: [u8; 16] = [
        0x01,
        tag,
        rnd_a[0],
        rnd_a[1],
        rnd_a[2],
        rnd_a[3],
        rnd_a[4],
        rnd_a[5],
        0,
        0,
        0,
        0,
        0,
        0,
        0,
        0,
    ];
    assert(block@ =~= seq![0x01, tag] + rnd_a@.take(6) + cipher::zeros(8));
    encipher(scbk, &block)
}

/// Derive all session keys.
fn session_keys(scbk: &[u8; 16], rnd_a: &[u8; 8]) -> (k: SessionKeys)
    ensures
        k.spec_view() == derive_keys(scbk@, rnd_a@),
{
    SessionKeys {
        s_enc: session_key(scbk, 0x82, rnd_a),
        s_mac1: session_key(scbk, 0x01, rnd_a),
        s_mac2: session_key(scbk, 0x02, rnd_a),
    }
}

/// Compute the initial R-MAC.
fn first_rmac(keys: &SessionKeys, rnd_a: &[u8; 8], rnd_b: &[u8; 8]) -> (m: [u8; 16])
    ensures
        m@ == initial_rmac(keys.spec_view(), rnd_a@, rnd_b@),
{
    let server = encipher(&keys.s_enc, &join(rnd_b, rnd_a));
    encipher(&keys.s_mac2, &encipher(&keys.s_mac1, &server))
}

/// Session in handshake state `S`.
#[derive(Debug, Clone)]
pub struct Session<S> {
    scbk: [u8; 16],
    state: S,
}

/// No handshake is under way.
#[derive(Debug, Clone, Copy)]
pub struct Disconnected;

/// ACU: the challenge is out.
#[derive(Debug, Clone, Copy)]
pub struct Challenged {
    rnd_a: [u8; 8],
}

/// ACU: the PD's cryptogram was right.
#[derive(Debug, Clone, Copy)]
pub struct Cryptogrammed {
    rnd_a: [u8; 8],
    rnd_b: [u8; 8],
}

/// PD: the challenge was taken up.
#[derive(Debug, Clone, Copy)]
pub struct PdChallenged {
    rnd_a: [u8; 8],
    rnd_b: [u8; 8],
    cuid: [u8; 8],
}

/// Handshake complete.
#[derive(Debug, Clone, Copy)]
pub struct Secure {
    keys: SessionKeys,
    c_mac: [u8; 16],
    r_mac: [u8; 16],
}

/// Contents of a [`Session<Challenged>`].
#[verifier::ext_equal]
pub struct ChallengedView {
    /// Base key.
    pub scbk: Seq<u8>,
    /// Challenge of the ACU.
    pub rnd_a: Seq<u8>,
}

/// Contents of a [`Session<Cryptogrammed>`].
#[verifier::ext_equal]
pub struct CryptogrammedView {
    /// Base key.
    pub scbk: Seq<u8>,
    /// Challenge of the ACU.
    pub rnd_a: Seq<u8>,
    /// Challenge of the PD.
    pub rnd_b: Seq<u8>,
}

/// Contents of a [`Session<PdChallenged>`].
#[verifier::ext_equal]
pub struct PdChallengedView {
    /// Base key.
    pub scbk: Seq<u8>,
    /// Challenge of the ACU.
    pub rnd_a: Seq<u8>,
    /// Challenge of the PD.
    pub rnd_b: Seq<u8>,
    /// Client identifier of the PD.
    pub cuid: Seq<u8>,
}

/// Contents of a [`Session<Secure>`].
#[verifier::ext_equal]
pub struct SecureView {
    /// Base key.
    pub scbk: Seq<u8>,
    /// Session keys.
    pub keys: KeysView,
    /// MAC of the last command.
    pub c_mac: Seq<u8>,
    /// MAC of the last reply.
    pub r_mac: Seq<u8>,
}

impl SecureView {
    /// Every part is one block.
    pub open spec fn well_formed(self) -> bool {
        &&& self.scbk.len() == 16
        &&& self.keys.s_enc.len() == 16
        &&& self.keys.s_mac1.len() == 16
        &&& self.keys.s_mac2.len() == 16
        &&& self.c_mac.len() == 16
        &&& self.r_mac.len() == 16
    }
}

/// The session that a completed handshake leaves on both sides.
pub open spec fn established(scbk: Seq<u8>, rnd_a: Seq<u8>, rnd_b: Seq<u8>) -> SecureView {
    let keys = derive_keys(scbk, rnd_a);
    SecureView {
        scbk,
        keys,
        c_mac: cipher::zeros(16),
        r_mac: initial_rmac(keys, rnd_a, rnd_b),
    }
}

/// What `osdp_CCRYPT` says when the PD has taken up the challenge.
pub open spec fn ccrypt_of(s: PdChallengedView) -> CCryptView {
    CCryptView {
        cuid: s.cuid,
        rnd_b: s.rnd_b,
        client_cryptogram: client_cryptogram(derive_keys(s.scbk, s.rnd_a), s.rnd_a, s.rnd_b),
    }
}

/// ACU: judge the PD's cryptogram.
pub open spec fn accept_ccrypt(s: ChallengedView, c: CCryptView) -> Result<
    CryptogrammedView,
    SecureSessionError,
> {
    if c.client_cryptogram == client_cryptogram(derive_keys(s.scbk, s.rnd_a), s.rnd_a, c.rnd_b) {
        Ok(CryptogrammedView { scbk: s.scbk, rnd_a: s.rnd_a, rnd_b: c.rnd_b })
    } else {
        Err(SecureSessionError::BadCryptogram)
    }
}

/// PD: judge the ACU's cryptogram. Where it is right, the session stands and the initial
/// R-MAC goes out.
pub open spec fn accept_scrypt(s: PdChallengedView, cryptogram: Seq<u8>) -> Result<
    (SecureView, Seq<u8>),
    SecureSessionError,
> {
    let keys = derive_keys(s.scbk, s.rnd_a);
    if cryptogram == server_cryptogram(keys, s.rnd_a, s.rnd_b) {
        Ok((established(s.scbk, s.rnd_a, s.rnd_b), initial_rmac(keys, s.rnd_a, s.rnd_b)))
    } else {
        Err(SecureSessionError::BadCryptogram)
    }
}

/// ACU: judge the initial R-MAC.
pub open spec fn accept_rmac_i(s: CryptogrammedView, rmac: Seq<u8>) -> Result<
    SecureView,
    SecureSessionError,
> {
    if rmac == initial_rmac(derive_keys(s.scbk, s.rnd_a), s.rnd_a, s.rnd_b) {
        Ok(established(s.scbk, s.rnd_a, s.rnd_b))
    } else {
        Err(SecureSessionError::BadMac)
    }
}

/// Two ends that hold the same base key complete the handshake: the ACU accepts the PD's
/// cryptogram, the PD accepts the ACU's, the ACU accepts the initial R-MAC, and both are
/// left with the same session.
pub proof fn law_handshake_agrees(
    scbk: Seq<u8>,
    rnd_a: Seq<u8>,
    rnd_b: Seq<u8>,
    cuid: Seq<u8>,
)
    ensures
        ({
            let pd = PdChallengedView { scbk, rnd_a, rnd_b, cuid };
            let acu = accept_ccrypt(ChallengedView { scbk, rnd_a }, ccrypt_of(pd));
            let proof_of_acu = server_cryptogram(derive_keys(scbk, rnd_a), rnd_a, rnd_b);
            let answer = accept_scrypt(pd, proof_of_acu);
            &&& acu is Ok
            &&& answer is Ok
            &&& accept_rmac_i(acu->Ok_0, answer->Ok_0.1) == Ok::<SecureView, SecureSessionError>(
                answer->Ok_0.0,
            )
            &&& answer->Ok_0.0 == established(scbk, rnd_a, rnd_b)
        }),
{
}

impl View for Session<Disconnected> {
    type V = Seq<u8>;

    closed spec fn view(&self) -> Seq<u8> {
        self.scbk@
    }
}

impl View for Session<Challenged> {
    type V = ChallengedView;

    closed spec fn view(&self) -> ChallengedView {
        ChallengedView { scbk: self.scbk@, rnd_a: self.state.rnd_a@ }
    }
}

impl View for Session<Cryptogrammed> {
    type V = CryptogrammedView;

    closed spec fn view(&self) -> CryptogrammedView {
        CryptogrammedView {
            scbk: self.scbk@,
            rnd_a: self.state.rnd_a@,
            rnd_b: self.state.rnd_b@,
        }
    }
}

impl View for Session<PdChallenged> {
    type V = PdChallengedView;

    closed spec fn view(&self) -> PdChallengedView {
        PdChallengedView {
            scbk: self.scbk@,
            rnd_a: self.state.rnd_a@,
            rnd_b: self.state.rnd_b@,
            cuid: self.state.cuid@,
        }
    }
}

impl View for Session<Secure> {
    type V = SecureView;

    closed spec fn view(&self) -> SecureView {
        SecureView {
            scbk: self.scbk@,
            keys: self.state.keys.spec_view(),
            c_mac: self.state.c_mac@,
            r_mac: self.state.r_mac@,
        }
    }
}

impl Session<Disconnected> {
    /// Session over the base key `scbk`.
    pub fn new(scbk: [u8; 16]) -> (s: Session<Disconnected>)
        ensures
            s@ == scbk@,
    {
        Session { scbk, state: Disconnected }
    }

    /// ACU: send out the challenge `rnd_a`.
    pub fn challenge(self, rnd_a: [u8; 8]) -> (s: Session<Challenged>)
        ensures
            s@ == (ChallengedView { scbk: self@, rnd_a: rnd_a@ }),
    {
        Session { scbk: self.scbk, state: Challenged { rnd_a } }
    }

    /// PD: take up the challenge `rnd_a` with the counter-challenge `rnd_b`.
    pub fn receive_challenge(self, rnd_a: [u8; 8], cuid: [u8; 8], rnd_b: [u8; 8]) -> (s: Session<
        PdChallenged,
    >)
        ensures
            s@ == (PdChallengedView { scbk: self@, rnd_a: rnd_a@, rnd_b: rnd_b@, cuid: cuid@ }),
    {
        Session { scbk: self.scbk, state: PdChallenged { rnd_a, rnd_b, cuid } }
    }
}

impl Session<Challenged> {
    /// Judge the PD's cryptogram. A wrong one leaves the session disconnected.
    pub fn receive_ccrypt(self, ccrypt: &CCrypt) -> (r: Result<
        Session<Cryptogrammed>,
        (Session<Disconnected>, SecureSessionError),
    >)
        ensures
            match accept_ccrypt(self@, ccrypt@) {
                Ok(v) => r is Ok && r->Ok_0@ == v,
                Err(e) => r is Err && r->Err_0.1 == e && r->Err_0.0@ == self@.scbk,
            },
    {
        let keys = session_keys(&self.scbk, &self.state.rnd_a);
        let expected = encipher(&keys.s_enc, &join(&self.state.rnd_a, &ccrypt.rnd_b));
        if bytes_equal(expected.as_slice(), ccrypt.client_cryptogram.as_slice()) {
            Ok(
                Session {
                    scbk: self.scbk,
                    state: Cryptogrammed { rnd_a: self.state.rnd_a, rnd_b: ccrypt.rnd_b },
                },
            )
        } else {
            Err((Session::new(self.scbk), SecureSessionError::BadCryptogram))
        }
    }
}

impl Session<Cryptogrammed> {
    /// The session keys of this handshake.
    fn keys(&self) -> (k: SessionKeys)
        ensures
            k.spec_view() == derive_keys(self@.scbk, self@.rnd_a),
    {
        session_keys(&self.scbk, &self.state.rnd_a)
    }

    /// The cryptogram to send in `osdp_SCRYPT`.
    pub fn server_cryptogram(&self) -> (c: [u8; 16])
        ensures
            c@ == server_cryptogram(
                derive_keys(self@.scbk, self@.rnd_a),
                self@.rnd_a,
                self@.rnd_b,
            ),
    {
        encipher(&self.keys().s_enc, &join(&self.state.rnd_b, &self.state.rnd_a))
    }

    /// The R-MAC that the PD has to answer with.
    pub fn initial_rmac(&self) -> (m: [u8; 16])
        ensures
            m@ == initial_rmac(derive_keys(self@.scbk, self@.rnd_a), self@.rnd_a, self@.rnd_b),
    {
        first_rmac(&self.keys(), &self.state.rnd_a, &self.state.rnd_b)
    }

    /// Judge the initial R-MAC. A wrong one leaves the session disconnected.
    pub fn confirm_rmac_i(self, r_mac_i: &[u8; 16]) -> (r: Result<
        Session<Secure>,
        (Session<Disconnected>, SecureSessionError),
    >)
        ensures
            match accept_rmac_i(self@, r_mac_i@) {
                Ok(v) => r is Ok && r->Ok_0@ == v,
                Err(e) => r is Err && r->Err_0.1 == e && r->Err_0.0@ == self@.scbk,
            },
    {
        let expected = self.initial_rmac();
        if bytes_equal(expected.as_slice(), r_mac_i.as_slice()) {
            let c_mac: [u8; 16] = [0u8; 16];
            assert(c_mac@ =~= cipher::zeros(16));
            Ok(
                Session {
                    scbk: self.scbk,
                    state: Secure { keys: self.keys(), c_mac, r_mac: expected },
                },
            )
        } else {
            Err((Session::new(self.scbk), SecureSessionError::BadMac))
        }
    }
}

impl Session<PdChallenged> {
    /// The session keys of this handshake.
    fn keys(&self) -> (k: SessionKeys)
        ensures
            k.spec_view() == derive_keys(self@.scbk, self@.rnd_a),
    {
        session_keys(&self.scbk, &self.state.rnd_a)
    }

    /// The `osdp_CCRYPT` to answer with.
    pub fn ccrypt(&self) -> (c: CCrypt)
        ensures
            c@ == ccrypt_of(self@),
    {
        CCrypt {
            cuid: self.state.cuid,
            rnd_b: self.state.rnd_b,
            client_cryptogram: encipher(
                &self.keys().s_enc,
                &join(&self.state.rnd_a, &self.state.rnd_b),
            ),
        }
    }

    /// Judge the ACU's cryptogram. A wrong one leaves the session disconnected.
    pub fn receive_scrypt(self, scrypt: &SCrypt) -> (r: Result<
        (Session<Secure>, RMacI),
        (Session<Disconnected>, SecureSessionError),
    >)
        ensures
            match accept_scrypt(self@, scrypt.server_cryptogram@) {
                Ok((v, m)) => r is Ok && r->Ok_0.0@ == v && r->Ok_0.1.r_mac_i@ == m,
                Err(e) => r is Err && r->Err_0.1 == e && r->Err_0.0@ == self@.scbk,
            },
    {
        let keys = self.keys();
        let expected = encipher(&keys.s_enc, &join(&self.state.rnd_b, &self.state.rnd_a));
        if bytes_equal(expected.as_slice(), scrypt.server_cryptogram.as_slice()) {
            let r_mac = first_rmac(&keys, &self.state.rnd_a, &self.state.rnd_b);
            let c_mac: [u8; 16] = [0u8; 16];
            assert(c_mac@ =~= cipher::zeros(16));
            Ok(
                (
                    Session {
                        scbk: self.scbk,
                        state: Secure { keys, c_mac, r_mac },
                    },
                    RMacI { r_mac_i: r_mac },
                ),
            )
        } else {
            Err((Session::new(self.scbk), SecureSessionError::BadCryptogram))
        }
    }

    /// Give the handshake up.
    pub fn reset(self) -> (s: Session<Disconnected>)
        ensures
            s@ == self@.scbk,
    {
        Session::new(self.scbk)
    }
}

impl Session<Secure> {
    /// Every part of a session is one block.
    pub(crate) proof fn lemma_well_formed(&self)
        ensures
            self@.well_formed(),
    {
    }

    /// MAC of the last command.
    pub(crate) fn c_mac(&self) -> (m: [u8; 16])
        ensures
            m@ == self@.c_mac,
    {
        self.state.c_mac
    }

    /// MAC of the last reply.
    pub(crate) fn r_mac(&self) -> (m: [u8; 16])
        ensures
            m@ == self@.r_mac,
    {
        self.state.r_mac
    }

    /// Remember the MAC of a command.
    pub(crate) fn set_c_mac(&mut self, m: [u8; 16])
        ensures
            final(self)@ == (SecureView { c_mac: m@, ..old(self)@ }),
    {
        self.state.c_mac = m;
    }

    /// Remember the MAC of a reply.
    pub(crate) fn set_r_mac(&mut self, m: [u8; 16])
        ensures
            final(self)@ == (SecureView { r_mac: m@, ..old(self)@ }),
    {
        self.state.r_mac = m;
    }

    /// MAC of a message that chains on `icv`.
    pub(crate) fn mac(&self, icv: &[u8; 16], message: &[u8]) -> (m: [u8; 16])
        requires
            message@.len() > 0,
        ensures
            m@ == cipher::message_mac(self@.keys.s_mac1, self@.keys.s_mac2, icv@, message@),
    {
        message_mac_of(&self.state.keys.s_mac1, &self.state.keys.s_mac2, icv, message)
    }

    /// Encrypt DATA of a message that chains on `icv`.
    pub(crate) fn encrypt(&self, icv: &[u8; 16], data: &[u8]) -> (r: Vec<u8>)
        ensures
            r@ == cipher::cbc_encrypt(
                self@.keys.s_enc,
                cipher::complement(icv@),
                cipher::pad(data@),
            ),
            cipher::cbc_decrypt(self@.keys.s_enc, cipher::complement(icv@), r@) == cipher::pad(
                data@,
            ),
    {
        proof {
            cipher::law_padding_round_trip(data@);
        }
        cbc_encrypt_blocks(
            &self.state.keys.s_enc,
            &complement_block(icv),
            pad_bytes(data).as_slice(),
        )
    }

    /// Decrypt DATA of a message that chains on `icv`. There is no plaintext where the
    /// padding is unsound.
    pub(crate) fn decrypt(&self, icv: &[u8; 16], data: &[u8]) -> (r: Option<Vec<u8>>)
        requires
            data@.len() % 16 == 0,
        ensures
            match r {
                Some(v) => Some(v@),
                None => None,
            } == cipher::unpad(
                cipher::cbc_decrypt(self@.keys.s_enc, cipher::complement(icv@), data@),
            ),
    {
        unpad_bytes(cbc_decrypt_blocks(&self.state.keys.s_enc, &complement_block(icv), data))
    }

    /// Give the session up.
    pub fn reset(self) -> (s: Session<Disconnected>)
        ensures
            s@ == self@.scbk,
    {
        Session::new(self.scbk)
    }
}

/// The session keys: each is the encryption, under the base key, of the byte 1, the key's own
/// tag, the first six bytes of the ACU's challenge and eight zeros.
pub proof fn law_session_keys(scbk: Seq<u8>, a: Seq<u8>)
    requires
        a.len() == 8,
    ensures
        ({
            let keys = derive_keys(scbk, a);
            let end = seq![a[0], a[1], a[2], a[3], a[4], a[5], 0, 0, 0, 0, 0, 0, 0, 0];
            &&& keys.s_enc == cipher::cipher(scbk, seq![0x01, 0x82] + end)
            &&& keys.s_mac1 == cipher::cipher(scbk, seq![0x01, 0x01] + end)
            &&& keys.s_mac2 == cipher::cipher(scbk, seq![0x01, 0x02] + end)
        }),
{
    let end = seq![a[0], a[1], a[2], a[3], a[4], a[5], 0, 0, 0, 0, 0, 0, 0, 0];
    assert(seq![0x01, 0x82] + a.take(6) + cipher::zeros(8) =~= seq![0x01, 0x82] + end);
    assert(seq![0x01, 0x01] + a.take(6) + cipher::zeros(8) =~= seq![0x01, 0x01] + end);
    assert(seq![0x01, 0x02] + a.take(6) + cipher::zeros(8) =~= seq![0x01, 0x02] + end);
}

/// Each end takes one proof alone: the PD's cryptogram is both challenges, the ACU's first,
/// encrypted under the session's encryption key; the ACU's cryptogram has the PD's first; and
/// the initial R-MAC is the ACU's cryptogram, encrypted under the first MAC key and then under
/// the second. Anything else is refused, however close. What the handshake has agreed on so
/// far is carried on unchanged.
pub proof fn law_handshake_proofs_are_exact(
    scbk: Seq<u8>,
    rnd_a: Seq<u8>,
    c: CCryptView,
    cuid: Seq<u8>,
    shown: Seq<u8>,
)
    ensures
        ({
            let keys = derive_keys(scbk, rnd_a);
            let of_pd = cipher::cipher(keys.s_enc, rnd_a + c.rnd_b);
            let of_acu = cipher::cipher(keys.s_enc, c.rnd_b + rnd_a);
            let rmac = cipher::cipher(keys.s_mac2, cipher::cipher(keys.s_mac1, of_acu));
            let pd = PdChallengedView { scbk, rnd_a, rnd_b: c.rnd_b, cuid };
            &&& server_cryptogram(keys, rnd_a, c.rnd_b) == of_acu
            &&& ccrypt_of(pd).cuid == cuid
            &&& ccrypt_of(pd).rnd_b == c.rnd_b
            &&& ccrypt_of(pd).client_cryptogram == of_pd
            &&& match accept_ccrypt(ChallengedView { scbk, rnd_a }, c) {
                Ok(next) => {
                    &&& c.client_cryptogram == of_pd
                    &&& next.scbk == scbk
                    &&& next.rnd_a == rnd_a
                    &&& next.rnd_b == c.rnd_b
                },
                Err(e) => c.client_cryptogram != of_pd && e is BadCryptogram,
            }
            &&& match accept_scrypt(pd, shown) {
                Ok((s, m)) => {
                    &&& shown == of_acu
                    &&& m == rmac
                    &&& is_new(s, scbk, keys, rmac)
                },
                Err(e) => shown != of_acu && e is BadCryptogram,
            }
            &&& match accept_rmac_i(CryptogrammedView { scbk, rnd_a, rnd_b: c.rnd_b }, shown) {
                Ok(s) => shown == rmac && is_new(s, scbk, keys, rmac),
                Err(e) => shown != rmac && e is BadMac,
            }
        }),
{
}

/// A session in which nothing has been said yet: no command has been, so the MAC of the last
/// one is all zeros, and `rmac` stands for the MAC of the last reply.
pub open spec fn is_new(s: SecureView, scbk: Seq<u8>, keys: KeysView, rmac: Seq<u8>) -> bool {
    &&& s.scbk == scbk
    &&& s.keys == keys
    &&& s.r_mac == rmac
    &&& s.c_mac.len() == 16
    &&& forall|i: int| 0 <= i < 16 ==> s.c_mac[i] == 0
}

} // verus!
