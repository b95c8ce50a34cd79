//! A certificate: a chain of trusts that starts with a self-signed root trust.

use crate::base58::{
    ascii_chars,
    ascii_string,
    base58_text,
    is_alphanumeric,
    shown,
    to_base58,
};
use crate::bytes::append_bytes;
use crate::text::{
    decimal_text,
    is_digit,
    is_line,
    lemma_alphanumeric_is_line,
    lemma_decimal_text,
    lemma_lines_push,
    lines_of,
    split_lines,
    NEWLINE,
};
use crate::trust::{lemma_trust_text_ascii, trust_of_texts, trust_text};
use vstd::string::StringSliceAdditionalSpecFns;
use crate::keypair::key_pair::KeyPair;
use crate::keypair::public_key::PublicKey;
use crate::model::issuer_in_cert;
use crate::trust::{
    lemma_trust_round_trip,
    trust_decoding,
    trust_encodable,
    trust_encoding,
    trust_failure_of,
    trust_metadata,
    trust_valid,
    Trust,
    TrustDecodeFailure,
    TrustError,
    TrustView,
};
use vstd::prelude::*;
use vstd::slice::slice_subrange;

verus! {

/// Number of bytes of the format at the head of an encoded certificate.
pub const FORMAT_LEN: usize = 2;

/// Number of bytes of the version after the format.
pub const VERSION_LEN: usize = 4;

/// Number of bytes of the number of trusts after the version.
pub const TRUST_NUMBER_LEN: usize = 1;

/// Chain of trusts started from a self-signed root trust.
#[derive(Debug)]
pub struct Certificate {
    pub chain: Vec<Trust>,
}

/// The trusts of a chain as plain values.
pub open spec fn trust_views(chain: Seq<Trust>) -> Seq<TrustView> {
    Seq::new(chain.len(), |i: int| chain[i]@)
}

impl View for Certificate {
    type V = Seq<TrustView>;

    open spec fn view(&self) -> Seq<TrustView> {
        trust_views(self.chain@)
    }
}

/// Why a certificate was refused or could not be made or read.
#[derive(Debug)]
pub enum CertificateError {
    /// The text is no certificate.
    IncorrectCertificateFormat(String),
    /// A trust inside the encoded certificate does not decode.
    DecodeError(TrustError),
    /// The new trust would expire before it is issued.
    ExpirationError { expires_at: u64, issued_at: u64 },
    /// The root of the certificate is none of the trusted roots.
    NoTrustedRoot,
    /// The root trust did not pass verification.
    MalformedRoot(TrustError),
    /// The issuer has no trust in the certificate that is to be extended.
    KeyInCertificateError,
    /// The certificate has too few trusts, or its bytes end too early.
    CertificateLengthError,
    /// The trust that starts at this line of the text does not decode.
    DecodeTrustError(usize, TrustError),
    /// The trust at this index of the chain did not pass verification.
    VerificationError(usize, TrustError),
    /// The new trust could not be signed.
    TrustCreationError(TrustError),
}

/// Whether the trust at index `i` of a chain holds at `now` under its issuer in the chain.
pub open spec fn link_valid(chain: Seq<TrustView>, i: int, now: u64) -> bool {
    trust_valid(chain[i], issuer_in_cert(chain, i), now)
}

/// Whether a certificate is valid at `now` for someone who trusts the keys `roots`: it
/// has a root trust that is self-signed and issued for one of the trusted keys, and
/// every other trust is given by the subject of the trust before it; all of them hold
/// at `now`.
pub open spec fn cert_valid(chain: Seq<TrustView>, roots: Set<Seq<u8>>, now: u64) -> bool {
    &&& chain.len() >= 1
    &&& roots.contains(chain[0].issued_for)
    &&& forall|i: int| 0 <= i < chain.len() ==> #[trigger] link_valid(chain, i, now)
}

/// What verifying a certificate comes to: which failure is reported for which
/// certificate. An empty chain fails for its length; then the root trust is judged,
/// then the root is looked up among the trusted roots, and then the trusts after the
/// root are judged from the last one back, so that the failure of a trust names the
/// last trust that does not hold.
pub open spec fn verify_outcome(
    chain: Seq<TrustView>,
    roots: Set<Seq<u8>>,
    now: u64,
    out: Result<(), CertificateError>,
) -> bool {
    match out {
        Ok(()) => cert_valid(chain, roots, now),
        Err(CertificateError::CertificateLengthError) => chain.len() == 0,
        Err(CertificateError::MalformedRoot(_)) => chain.len() > 0 && !link_valid(chain, 0, now),
        Err(CertificateError::NoTrustedRoot) => chain.len() > 0 && link_valid(chain, 0, now)
            && !roots.contains(chain[0].issued_for),
        Err(CertificateError::VerificationError(index, _)) => {
            &&& 1 <= index < chain.len()
            &&& link_valid(chain, 0, now)
            &&& roots.contains(chain[0].issued_for)
            &&& !link_valid(chain, index as int, now)
            &&& forall|i: int| index < i < chain.len() ==> #[trigger] link_valid(chain, i, now)
        },
        Err(_) => false,
    }
}

/// The set of the encoded keys of a list of keys.
pub open spec fn trusted_set(keys: Seq<PublicKey>) -> Set<Seq<u8>> {
    Set::new(|k: Seq<u8>| exists|i: int| 0 <= i < keys.len() && (#[trigger] keys[i])@ == k)
}

/// The encodings of the trusts of a chain, each after its length in one byte.
pub open spec fn trusts_encoding(chain: Seq<TrustView>) -> Seq<u8>
    decreases chain.len(),
{
    if chain.len() == 0 {
        Seq::empty()
    } else {
        trusts_encoding(chain.drop_last()) + seq![trust_encoding(chain.last()).len() as u8]
            + trust_encoding(chain.last())
    }
}

/// The byte encoding of a certificate: two bytes of format and four bytes of version,
/// all zero, the number of trusts in one byte, and then the encoding of each trust
/// after its length in one byte. Number and lengths are cut to their low 8 bits.
pub open spec fn cert_encoding(chain: Seq<TrustView>) -> Seq<u8> {
    seq![0u8, 0u8, 0u8, 0u8, 0u8, 0u8] + seq![chain.len() as u8] + trusts_encoding(chain)
}

/// Why bytes are not the encoding of a certificate.
pub enum CertDecodeFailure {
    /// The input ends too early, or announces fewer than two trusts.
    Length,
    /// A trust does not decode.
    Trust(TrustDecodeFailure),
}

/// What decoding makes of `count` trusts that start at `offset` of `arr`.
pub open spec fn trusts_decoding(arr: Seq<u8>, offset: int, count: nat) -> Result<
    Seq<TrustView>,
    CertDecodeFailure,
>
    decreases count,
{
    if count == 0 {
        Ok(Seq::empty())
    } else if arr.len() < offset + 1 {
        Err(CertDecodeFailure::Length)
    } else {
        let to = offset + 1 + arr[offset] as int;
        if arr.len() < to {
            Err(CertDecodeFailure::Length)
        } else {
            match trust_decoding(arr.subrange(offset + 1, to)) {
                Err(f) => Err(CertDecodeFailure::Trust(f)),
                Ok(t) => match trusts_decoding(arr, to, (count - 1) as nat) {
                    Err(f) => Err(f),
                    Ok(rest) => Ok(seq![t] + rest),
                },
            }
        }
    }
}

/// What decoding makes of `arr`. Format and version are not looked at; at least two
/// trusts must be announced; bytes after the last trust are left unread.
pub open spec fn cert_decoding(arr: Seq<u8>) -> Result<Seq<TrustView>, CertDecodeFailure> {
    if arr.len() < 7 || arr[6] < 2 {
        Err(CertDecodeFailure::Length)
    } else {
        trusts_decoding(arr, 7, arr[6] as nat)
    }
}

/// The failure that a decoding error reports.
pub open spec fn cert_failure_of(e: CertificateError) -> Option<CertDecodeFailure> {
    match e {
        CertificateError::CertificateLengthError => Some(CertDecodeFailure::Length),
        CertificateError::DecodeError(e) => match trust_failure_of(e) {
            Some(f) => Some(CertDecodeFailure::Trust(f)),
            None => None,
        },
        _ => None,
    }
}

/// The outcome of decoding after `done` trusts were read and the rest decodes to `rest`.
pub open spec fn decoded_after(done: Seq<TrustView>, rest: Result<Seq<TrustView>, CertDecodeFailure>) -> Result<
    Seq<TrustView>,
    CertDecodeFailure,
> {
    match rest {
        Ok(rest) => Ok(done + rest),
        Err(f) => Err(f),
    }
}

/// The index of the last trust of `chain` that is issued for `pk`, or -1.
pub open spec fn last_issued_for(chain: Seq<TrustView>, pk: Seq<u8>, upto: int) -> int
    decreases upto,
{
    if upto <= 0 {
        -1
    } else if chain[upto - 1].issued_for == pk {
        upto - 1
    } else {
        last_issued_for(chain, pk, upto - 1)
    }
}

/// The last trust issued for `pk` is issued for `pk`, and none after it is.
pub proof fn lemma_last_issued_for(chain: Seq<TrustView>, pk: Seq<u8>, upto: int)
    requires
        0 <= upto <= chain.len(),
    ensures
        -1 <= last_issued_for(chain, pk, upto) < upto,
        last_issued_for(chain, pk, upto) >= 0 ==> chain[last_issued_for(chain, pk, upto)].issued_for
            == pk,
        forall|i: int|
            last_issued_for(chain, pk, upto) < i < upto ==> (#[trigger] chain[i]).issued_for != pk,
    decreases upto,
{
    if upto > 0 && chain[upto - 1].issued_for != pk {
        lemma_last_issued_for(chain, pk, upto - 1);
    }
}

impl Certificate {
    /// A certificate of the given chain. Nothing is checked.
    pub fn new_unverified(chain: Vec<Trust>) -> (out: Self)
        ensures
            out.chain == chain,
    {
        Self { chain }
    }

    /// The certificate of a root trust and a trust given by the root, after both were
    /// verified at `cur_time`.
    pub fn new_from_root_trust(root_trust: Trust, issued_trust: Trust, cur_time: u64) -> (out: Result<
        Self,
        CertificateError,
    >)
        ensures
            match out {
                Ok(cert) => {
                    &&& cert@ == seq![root_trust@, issued_trust@]
                    &&& cert_valid(cert@, set![root_trust@.issued_for], cur_time)
                },
                Err(CertificateError::MalformedRoot(_)) => !trust_valid(
                    root_trust@,
                    root_trust@.issued_for,
                    cur_time,
                ),
                Err(CertificateError::VerificationError(index, _)) => {
                    &&& index == 1
                    &&& trust_valid(root_trust@, root_trust@.issued_for, cur_time)
                    &&& !trust_valid(issued_trust@, root_trust@.issued_for, cur_time)
                },
                Err(_) => false,
            },
    {
        match Trust::verify(&root_trust, &root_trust.issued_for, cur_time) {
            Ok(()) => {},
            Err(e) => {
                return Err(CertificateError::MalformedRoot(e));
            },
        }
        match Trust::verify(&issued_trust, &root_trust.issued_for, cur_time) {
            Ok(()) => {},
            Err(e) => {
                return Err(CertificateError::VerificationError(1, e));
            },
        }
        let mut chain: Vec<Trust> = Vec::new();
        chain.push(root_trust);
        chain.push(issued_trust);
        let cert = Self { chain };
        proof {
            assert(cert@ =~= seq![root_trust@, issued_trust@]);
            assert forall|i: int| 0 <= i < cert@.len() implies #[trigger] link_valid(cert@, i, cur_time) by {
            }
        }
        Ok(cert)
    }

    /// Extends `extend_cert` by a trust that `issued_by` has given: the chain is cut
    /// after the last trust issued for `issued_by`, and `trust` is added there. The
    /// certificate that is extended must be valid at `cur_time` under its own root; the
    /// new trust is taken as it is.
    pub fn issue_with_trust(
        issued_by: PublicKey,
        trust: Trust,
        extend_cert: &Certificate,
        cur_time: u64,
    ) -> (out: Result<Self, CertificateError>)
        ensures
            issue_outcome(extend_cert@, issued_by@, trust@, cur_time, out),
    {
        if trust.expires_at < trust.issued_at {
            return Err(
                CertificateError::ExpirationError {
                    expires_at: trust.expires_at,
                    issued_at: trust.issued_at,
                },
            );
        }
        Self::extend(&issued_by, trust, extend_cert, cur_time)
    }

    /// Verifies `extend_cert` under its own root, finds the last trust issued for
    /// `issued_by`, and puts `trust` after it.
    fn extend(issued_by: &PublicKey, trust: Trust, extend_cert: &Certificate, cur_time: u64) -> (out:
        Result<Self, CertificateError>)
        requires
            trust.expires_at >= trust.issued_at,
        ensures
            issue_outcome(extend_cert@, issued_by@, trust@, cur_time, out),
    {
        if extend_cert.chain.len() == 0 {
            return Err(CertificateError::CertificateLengthError);
        }
        // first, verify given certificate
        let mut own_root: Vec<PublicKey> = Vec::new();
        own_root.push(extend_cert.chain[0].issued_for.clone());
        proof {
            assert(trusted_set(own_root@) =~= set![extend_cert@[0].issued_for]) by {
                assert(own_root@[0]@ == extend_cert@[0].issued_for);
            }
        }
        match Certificate::verify(extend_cert, own_root.as_slice(), cur_time) {
            Ok(()) => {},
            Err(e) => {
                return Err(e);
            },
        }

        // check if `issued_by` is allowed to issue a certificate (i.e., there is a trust
        // for it in a chain)
        let mut previous_trust_num: Option<usize> = None;
        let mut pk_id: usize = 0;
        while pk_id < extend_cert.chain.len()
            invariant
                pk_id <= extend_cert.chain@.len(),
                match previous_trust_num {
                    Some(found) => found == last_issued_for(extend_cert@, issued_by@, pk_id as int),
                    None => last_issued_for(extend_cert@, issued_by@, pk_id as int) == -1,
                },
            decreases extend_cert.chain@.len() - pk_id,
        {
            assert(extend_cert@[pk_id as int] == extend_cert.chain@[pk_id as int]@);
            if extend_cert.chain[pk_id].issued_for == *issued_by {
                previous_trust_num = Some(pk_id);
            }
            pk_id += 1;
        }
        let previous_trust_num = match previous_trust_num {
            Some(found) => found,
            None => {
                return Err(CertificateError::KeyInCertificateError);
            },
        };
        proof {
            lemma_last_issued_for(extend_cert@, issued_by@, extend_cert@.len() as int);
        }

        // splitting old chain to add new trust after given public key
        let mut new_chain: Vec<Trust> = Vec::new();
        assert(previous_trust_num < extend_cert.chain.len());
        let end: usize = previous_trust_num + 1;
        let mut n: usize = 0;
        while n < end
            invariant
                end <= extend_cert.chain@.len(),
                n <= end,
                new_chain@.len() == n,
                forall|i: int| 0 <= i < n ==> (#[trigger] new_chain@[i])@ == extend_cert.chain@[i]@,
            decreases end - n,
        {
            new_chain.push(extend_cert.chain[n].clone());
            n += 1;
        }
        new_chain.push(trust);
        let cert = Self { chain: new_chain };
        assert(cert@ =~= extend_cert@.subrange(0, previous_trust_num + 1).push(trust@));
        Ok(cert)
    }

    /// Creates a certificate with a root trust, self-signed by `root_kp` and without an
    /// end, and a trust that the root gives to `for_pk`.
    pub fn issue_root(root_kp: &KeyPair, for_pk: PublicKey, expires_at: u64, issued_at: u64) -> (out:
        Result<Self, CertificateError>)
        ensures
            out matches Ok(cert) && {
                &&& cert@.len() == 2
                &&& cert@[0].issued_for == root_kp.public_view()
                &&& cert@[0].expires_at == u64::MAX
                &&& cert@[0].issued_at == issued_at
                &&& cert@[1].issued_for == for_pk@
                &&& cert@[1].expires_at == expires_at
                &&& cert@[1].issued_at == issued_at
                &&& forall|now: u64|
                    now <= expires_at ==> cert_valid(cert@, set![root_kp.public_view()], now)
            },
    {
        let root_expiration: u64 = u64::MAX;
        let root_trust = match Trust::create(root_kp, root_kp.public(), root_expiration, issued_at) {
            Ok(trust) => trust,
            Err(e) => {
                return Err(CertificateError::TrustCreationError(e));
            },
        };
        let trust = match Trust::create(root_kp, for_pk, expires_at, issued_at) {
            Ok(trust) => trust,
            Err(e) => {
                return Err(CertificateError::TrustCreationError(e));
            },
        };
        let mut chain: Vec<Trust> = Vec::new();
        chain.push(root_trust);
        chain.push(trust);
        let cert = Self { chain };
        proof {
            assert(cert@ =~= seq![root_trust@, trust@]);
            assert forall|now: u64| now <= expires_at implies cert_valid(
                cert@,
                set![root_kp.public_view()],
                now,
            ) by {
                assert forall|i: int| 0 <= i < cert@.len() implies #[trigger] link_valid(
                    cert@,
                    i,
                    now,
                ) by {
                    if i == 0 {
                        assert(trust_valid(root_trust@, root_kp.public_view(), now));
                    } else {
                        assert(trust_valid(trust@, root_kp.public_view(), now));
                    }
                }
            }
        }
        Ok(cert)
    }

    /// Adds a new trust, given by `issued_by` to `for_pk`, into the chain of trust of a
    /// certificate: a trust that would expire before it is issued is refused; the
    /// certificate that is extended must be valid at `cur_time` under its own root; the
    /// chain is cut after the last trust issued for the issuer, and the new trust is
    /// added there.
    pub fn issue(
        issued_by: &KeyPair,
        for_pk: PublicKey,
        extend_cert: &Certificate,
        expires_at: u64,
        issued_at: u64,
        cur_time: u64,
    ) -> (out: Result<Self, CertificateError>)
        ensures
            out is Ok <==> {
                &&& expires_at >= issued_at
                &&& extend_cert@.len() >= 1
                &&& cert_valid(extend_cert@, set![extend_cert@[0].issued_for], cur_time)
                &&& last_issued_for(
                    extend_cert@,
                    issued_by.public_view(),
                    extend_cert@.len() as int,
                ) >= 0
            },
            match out {
                Ok(cert) => {
                    let at = last_issued_for(
                        extend_cert@,
                        issued_by.public_view(),
                        extend_cert@.len() as int,
                    );
                    &&& cert@.len() == at + 2
                    &&& cert@.subrange(0, at + 1) == extend_cert@.subrange(0, at + 1)
                    &&& cert@.last().issued_for == for_pk@
                    &&& cert@.last().expires_at == expires_at
                    &&& cert@.last().issued_at == issued_at
                    &&& cert@.last().signature == issued_by.signature_view(
                        trust_metadata(for_pk@, expires_at, issued_at),
                    )
                    &&& cur_time <= expires_at ==> cert_valid(
                        cert@,
                        set![extend_cert@[0].issued_for],
                        cur_time,
                    )
                },
                Err(CertificateError::ExpirationError { expires_at: e, issued_at: i }) => expires_at
                    < issued_at && e == expires_at && i == issued_at,
                Err(CertificateError::KeyInCertificateError) => expires_at >= issued_at
                    && extend_cert@.len() >= 1 && cert_valid(
                    extend_cert@,
                    set![extend_cert@[0].issued_for],
                    cur_time,
                ),
                Err(e) => {
                    &&& expires_at >= issued_at
                    &&& (extend_cert@.len() == 0 || !cert_valid(
                        extend_cert@,
                        set![extend_cert@[0].issued_for],
                        cur_time,
                    ))
                    &&& verify_outcome(
                        extend_cert@,
                        if extend_cert@.len() == 0 {
                            Set::empty()
                        } else {
                            set![extend_cert@[0].issued_for]
                        },
                        cur_time,
                        Err(e),
                    )
                },
            },
    {
        if expires_at < issued_at {
            return Err(CertificateError::ExpirationError { expires_at, issued_at });
        }
        let issued_by_pk = issued_by.public();
        let trust = match Trust::create(issued_by, for_pk, expires_at, issued_at) {
            Ok(trust) => trust,
            Err(e) => {
                return Err(CertificateError::TrustCreationError(e));
            },
        };
        let out = Self::extend(&issued_by_pk, trust, extend_cert, cur_time);
        proof {
            if out is Ok {
                let cert = out->Ok_0;
                let at = last_issued_for(
                    extend_cert@,
                    issued_by.public_view(),
                    extend_cert@.len() as int,
                );
                lemma_last_issued_for(extend_cert@, issued_by.public_view(), extend_cert@.len() as int);
                assert(cert@.subrange(0, at + 1) =~= extend_cert@.subrange(0, at + 1));
                if cur_time <= expires_at {
                    lemma_extended_valid(
                        extend_cert@,
                        set![extend_cert@[0].issued_for],
                        cur_time,
                        at,
                        trust@,
                    );
                }
            }
        }
        out
    }

    /// Verifies that a certificate is valid at `cur_time` and that its root is one of
    /// `trusted_roots`. The root trust is verified first, as a self-signed trust; then
    /// the root is looked up among the trusted roots; then the other trusts are
    /// verified from the last one back to the second, each under the subject of the
    /// trust before it. The first of these verifications that fails ends the work, and
    /// the failure of a trust after the root carries the index of the trust.
    pub fn verify(cert: &Certificate, trusted_roots: &[PublicKey], cur_time: u64) -> (out: Result<
        (),
        CertificateError,
    >)
        ensures
            out is Ok <==> cert_valid(cert@, trusted_set(trusted_roots@), cur_time),
            verify_outcome(cert@, trusted_set(trusted_roots@), cur_time, out),
    {
        let chain = &cert.chain;

        if chain.len() == 0 {
            return Err(CertificateError::CertificateLengthError);
        }
        // check root trust and its existence in trusted roots list

        let root = &chain[0];
        assert(root@ == cert@[0]);
        match Trust::verify(root, &root.issued_for, cur_time) {
            Ok(()) => {},
            Err(e) => {
                assert(!link_valid(cert@, 0, cur_time));
                return Err(CertificateError::MalformedRoot(e));
            },
        }
        assert(link_valid(cert@, 0, cur_time));
        let mut known = false;
        let mut r: usize = 0;
        while r < trusted_roots.len()
            invariant
                r <= trusted_roots@.len(),
                known <==> exists|i: int| 0 <= i < r && (#[trigger] trusted_roots@[i])@ == root.issued_for@,
            decreases trusted_roots@.len() - r,
        {
            if trusted_roots[r] == root.issued_for {
                known = true;
            }
            r += 1;
        }
        if !known {
            return Err(CertificateError::NoTrustedRoot);
        }
        assert(trusted_set(trusted_roots@).contains(cert@[0].issued_for));
        // check if every element in a chain is not expired and has the correct signature

        let mut trust_id: usize = chain.len();
        while trust_id > 1
            invariant
                1 <= trust_id <= chain@.len(),
                chain == &cert.chain,
                link_valid(cert@, 0, cur_time),
                trusted_set(trusted_roots@).contains(cert@[0].issued_for),
                forall|i: int| trust_id <= i < cert@.len() ==> #[trigger] link_valid(cert@, i, cur_time),
            decreases trust_id,
        {
            trust_id -= 1;
            let trust = &chain[trust_id];
            let trust_giver = &chain[trust_id - 1];
            assert(trust@ == cert@[trust_id as int]);
            assert(trust_giver@ == cert@[trust_id - 1]);

            match Trust::verify(trust, &trust_giver.issued_for, cur_time) {
                Ok(()) => {},
                Err(e) => {
                    assert(!link_valid(cert@, trust_id as int, cur_time));
                    return Err(CertificateError::VerificationError(trust_id, e));
                },
            }
        }
        proof {
            assert forall|i: int| 0 <= i < cert@.len() implies #[trigger] link_valid(cert@, i, cur_time) by {
            }
        }
        Ok(())
    }

    /// Converts the certificate to its byte format.
    pub fn encode(&self) -> (out: Vec<u8>)
        ensures
            out@ == cert_encoding(self@),
    {
        let mut encoded: Vec<u8> = Vec::new();
        let mut h: usize = 0;
        while h < FORMAT_LEN + VERSION_LEN
            invariant
                h <= 6,
                encoded@.len() == h,
                forall|i: int| 0 <= i < h ==> encoded@[i] == 0u8,
            decreases 6 - h,
        {
            encoded.push(0u8);
            h += 1;
        }
        assert(encoded@ =~= seq![0u8, 0u8, 0u8, 0u8, 0u8, 0u8]);
        encoded.push(self.chain.len() as u8);
        let ghost head = encoded@;

        let mut n: usize = 0;
        while n < self.chain.len()
            invariant
                n <= self.chain@.len(),
                encoded@ == head + trusts_encoding(self@.subrange(0, n as int)),
            decreases self.chain@.len() - n,
        {
            let trust = self.chain[n].encode();
            let ghost before = encoded@;
            encoded.push(trust.len() as u8);
            append_bytes(&mut encoded, trust.as_slice());
            proof {
                let upto = self@.subrange(0, n + 1);
                assert(upto.drop_last() =~= self@.subrange(0, n as int));
                assert(upto.last() == self.chain@[n as int]@);
                assert(encoded@ =~= head + trusts_encoding(upto));
            }
            n += 1;
        }
        assert(self@.subrange(0, self@.len() as int) =~= self@);
        encoded
    }

    fn check_arr_len(arr: &[u8], check_len: usize) -> (out: Result<(), CertificateError>)
        ensures
            arr@.len() >= check_len ==> out is Ok,
            arr@.len() < check_len ==> out matches Err(CertificateError::CertificateLengthError),
    {
        if arr.len() < check_len {
            Err(CertificateError::CertificateLengthError)
        } else {
            Ok(())
        }
    }

    /// Decodes a certificate from the bytes that `encode` makes. Every length is checked
    /// against the end of the input before it is followed.
    pub fn decode(arr: &[u8]) -> (out: Result<Self, CertificateError>)
        ensures
            match out {
                Ok(cert) => cert_decoding(arr@) == Ok::<Seq<TrustView>, CertDecodeFailure>(cert@),
                Err(e) => cert_decoding(arr@) is Err && cert_failure_of(e) == Some(
                    cert_decoding(arr@)->Err_0,
                ),
            },
    {
        match Self::check_arr_len(arr, FORMAT_LEN + VERSION_LEN + TRUST_NUMBER_LEN) {
            Ok(()) => {},
            Err(e) => {
                return Err(e);
            },
        }
        let mut offset: usize = FORMAT_LEN + VERSION_LEN;
        let number_of_trusts: usize = arr[offset] as usize;
        offset += TRUST_NUMBER_LEN;

        if number_of_trusts < 2 {
            return Err(CertificateError::CertificateLengthError);
        }
        let mut chain: Vec<Trust> = Vec::new();
        let ghost whole = trusts_decoding(arr@, 7, number_of_trusts as nat);

        let mut n: usize = 0;
        while n < number_of_trusts
            invariant
                2 <= number_of_trusts <= 255,
                n <= number_of_trusts,
                number_of_trusts == arr@[6],
                7 <= offset <= arr@.len(),
                chain@.len() == n,
                whole == trusts_decoding(arr@, 7, number_of_trusts as nat),
                whole == decoded_after(
                    trust_views(chain@),
                    trusts_decoding(arr@, offset as int, (number_of_trusts - n) as nat),
                ),
            decreases number_of_trusts - n,
        {
            if offset >= arr.len() {
                return Err(CertificateError::CertificateLengthError);
            }
            let trust_len: usize = arr[offset] as usize;
            let from: usize = offset + 1;
            if arr.len() - from < trust_len {
                return Err(CertificateError::CertificateLengthError);
            }
            let to: usize = from + trust_len;
            let slice = slice_subrange(arr, from, to);
            let t = match Trust::decode(slice) {
                Ok(t) => t,
                Err(e) => {
                    return Err(CertificateError::DecodeError(e));
                },
            };
            let ghost before = trust_views(chain@);
            chain.push(t);
            proof {
                assert(trust_views(chain@) =~= before + seq![t@]);
                let rest = trusts_decoding(arr@, to as int, (number_of_trusts - n - 1) as nat);
                match rest {
                    Ok(r) => {
                        assert(before + (seq![t@] + r) =~= (before + seq![t@]) + r);
                    },
                    Err(_) => {},
                }
            }
            offset = to;
            n += 1;
        }
        proof {
            assert(trust_views(chain@) + Seq::<TrustView>::empty() =~= trust_views(chain@));
        }
        Ok(Self { chain })
    }
}

/// The text of the format at the head of the text of a certificate.
pub open spec fn format_text() -> Seq<u8> {
    base58_text(seq![0u8, 0u8])
}

/// The text of the version after the format.
pub open spec fn version_text() -> Seq<u8> {
    base58_text(seq![0u8, 0u8, 0u8, 0u8])
}

/// The texts of the trusts of a chain, each ended by a newline.
pub open spec fn trusts_text(chain: Seq<TrustView>) -> Seq<u8>
    decreases chain.len(),
{
    if chain.len() == 0 {
        Seq::empty()
    } else {
        trusts_text(chain.drop_last()) + trust_text(chain.last()) + seq![10u8]
    }
}

/// The text of a certificate: a line with the base58 text of the format, a line with
/// the base58 text of the version, and then four lines for each trust: the base58 texts
/// of subject and signature, and expiry and issue time in decimal.
pub open spec fn cert_text(chain: Seq<TrustView>) -> Seq<u8> {
    format_text() + seq![10u8] + version_text() + seq![10u8] + trusts_text(chain)
}

/// The trust that the `k`-th group of four lines after the two head lines stands for.
pub open spec fn group_of(lines: Seq<Seq<u8>>, k: int) -> Option<TrustView> {
    trust_of_texts(lines[2 + 4 * k], lines[3 + 4 * k], lines[4 + 4 * k], lines[5 + 4 * k])
}

/// Whether lines have the shape of a certificate: two head lines and then groups of four.
pub open spec fn lines_shaped(lines: Seq<Seq<u8>>) -> bool {
    lines.len() >= 2 && (lines.len() - 2) % 4 == 0
}

/// The certificate that lines stand for: the head lines are not looked at, and every
/// group of four lines after them must stand for a trust.
pub open spec fn cert_of_lines(lines: Seq<Seq<u8>>) -> Option<Seq<TrustView>> {
    if lines_shaped(lines) && (forall|k: int|
        0 <= k < (lines.len() - 2) / 4 ==> (#[trigger] group_of(lines, k)) is Some) {
        Some(Seq::new(((lines.len() - 2) / 4) as nat, |k: int| group_of(lines, k).unwrap()))
    } else {
        None
    }
}

/// The certificate that a text stands for.
pub open spec fn cert_of_text(text: Seq<u8>) -> Option<Seq<TrustView>> {
    cert_of_lines(lines_of(text))
}

/// What reading a certificate from a text comes to.
pub open spec fn cert_text_outcome(text: Seq<u8>, out: Result<Certificate, CertificateError>) -> bool {
    let lines = lines_of(text);
    match out {
        Ok(cert) => cert_of_text(text) == Some(cert@),
        Err(CertificateError::IncorrectCertificateFormat(_)) => !lines_shaped(lines),
        Err(CertificateError::DecodeTrustError(line, _)) => {
            &&& lines_shaped(lines)
            &&& 2 <= line < lines.len()
            &&& (line - 2) % 4 == 0
            &&& group_of(lines, (line - 2) / 4) is None
            &&& forall|k: int| 0 <= k < (line - 2) / 4 ==> (#[trigger] group_of(lines, k)) is Some
        },
        Err(_) => false,
    }
}

/// Four lines and their newlines after a text of lines add the four lines to its lines.
pub proof fn lemma_four_lines(buf: Seq<u8>, a: Seq<u8>, b: Seq<u8>, c: Seq<u8>, d: Seq<u8>)
    requires
        buf.len() == 0 || buf.last() == 10,
        is_line(a),
        is_line(b),
        is_line(c),
        is_line(d),
    ensures
        lines_of(buf + (a + seq![10u8] + b + seq![10u8] + c + seq![10u8] + d) + seq![10u8])
            == lines_of(buf).push(a).push(b).push(c).push(d),
{
    let n = seq![10u8];
    let b1 = buf + a + n;
    let b2 = b1 + b + n;
    let b3 = b2 + c + n;
    let b4 = b3 + d + n;
    lemma_lines_push(buf, a);
    assert(b1.last() == 10);
    lemma_lines_push(b1, b);
    assert(b2.last() == 10);
    lemma_lines_push(b2, c);
    assert(b3.last() == 10);
    lemma_lines_push(b3, d);
    assert(b4 =~= buf + (a + n + b + n + c + n + d) + n);
}

impl Certificate {
    /// Reads a certificate from its text. The two head lines are not looked at; every
    /// group of four lines after them must read as a trust, and the failure of one
    /// carries the number of its first line.
    pub fn from_str(s: &str) -> (out: Result<Self, CertificateError>)
        ensures
            cert_text_outcome(s.spec_bytes(), out),
            out is Ok <==> cert_of_text(s.spec_bytes()) is Some,
    {
        Self::from_text(s.as_bytes())
    }

    /// Reads a certificate from the bytes of its text.
    pub fn from_text(text: &[u8]) -> (out: Result<Self, CertificateError>)
        ensures
            cert_text_outcome(text@, out),
            out is Ok <==> cert_of_text(text@) is Some,
    {
        let str_lines = split_lines(text);
        let ghost lines = lines_of(text@);

        if str_lines.len() < 2 || (str_lines.len() - 2) % 4 != 0 {
            return Err(CertificateError::IncorrectCertificateFormat(shown(text)));
        }
        let num_of_trusts: usize = (str_lines.len() - 2) / 4;
        let mut trusts: Vec<Trust> = Vec::new();

        let mut k: usize = 0;
        while k < num_of_trusts
            invariant
                k <= num_of_trusts,
                num_of_trusts == (lines.len() - 2) / 4,
                2 + 4 * num_of_trusts == lines.len(),
                lines.len() <= usize::MAX,
                lines == lines_of(text@),
                lines_shaped(lines),
                str_lines@.len() == lines.len(),
                forall|i: int| 0 <= i < str_lines@.len() ==> (#[trigger] str_lines@[i])@ == lines[i],
                trusts@.len() == k,
                forall|j: int| 0 <= j < k ==> group_of(lines, j) == Some((#[trigger] trusts@[j])@),
            decreases num_of_trusts - k,
        {
            let i: usize = 2 + 4 * k;
            let trust = match Trust::convert_from_texts(
                str_lines[i].as_slice(),
                str_lines[i + 1].as_slice(),
                str_lines[i + 2].as_slice(),
                str_lines[i + 3].as_slice(),
            ) {
                Ok(trust) => trust,
                Err(e) => {
                    proof {
                        assert(group_of(lines, k as int) is None);
                        assert((i - 2) / 4 == k);
                        assert((i - 2) % 4 == 0);
                        assert forall|j: int| 0 <= j < (i - 2) / 4 implies (#[trigger] group_of(
                            lines,
                            j,
                        )) is Some by {
                            assert(group_of(lines, j) == Some(trusts@[j]@));
                        }
                    }
                    return Err(CertificateError::DecodeTrustError(i, e));
                },
            };
            assert(group_of(lines, k as int) == Some(trust@));
            trusts.push(trust);
            k += 1;
        }
        let cert = Self::new_unverified(trusts);
        proof {
            assert forall|j: int| 0 <= j < (lines.len() - 2) / 4 implies (#[trigger] group_of(
                lines,
                j,
            )) is Some by {
                assert(group_of(lines, j) == Some(trusts@[j]@));
            }
            assert(cert@ =~= cert_of_lines(lines).unwrap()) by {
                assert forall|j: int| 0 <= j < cert@.len() implies cert@[j] == group_of(
                    lines,
                    j,
                ).unwrap() by {
                    assert(group_of(lines, j) == Some(trusts@[j]@));
                }
            }
        }
        Ok(cert)
    }

    /// The bytes of the text of the certificate. The text reads back as this
    /// certificate.
    pub fn to_text(&self) -> (out: Vec<u8>)
        ensures
            out@ == cert_text(self@),
            cert_of_text(out@) == Some(self@),
            forall|i: int| 0 <= i < out@.len() ==> #[trigger] out@[i] < 128,
    {
        let mut buf: Vec<u8> = Vec::new();
        let mut format: Vec<u8> = Vec::new();
        format.push(0u8);
        format.push(0u8);
        let mut version: Vec<u8> = Vec::new();
        version.push(0u8);
        version.push(0u8);
        version.push(0u8);
        version.push(0u8);
        assert(format@ =~= seq![0u8, 0u8]);
        assert(version@ =~= seq![0u8, 0u8, 0u8, 0u8]);
        let format_line = to_base58(format.as_slice());
        let version_line = to_base58(version.as_slice());
        append_bytes(&mut buf, format_line.as_slice());
        buf.push(NEWLINE);
        let ghost head1 = buf@;
        append_bytes(&mut buf, version_line.as_slice());
        buf.push(NEWLINE);
        let ghost head = buf@;
        proof {
            lemma_alphanumeric_is_line(format_line@);
            lemma_alphanumeric_is_line(version_line@);
            assert(head1 =~= Seq::<u8>::empty() + format_line@ + seq![10u8]);
            lemma_lines_push(Seq::<u8>::empty(), format_line@);
            assert(head =~= head1 + version_line@ + seq![10u8]);
            lemma_lines_push(head1, version_line@);
            assert(head =~= format_text() + seq![10u8] + version_text() + seq![10u8]);
            assert(head + trusts_text(self@.subrange(0, 0)) =~= head);
            assert forall|i: int| 0 <= i < head.len() implies #[trigger] head[i] < 128 by {
                if i < format_line@.len() {
                    assert(is_alphanumeric(format_line@[i]));
                } else if i == format_line@.len() {
                } else if i < format_line@.len() + 1 + version_line@.len() {
                    assert(head[i] == version_line@[i - format_line@.len() - 1]);
                    assert(is_alphanumeric(version_line@[i - format_line@.len() - 1]));
                } else {
                }
            }
        }

        let mut n: usize = 0;
        while n < self.chain.len()
            invariant
                n <= self.chain@.len(),
                buf@ == head + trusts_text(self@.subrange(0, n as int)),
                buf@.len() > 0 && buf@.last() == 10,
                lines_of(buf@).len() == 2 + 4 * n,
                forall|j: int| 0 <= j < n ==> #[trigger] group_of(lines_of(buf@), j) == Some(self@[j]),
                forall|i: int| 0 <= i < buf@.len() ==> #[trigger] buf@[i] < 128,
            decreases self.chain@.len() - n,
        {
            let ghost before = buf@;
            let ghost old_lines = lines_of(before);
            let trust = &self.chain[n];
            let ghost t = trust@;
            trust.push_text(&mut buf);
            buf.push(NEWLINE);
            proof {
                assert(t == self@[n as int]);
                let a = base58_text(t.issued_for);
                let b = base58_text(t.signature);
                let c = decimal_text(t.expires_at);
                let d = decimal_text(t.issued_at);
                lemma_decimal_text(t.expires_at);
                lemma_decimal_text(t.issued_at);
                lemma_alphanumeric_is_line(a);
                lemma_alphanumeric_is_line(b);
                assert(is_line(c)) by {
                    assert forall|i: int| 0 <= i < c.len() implies #[trigger] c[i] != 10 by {
                        assert(is_digit(c[i]));
                    }
                    assert(is_digit(c[c.len() - 1]));
                }
                assert(is_line(d)) by {
                    assert forall|i: int| 0 <= i < d.len() implies #[trigger] d[i] != 10 by {
                        assert(is_digit(d[i]));
                    }
                    assert(is_digit(d[d.len() - 1]));
                }
                lemma_four_lines(before, a, b, c, d);
                assert(buf@ =~= before + trust_text(t) + seq![10u8]);
                let new_lines = lines_of(buf@);
                assert(new_lines == old_lines.push(a).push(b).push(c).push(d));
                assert forall|j: int| 0 <= j < n + 1 implies #[trigger] group_of(new_lines, j) == Some(
                    self@[j],
                ) by {
                    if j < n {
                        assert(group_of(old_lines, j) == Some(self@[j]));
                        assert(new_lines[2 + 4 * j] == old_lines[2 + 4 * j]);
                        assert(new_lines[3 + 4 * j] == old_lines[3 + 4 * j]);
                        assert(new_lines[4 + 4 * j] == old_lines[4 + 4 * j]);
                        assert(new_lines[5 + 4 * j] == old_lines[5 + 4 * j]);
                    } else {
                        assert(new_lines[2 + 4 * j] == a);
                        assert(new_lines[3 + 4 * j] == b);
                        assert(new_lines[4 + 4 * j] == c);
                        assert(new_lines[5 + 4 * j] == d);
                    }
                }
                let upto = self@.subrange(0, n + 1);
                assert(upto.drop_last() =~= self@.subrange(0, n as int));
                assert(upto.last() == t);
                assert(buf@ =~= head + trusts_text(upto));
                lemma_trust_text_ascii(t);
                assert forall|i: int| 0 <= i < buf@.len() implies #[trigger] buf@[i] < 128 by {
                    if i < before.len() {
                        assert(buf@[i] == before[i]);
                    } else if i < before.len() + trust_text(t).len() {
                        assert(buf@[i] == trust_text(t)[i - before.len()]);
                    } else {
                    }
                }
            }
            n += 1;
        }
        proof {
            assert(self@.subrange(0, self@.len() as int) =~= self@);
            let lines = lines_of(buf@);
            assert((lines.len() - 2) / 4 == self@.len());
            assert forall|k: int| 0 <= k < (lines.len() - 2) / 4 implies (#[trigger] group_of(
                lines,
                k,
            )) is Some by {
                assert(group_of(lines, k) == Some(self@[k]));
            }
            assert(cert_of_lines(lines).unwrap() =~= self@) by {
                assert forall|k: int| 0 <= k < self@.len() implies cert_of_lines(
                    lines,
                ).unwrap()[k] == self@[k] by {
                    assert(group_of(lines, k) == Some(self@[k]));
                }
            }
        }
        buf
    }

    /// The text of the certificate. Reading the text gives the certificate back.
    pub fn to_string(&self) -> (out: String)
        ensures
            out@ == ascii_chars(cert_text(self@)),
            cert_of_text(cert_text(self@)) == Some(self@),
    {
        ascii_string(self.to_text())
    }
}

/// What issuing a trust into a certificate comes to: `out` is the outcome of extending
/// the certificate `extend` by the trust `trust` on behalf of `issuer` at `now`.
pub open spec fn issue_outcome(
    extend: Seq<TrustView>,
    issuer: Seq<u8>,
    trust: TrustView,
    now: u64,
    out: Result<Certificate, CertificateError>,
) -> bool {
    match out {
        Ok(cert) => {
            &&& trust.expires_at >= trust.issued_at
            &&& extend.len() >= 1
            &&& cert_valid(extend, set![extend[0].issued_for], now)
            &&& last_issued_for(extend, issuer, extend.len() as int) >= 0
            &&& cert@ == extend.subrange(
                0,
                last_issued_for(extend, issuer, extend.len() as int) + 1,
            ).push(trust)
        },
        Err(CertificateError::ExpirationError { expires_at, issued_at }) => {
            &&& trust.expires_at < trust.issued_at
            &&& expires_at == trust.expires_at
            &&& issued_at == trust.issued_at
        },
        Err(CertificateError::KeyInCertificateError) => {
            &&& trust.expires_at >= trust.issued_at
            &&& extend.len() >= 1
            &&& cert_valid(extend, set![extend[0].issued_for], now)
            &&& last_issued_for(extend, issuer, extend.len() as int) == -1
        },
        Err(CertificateError::TrustCreationError(_)) => false,
        Err(e) => {
            &&& trust.expires_at >= trust.issued_at
            &&& (extend.len() == 0 || !cert_valid(extend, set![extend[0].issued_for], now))
            &&& verify_outcome(
                extend,
                if extend.len() == 0 {
                    Set::empty()
                } else {
                    set![extend[0].issued_for]
                },
                now,
                Err(e),
            )
        },
    }
}

/// A valid certificate that is cut after one of its trusts and extended by a trust that
/// holds under the subject of that trust is valid.
pub proof fn lemma_extended_valid(chain: Seq<TrustView>, roots: Set<Seq<u8>>, now: u64, at: int, trust: TrustView)
    requires
        cert_valid(chain, roots, now),
        0 <= at < chain.len(),
        trust_valid(trust, chain[at].issued_for, now),
    ensures
        cert_valid(chain.subrange(0, at + 1).push(trust), roots, now),
{
    let longer = chain.subrange(0, at + 1).push(trust);
    assert forall|i: int| 0 <= i < longer.len() implies #[trigger] link_valid(longer, i, now) by {
        if i <= at {
            assert(link_valid(chain, i, now));
        }
    }
}

/// The encoding of one trust inside a certificate: its length in one byte, then its bytes.
pub open spec fn item_encoding(t: TrustView) -> Seq<u8> {
    seq![trust_encoding(t).len() as u8] + trust_encoding(t)
}

/// The encodings of the trusts of a chain start with the encoding of the first trust.
pub proof fn lemma_trusts_encoding_front(chain: Seq<TrustView>)
    requires
        chain.len() >= 1,
    ensures
        trusts_encoding(chain) == item_encoding(chain[0]) + trusts_encoding(chain.drop_first()),
    decreases chain.len(),
{
    if chain.len() == 1 {
        assert(chain.drop_last() =~= Seq::<TrustView>::empty());
        assert(chain.drop_first() =~= Seq::<TrustView>::empty());
        assert(trusts_encoding(chain) =~= item_encoding(chain[0]) + trusts_encoding(
            chain.drop_first(),
        ));
    } else {
        lemma_trusts_encoding_front(chain.drop_last());
        assert(chain.drop_last().drop_first() =~= chain.drop_first().drop_last());
        assert(chain.drop_last()[0] == chain[0]);
        assert(chain.drop_first().last() == chain.last());
        assert(trusts_encoding(chain) =~= item_encoding(chain[0]) + trusts_encoding(
            chain.drop_first(),
        ));
    }
}

/// Whether a certificate can be read back from its encoding: it has 2 to 255 trusts,
/// each of which can be read back from an encoding of at most 255 bytes, that is, with
/// a signature encoding of at most 203 bytes.
pub open spec fn cert_encodable(chain: Seq<TrustView>) -> bool {
    &&& 2 <= chain.len() <= 255
    &&& forall|i: int|
        0 <= i < chain.len() ==> trust_encodable(#[trigger] chain[i]) && chain[i].signature.len()
            <= 203
}

/// The encodings of trusts that stand at `offset` of `arr` decode to the trusts.
pub proof fn lemma_trusts_round_trip(arr: Seq<u8>, offset: int, chain: Seq<TrustView>)
    requires
        0 <= offset,
        offset + trusts_encoding(chain).len() <= arr.len(),
        arr.subrange(offset, offset + trusts_encoding(chain).len()) == trusts_encoding(chain),
        forall|i: int|
            0 <= i < chain.len() ==> trust_encodable(#[trigger] chain[i]) && chain[i].signature.len()
                <= 203,
    ensures
        trusts_decoding(arr, offset, chain.len()) == Ok::<Seq<TrustView>, CertDecodeFailure>(chain),
    decreases chain.len(),
{
    if chain.len() == 0 {
        assert(chain =~= Seq::<TrustView>::empty());
    } else {
        let t = chain[0];
        let rest = chain.drop_first();
        let all = trusts_encoding(chain);
        lemma_trusts_encoding_front(chain);
        lemma_trust_round_trip(t);
        let enc = trust_encoding(t);
        let to = offset + 1 + enc.len();
        assert(all[0] == enc.len() as u8);
        assert(arr[offset] == arr.subrange(offset, offset + all.len())[0]);
        assert(arr.subrange(offset + 1, to) =~= enc) by {
            assert forall|i: int| 0 <= i < enc.len() implies arr.subrange(offset + 1, to)[i]
                == enc[i] by {
                assert(arr[offset + 1 + i] == arr.subrange(offset, offset + all.len())[1 + i]);
                assert(all[1 + i] == enc[i]);
            }
        }
        assert(arr.subrange(to, to + trusts_encoding(rest).len()) =~= trusts_encoding(rest)) by {
            assert forall|i: int| 0 <= i < trusts_encoding(rest).len() implies arr.subrange(
                to,
                to + trusts_encoding(rest).len(),
            )[i] == trusts_encoding(rest)[i] by {
                assert(arr[to + i] == arr.subrange(offset, offset + all.len())[1 + enc.len() + i]);
                assert(all[1 + enc.len() + i] == trusts_encoding(rest)[i]);
            }
        }
        assert forall|i: int| 0 <= i < rest.len() implies trust_encodable(#[trigger] rest[i])
            && rest[i].signature.len() <= 203 by {
            assert(rest[i] == chain[i + 1]);
        }
        lemma_trusts_round_trip(arr, to, rest);
        assert(seq![t] + rest =~= chain);
    }
}

/// Round trip of the byte encoding: decoding the encoding of a certificate gives the
/// certificate.
pub proof fn lemma_certificate_round_trip(chain: Seq<TrustView>)
    requires
        cert_encodable(chain),
    ensures
        cert_decoding(cert_encoding(chain)) == Ok::<Seq<TrustView>, CertDecodeFailure>(chain),
{
    let arr = cert_encoding(chain);
    assert(arr[6] == chain.len() as u8);
    assert(arr.subrange(7, 7 + trusts_encoding(chain).len() as int) =~= trusts_encoding(chain));
    lemma_trusts_round_trip(arr, 7, chain);
}

impl Clone for Certificate {
    fn clone(&self) -> (out: Self)
        ensures
            out@ == self@,
    {
        let mut chain: Vec<Trust> = Vec::new();
        let mut n: usize = 0;
        while n < self.chain.len()
            invariant
                n <= self.chain@.len(),
                chain@.len() == n,
                forall|i: int| 0 <= i < n ==> (#[trigger] chain@[i])@ == self.chain@[i]@,
            decreases self.chain@.len() - n,
        {
            chain.push(self.chain[n].clone());
            n += 1;
        }
        let out = Certificate { chain };
        assert(out@ =~= self@);
        out
    }
}

} // verus!
