//! The certificates of an HTTPS listener: which of them is served for a name.
//!
//! Several certificates may be good for one name. The one that lives longest is
//! served.
use vstd::prelude::*;

use crate::bytes::{same_bytes, slice_to_vec};
use crate::sni_routes;
use crate::sni_routes::find_key;
use crate::table::Table;
use crate::text;
use vstd::utf8;

verus! {

/// What tells a certificate from others: the SHA-256 digest of its bytes.
#[derive(Debug, PartialEq, Eq)]
pub struct Fingerprint(pub Vec<u8>);

/// Why a certificate could not be taken in.
#[derive(Debug)]
pub enum CertificateResolverError {
    /// There is no private key that can be read.
    EmptyKeys,
    /// The private key cannot be used to sign.
    InvalidPrivateKey(String),
    ParseX509(String),
    ParsePem(String),
}

impl CertificateResolverError {
    /// The error in words.
    pub open spec fn message_spec(self) -> Seq<char> {
        match self {
            CertificateResolverError::EmptyKeys => "empty key"@,
            CertificateResolverError::InvalidPrivateKey(e) => "invalid private key: "@ + e@,
            CertificateResolverError::ParseX509(e) => "error parsing x509 cert from bytes: "@ + e@,
            CertificateResolverError::ParsePem(e) =>
            "error parsing pem formated certificate from bytes: "@ + e@,
        }
    }

    /// The error in words.
    pub fn message(&self) -> (m: String)
        ensures
            m@ == self.message_spec(),
    {
        match self {
            CertificateResolverError::EmptyKeys => String::from_str("empty key"),
            CertificateResolverError::InvalidPrivateKey(e) => text::concat2(
                "invalid private key: ",
                e.as_str(),
            ),
            CertificateResolverError::ParseX509(e) => text::concat2(
                "error parsing x509 cert from bytes: ",
                e.as_str(),
            ),
            CertificateResolverError::ParsePem(e) => text::concat2(
                "error parsing pem formated certificate from bytes: ",
                e.as_str(),
            ),
        }
    }
}

/// What a certificate says of itself.
#[derive(Debug)]
pub struct X509Attributes {
    pub names: Vec<String>,
    /// Until when it is valid, in seconds since 1970.
    pub not_after: i64,
}

/// A request to add a certificate, with what could be read out of it.
#[derive(Debug)]
pub struct AddCertificate {
    /// The bytes of the certificate, or why they could not be read.
    pub certificate: Result<Vec<u8>, String>,
    /// What the certificate says of itself, or why it says nothing.
    pub x509: Result<X509Attributes, String>,
    /// The names that it is for, in place of those that it says.
    pub names: Vec<String>,
    /// The bytes of each certificate of the chain, or why they could not be
    /// read.
    pub certificate_chain: Vec<Result<Vec<u8>, String>>,
    /// The private key, in PEM.
    pub key: String,
    /// Until when it is good, in place of what it says.
    pub expired_at: Option<i64>,
}

/// The format of a private key.
#[derive(Copy, Clone, Debug, PartialEq, Eq, Structural)]
pub enum PrivateKeyKind {
    Pkcs1,
    Sec1,
    Pkcs8,
    /// One that is not known here.
    Other,
}

/// A certificate that was read.
#[derive(Debug)]
pub struct CertificateParts {
    /// The certificate, and those that vouch for it.
    pub chain: Vec<Vec<u8>>,
    pub names: Vec<String>,
    pub expiration: i64,
    pub fingerprint: Fingerprint,
    pub private_key_kind: PrivateKeyKind,
    /// The bytes of the private key.
    pub private_key: Vec<u8>,
}

/// A certificate as it is kept.
#[derive(Debug)]
pub struct CertifiedKeyWrapper {
    /// The number under which the signing key is kept.
    pub inner: u64,
    pub chain: Vec<Vec<u8>>,
    pub names: Vec<String>,
    pub expiration: i64,
    pub fingerprint: Fingerprint,
}

/// What is served to a client.
#[derive(Copy, Clone, Debug, PartialEq, Eq, Structural)]
pub enum Resolution {
    /// Nothing: the client did not say which name it wants.
    NoName,
    /// The certificate whose signing key has this number.
    Certificate(u64),
    /// The default certificate.
    Default,
}

/// The SHA-256 digest of bytes.
pub uninterp spec fn sha256(bytes: Seq<u8>) -> Seq<u8>;

/// Calls `sha2::Sha256::digest`. The digest depends on the bytes alone, and has
/// 32 bytes.
#[verifier::external_body]
fn sha256_digest(bytes: &[u8]) -> (digest: Vec<u8>)
    ensures
        digest@ == sha256(bytes@),
        digest@.len() == 32,
{
    <sha2::Sha256 as sha2::Digest>::digest(bytes).to_vec()
}

/// The format and the bytes of the first private key in PEM text, if there is
/// one.
pub uninterp spec fn pem_private_key(pem: Seq<u8>) -> Option<(PrivateKeyKind, Seq<u8>)>;

/// Calls `rustls::pki_types::PrivateKeyDer::from_pem_slice`, and hands out the
/// format and the bytes of the key. What is read depends on the text alone.
#[verifier::external_body]
fn private_key_from_pem(pem: &[u8]) -> (key: Option<(PrivateKeyKind, Vec<u8>)>)
    ensures
        key is Some <==> pem_private_key(pem@) is Some,
        key matches Some(k) ==> pem_private_key(pem@) == Some((k.0, k.1@)),
{
    let key =
        <rustls::pki_types::PrivateKeyDer<'static> as rustls::pki_types::pem::PemObject>::from_pem_slice(
        pem,
    ).ok()?;
    let kind = match &key {
        rustls::pki_types::PrivateKeyDer::Pkcs1(_) => PrivateKeyKind::Pkcs1,
        rustls::pki_types::PrivateKeyDer::Sec1(_) => PrivateKeyKind::Sec1,
        rustls::pki_types::PrivateKeyDer::Pkcs8(_) => PrivateKeyKind::Pkcs8,
        _ => PrivateKeyKind::Other,
    };
    Some((kind, key.secret_der().to_vec()))
}

/// The bytes of certificates that could be read, but for those that are the same
/// as `leaf`.
pub open spec fn links(chain: Seq<Result<Vec<u8>, String>>, leaf: Seq<u8>) -> Seq<Seq<u8>>
    decreases chain.len(),
{
    if chain.len() == 0 {
        Seq::empty()
    } else {
        let front = links(chain.drop_last(), leaf);
        match chain.last() {
            Ok(link) if link@ != leaf => front.push(link@),
            _ => front,
        }
    }
}

/// Why the first certificate of a chain that could not be read could not.
pub open spec fn first_unreadable(chain: Seq<Result<Vec<u8>, String>>) -> Option<String>
    decreases chain.len(),
{
    if chain.len() == 0 {
        None
    } else {
        match first_unreadable(chain.drop_last()) {
            Some(e) => Some(e),
            None => match chain.last() {
                Ok(_) => None,
                Err(e) => Some(e),
            },
        }
    }
}

/// What byte strings hold.
pub open spec fn held(v: Seq<Vec<u8>>) -> Seq<Seq<u8>> {
    v.map_values(|b: Vec<u8>| b@)
}

/// What texts hold.
pub open spec fn named(v: Seq<String>) -> Seq<Seq<char>> {
    v.map_values(|s: String| s@)
}

fn clone_names(names: &Vec<String>) -> (copy: Vec<String>)
    ensures
        named(copy@) == named(names@),
{
    let mut copy: Vec<String> = Vec::new();
    let mut i: usize = 0;
    while i < names.len()
        invariant
            i <= names@.len(),
            copy@.len() == i,
            forall|j: int| 0 <= j < i ==> (#[trigger] copy@[j])@ == names@[j]@,
        decreases names@.len() - i,
    {
        copy.push(names[i].clone());
        i += 1;
    }
    assert(named(copy@) =~= named(names@));
    copy
}

impl AddCertificate {
    /// Whether the parts of a certificate are what the request says: the
    /// certificate itself comes first in its chain, and once only, though many
    /// clients put it into the chain as well.
    pub open spec fn is_read(self, parts: CertificateParts) -> bool {
        let leaf = self.certificate->Ok_0@;
        let x509 = self.x509->Ok_0;
        &&& held(parts.chain@) == seq![leaf] + links(self.certificate_chain@, leaf)
        &&& named(parts.names@) == if self.names@.len() == 0 {
            named(x509.names@)
        } else {
            named(self.names@)
        }
        &&& parts.expiration == match self.expired_at {
            Some(t) => t,
            None => x509.not_after,
        }
        &&& parts.fingerprint.0@ == sha256(leaf)
        &&& Some((parts.private_key_kind, parts.private_key@)) == pem_private_key(
            utf8::encode_utf8(self.key@),
        )
    }

    /// Reads a certificate.
    pub fn read(&self) -> (r: Result<CertificateParts, CertificateResolverError>)
        ensures
            match (self.certificate, self.x509, first_unreadable(self.certificate_chain@)) {
                (Err(e), _, _) => r matches Err(CertificateResolverError::ParsePem(m)) && m == e,
                (Ok(_), Err(e), _) => r matches Err(CertificateResolverError::ParseX509(m)) && m
                    == e,
                (Ok(_), Ok(_), Some(e)) => r matches Err(CertificateResolverError::ParsePem(m)) && m
                    == e,
                (Ok(_), Ok(_), None) => if pem_private_key(
                    utf8::encode_utf8(self.key@),
                ) is None {
                    r matches Err(CertificateResolverError::EmptyKeys)
                } else {
                    r matches Ok(parts) && self.is_read(parts)
                },
            },
    {
        let leaf = match &self.certificate {
            Ok(leaf) => leaf,
            Err(e) => {
                return Err(CertificateResolverError::ParsePem(e.clone()));
            },
        };
        let x509 = match &self.x509 {
            Ok(x509) => x509,
            Err(e) => {
                return Err(CertificateResolverError::ParseX509(e.clone()));
            },
        };
        let names = if self.names.len() == 0 {
            clone_names(&x509.names)
        } else {
            clone_names(&self.names)
        };
        let expiration: i64 = match self.expired_at {
            Some(t) => t,
            None => x509.not_after,
        };
        let fingerprint = Fingerprint(sha256_digest(leaf.as_slice()));
        let mut chain: Vec<Vec<u8>> = Vec::new();
        chain.push(slice_to_vec(leaf.as_slice()));
        let ghost all = self.certificate_chain@;
        let mut i: usize = 0;
        assert(all.take(0).len() == 0);
        assert(held(chain@) =~= seq![leaf@] + links(all.take(0), leaf@));
        while i < self.certificate_chain.len()
            invariant
                i <= all.len(),
                all == self.certificate_chain@,
                held(chain@) == seq![leaf@] + links(all.take(i as int), leaf@),
                first_unreadable(all.take(i as int)) is None,
                self.certificate is Ok,
                self.x509 is Ok,
            decreases all.len() - i,
        {
            proof {
                assert(all.take(i + 1).drop_last() =~= all.take(i as int));
                assert(all.take(i + 1).last() == all[i as int]);
            }
            match &self.certificate_chain[i] {
                Ok(link) => {
                    if !same_bytes(link.as_slice(), leaf.as_slice()) {
                        let ghost before = chain@;
                        chain.push(slice_to_vec(link.as_slice()));
                        assert(held(chain@) =~= held(before).push(link@));
                        assert(held(chain@) =~= seq![leaf@] + links(all.take(i + 1), leaf@));
                    }
                },
                Err(e) => {
                    proof {
                        lemma_unreadable_prefix(all, i + 1);
                    }
                    return Err(CertificateResolverError::ParsePem(e.clone()));
                },
            }
            i += 1;
        }
        assert(all.take(all.len() as int) =~= all);
        match private_key_from_pem(self.key.as_str().as_bytes()) {
            Some((private_key_kind, private_key)) => Ok(
                CertificateParts {
                    chain,
                    names,
                    expiration,
                    fingerprint,
                    private_key_kind,
                    private_key,
                },
            ),
            None => Err(CertificateResolverError::EmptyKeys),
        }
    }
}

proof fn lemma_unreadable_prefix(chain: Seq<Result<Vec<u8>, String>>, n: int)
    requires
        0 <= n <= chain.len(),
        first_unreadable(chain.take(n)) is Some,
    ensures
        first_unreadable(chain) == first_unreadable(chain.take(n)),
    decreases chain.len(),
{
    if n == chain.len() {
        assert(chain.take(n) =~= chain);
    } else {
        assert(chain.drop_last().take(n) =~= chain.take(n));
        lemma_unreadable_prefix(chain.drop_last(), n);
    }
}

impl CertifiedKeyWrapper {
    /// A certificate that was read, with its signing key or why it has none.
    pub fn try_from(parts: CertificateParts, signing_key: Result<u64, String>) -> (r: Result<
        CertifiedKeyWrapper,
        CertificateResolverError,
    >)
        ensures
            match signing_key {
                Ok(key) => r == Ok::<CertifiedKeyWrapper, CertificateResolverError>(
                    CertifiedKeyWrapper {
                        inner: key,
                        chain: parts.chain,
                        names: parts.names,
                        expiration: parts.expiration,
                        fingerprint: parts.fingerprint,
                    },
                ),
                Err(e) => r matches Err(CertificateResolverError::InvalidPrivateKey(m)) && m == e,
            },
    {
        match signing_key {
            Ok(inner) => Ok(
                CertifiedKeyWrapper {
                    inner,
                    chain: parts.chain,
                    names: parts.names,
                    expiration: parts.expiration,
                    fingerprint: parts.fingerprint,
                },
            ),
            Err(e) => Err(CertificateResolverError::InvalidPrivateKey(e)),
        }
    }
}

/// A certificate that is good for a name: its fingerprint, and until when.
pub type Candidate = (Seq<u8>, i64);

/// What candidates are.
pub open spec fn candidates(v: Seq<(Fingerprint, i64)>) -> Seq<Candidate> {
    v.map_values(|c: (Fingerprint, i64)| (c.0.0@, c.1))
}

/// Whether candidates are in order of how long they live.
pub open spec fn by_expiration(s: Seq<Candidate>) -> bool {
    forall|i: int, j: int| 0 <= i <= j < s.len() ==> (#[trigger] s[i]).1 <= (#[trigger] s[j]).1
}

/// Where a candidate goes: behind all that do not live longer.
pub open spec fn place_for(s: Seq<Candidate>, expiration: i64) -> int
    decreases s.len(),
{
    if s.len() == 0 {
        0
    } else if s.last().1 <= expiration {
        s.len() as int
    } else {
        place_for(s.drop_last(), expiration)
    }
}

/// Candidates with another one in its place.
pub open spec fn with_candidate(s: Seq<Candidate>, c: Candidate) -> Seq<Candidate> {
    s.insert(place_for(s, c.1), c)
}

/// Candidates without a certificate.
pub open spec fn without_certificate(s: Seq<Candidate>, fingerprint: Seq<u8>) -> Seq<Candidate>
    decreases s.len(),
{
    if s.len() == 0 {
        s
    } else {
        let front = without_certificate(s.drop_last(), fingerprint);
        if s.last().0 == fingerprint {
            front
        } else {
            front.push(s.last())
        }
    }
}

/// The candidates for each name.
pub type NameIndex = Map<Seq<char>, Seq<Candidate>>;

/// The candidates for a name; none where nothing is known of it.
pub open spec fn for_name(index: NameIndex, name: Seq<char>) -> Seq<Candidate> {
    if index.dom().contains(name) {
        index[name]
    } else {
        Seq::empty()
    }
}

/// An index with a certificate added for some names.
pub open spec fn index_added(index: NameIndex, names: Seq<Seq<char>>, c: Candidate) -> NameIndex
    decreases names.len(),
{
    if names.len() == 0 {
        index
    } else {
        let before = index_added(index, names.drop_last(), c);
        before.insert(names.last(), with_candidate(for_name(before, names.last()), c))
    }
}

/// An index with a certificate removed for one name. A name without candidates
/// is not kept.
pub open spec fn name_removed(index: NameIndex, name: Seq<char>, fingerprint: Seq<u8>) -> NameIndex {
    let rest = without_certificate(index[name], fingerprint);
    if !index.dom().contains(name) {
        index
    } else if rest.len() == 0 {
        index.remove(name)
    } else {
        index.insert(name, rest)
    }
}

/// An index with a certificate removed for some names.
pub open spec fn index_removed(
    index: NameIndex,
    names: Seq<Seq<char>>,
    fingerprint: Seq<u8>,
) -> NameIndex
    decreases names.len(),
{
    if names.len() == 0 {
        index
    } else {
        name_removed(
            index_removed(index, names.drop_last(), fingerprint),
            names.last(),
            fingerprint,
        )
    }
}

/// The certificates of a listener.
#[derive(Debug)]
pub struct CertificateResolver {
    /// The certificate that is served for each name.
    pub domains: Table<Vec<u8>, Fingerprint>,
    /// The certificates, by fingerprint.
    pub certificates: Table<Vec<u8>, CertifiedKeyWrapper>,
    /// The certificates that are good for each name, the longest-lived last.
    pub name_fingerprint_idx: Table<String, Vec<(Fingerprint, i64)>>,
}

/// Whether candidates are as they must be.
pub open spec fn candidates_ok(s: Seq<Candidate>) -> bool {
    s.len() > 0 && by_expiration(s)
}

/// Whether the names are served by the longest-lived of their candidates.
pub open spec fn served_by_longest_lived(domains: Map<Seq<u8>, Fingerprint>, index: NameIndex) -> bool {
    &&& forall|name: Seq<char>| #[trigger]
        index.dom().contains(name) ==> candidates_ok(index[name]) && domains.dom().contains(
            utf8::encode_utf8(name),
        ) && domains[utf8::encode_utf8(name)].0@ == index[name].last().0
    &&& forall|key: Seq<u8>| #[trigger]
        domains.dom().contains(key) ==> exists|name: Seq<char>| #[trigger]
            index.dom().contains(name) && utf8::encode_utf8(name) == key
}

impl CertificateResolver {
    /// The candidates for each name.
    pub open spec fn index(self) -> NameIndex {
        self.name_fingerprint_idx.map().map_values(|v: Vec<(Fingerprint, i64)>| candidates(v@))
    }

    /// Whether a candidate is a certificate that is kept, and good for the name.
    pub open spec fn is_known(self, name: Seq<char>, c: Candidate) -> bool {
        &&& self.certificates.map().dom().contains(c.0)
        &&& self.certificates.map()[c.0].expiration == c.1
        &&& named(self.certificates.map()[c.0].names@).contains(name)
    }

    /// Whether all candidates are known, but for one certificate.
    pub open spec fn all_known_but(self, fingerprint: Option<Seq<u8>>) -> bool {
        forall|name: Seq<char>, i: int|
            self.index().dom().contains(name) && 0 <= i < self.index()[name].len() && Some(
                (#[trigger] self.index()[name][i]).0,
            ) != fingerprint ==> self.is_known(name, self.index()[name][i])
    }

    /// Whether a certificate is a candidate for a name.
    pub open spec fn is_candidate(index: NameIndex, name: Seq<char>, fingerprint: Seq<u8>) -> bool {
        index.dom().contains(name) && exists|i: int|
            0 <= i < index[name].len() && (#[trigger] index[name][i]).0 == fingerprint
    }

    /// Whether all certificates are candidates for their names, but for one.
    pub open spec fn all_candidates_but(self, fingerprint: Option<Seq<u8>>) -> bool {
        forall|f: Seq<u8>, name: Seq<char>|
            self.certificates.map().dom().contains(f) && named(
                self.certificates.map()[f].names@,
            ).contains(name) && Some(f) != fingerprint ==> #[trigger] Self::is_candidate(
                self.index(),
                name,
                f,
            )
    }

    /// Whether the certificates are kept under their fingerprints.
    pub open spec fn kept_by_fingerprint(self) -> bool {
        forall|f: Seq<u8>| #[trigger]
            self.certificates.map().dom().contains(f) ==> self.certificates.map()[f].fingerprint.0@
                == f
    }

    /// What every resolver meets: a name is served by the longest-lived of its
    /// candidates, and these are the certificates that have the name.
    pub open spec fn wf(self) -> bool {
        &&& self.domains.wf()
        &&& self.certificates.wf()
        &&& self.name_fingerprint_idx.wf()
        &&& served_by_longest_lived(self.domains.map(), self.index())
        &&& self.all_known_but(None)
        &&& self.all_candidates_but(None)
        &&& self.kept_by_fingerprint()
    }

    /// The certificates and the candidates with a certificate added, unless it
    /// is there.
    pub open spec fn with_certificate(self, certificate: CertifiedKeyWrapper) -> (
        Map<Seq<u8>, CertifiedKeyWrapper>,
        NameIndex,
    ) {
        let f = certificate.fingerprint.0@;
        if self.certificates.map().dom().contains(f) {
            (self.certificates.map(), self.index())
        } else {
            (
                self.certificates.map().insert(f, certificate),
                index_added(
                    self.index(),
                    named(certificate.names@),
                    (f, certificate.expiration),
                ),
            )
        }
    }

    /// A resolver without certificates.
    pub fn new() -> (r: CertificateResolver)
        ensures
            r.wf(),
            r.certificates.map() == Map::<Seq<u8>, CertifiedKeyWrapper>::empty(),
            r.index() == Map::<Seq<char>, Seq<Candidate>>::empty(),
    {
        let r = CertificateResolver {
            domains: Table::new(),
            certificates: Table::new(),
            name_fingerprint_idx: Table::new(),
        };
        assert(r.index() =~= Map::<Seq<char>, Seq<Candidate>>::empty());
        r
    }

    /// The certificate with a fingerprint.
    pub fn get_certificate(&self, fingerprint: &Fingerprint) -> (cert: Option<&CertifiedKeyWrapper>)
        requires
            self.wf(),
        ensures
            cert == if self.certificates.map().dom().contains(fingerprint.0@) {
                Some(&self.certificates.map()[fingerprint.0@])
            } else {
                None
            },
    {
        self.certificates.get(&fingerprint.0)
    }

    /// The candidates for a name after another one is added.
    fn add_name(&mut self, name: &String, fingerprint: &Fingerprint, expiration: i64)
        requires
            old(self).name_fingerprint_idx.wf(),
            old(self).domains.wf(),
            served_by_longest_lived(old(self).domains.map(), old(self).index()),
        ensures
            final(self).name_fingerprint_idx.wf(),
            final(self).domains.wf(),
            final(self).certificates == old(self).certificates,
            final(self).index() == old(self).index().insert(
                name@,
                with_candidate(for_name(old(self).index(), name@), (fingerprint.0@, expiration)),
            ),
            served_by_longest_lived(final(self).domains.map(), final(self).index()),
    {
        let ghost before = *self;
        let ghost c: Candidate = (fingerprint.0@, expiration);
        let mut list = match self.name_fingerprint_idx.remove(name) {
            Some(list) => list,
            None => Vec::new(),
        };
        let ghost known = for_name(before.index(), name@);
        assert(candidates(list@) =~= known);
        let mut place: usize = list.len();
        assert(known.take(known.len() as int) =~= known);
        while place > 0 && list[place - 1].1 > expiration
            invariant
                place <= list@.len(),
                known == candidates(list@),
                place_for(known, expiration) == place_for(known.take(place as int), expiration),
            decreases place,
        {
            assert(known.take(place as int).last() == known[place - 1]);
            assert(known.take(place as int).drop_last() =~= known.take(place - 1));
            place -= 1;
        }
        proof {
            if place > 0 {
                assert(known.take(place as int).last() == known[place - 1]);
            }
            assert(place_for(known, expiration) == place);
            if known.len() > 0 {
                lemma_insert_by_expiration(known, c);
            }
        }
        list.insert(place, (Fingerprint(slice_to_vec(fingerprint.0.as_slice())), expiration));
        let ghost listed = candidates(list@);
        assert(listed =~= with_candidate(known, c));
        let last: usize = list.len() - 1;
        let longest_lived = Fingerprint(slice_to_vec(list[last].0.0.as_slice()));
        assert(longest_lived.0@ == listed.last().0);
        let ghost value = list;
        self.name_fingerprint_idx.insert(name.clone(), list);
        self.domains.insert(name.as_str().as_bytes_vec(), longest_lived);
        proof {
            assert(self.name_fingerprint_idx.map() =~= before.name_fingerprint_idx.map().insert(
                name@,
                value,
            ));
            assert(self.index() =~= before.index().insert(name@, listed));
            lemma_served_after_insert(
                before.domains.map(),
                before.index(),
                name@,
                listed,
                longest_lived,
            );
        }
    }

    /// Adds a certificate, unless it is there. The names that it is for are
    /// served by it from now on, unless another one lives longer.
    pub fn add_certificate(&mut self, certificate: CertifiedKeyWrapper) -> (fingerprint:
        Fingerprint)
        requires
            old(self).wf(),
        ensures
            final(self).wf(),
            fingerprint.0@ == certificate.fingerprint.0@,
            old(self).certificates.map().dom().contains(certificate.fingerprint.0@)
                ==> *final(self) == *old(self),
            final(self).certificates.map() == old(self).with_certificate(certificate).0,
            final(self).index() == old(self).with_certificate(certificate).1,
    {
        let fingerprint = Fingerprint(slice_to_vec(certificate.fingerprint.0.as_slice()));
        if self.certificates.position(&certificate.fingerprint.0).is_some() {
            return fingerprint;
        }
        let ghost before = *self;
        let ghost f = fingerprint.0@;
        let ghost c: Candidate = (f, certificate.expiration);
        let ghost names = named(certificate.names@);
        let mut i: usize = 0;
        proof {
            assert(names.take(0).len() == 0);
            assert forall|name: Seq<char>, k: int|
                before.index().dom().contains(name) && 0 <= k < before.index()[name].len() implies (
            #[trigger] before.index()[name][k]).0 != f by {
                assert(before.is_known(name, before.index()[name][k]));
            }
        }
        while i < certificate.names.len()
            invariant
                i <= certificate.names@.len(),
                names == named(certificate.names@),
                f == fingerprint.0@,
                c == (f, certificate.expiration),
                before.wf(),
                self.certificates == before.certificates,
                self.name_fingerprint_idx.wf(),
                self.domains.wf(),
                served_by_longest_lived(self.domains.map(), self.index()),
                self.index() == index_added(before.index(), names.take(i as int), c),
            decreases certificate.names@.len() - i,
        {
            proof {
                assert(names.take(i + 1).drop_last() =~= names.take(i as int));
                assert(names.take(i + 1).last() == certificate.names@[i as int]@);
            }
            self.add_name(&certificate.names[i], &fingerprint, certificate.expiration);
            i += 1;
        }
        proof {
            assert(names.take(names.len() as int) =~= names);
        }
        let ghost value = certificate;
        self.certificates.insert(slice_to_vec(certificate.fingerprint.0.as_slice()), certificate);
        proof {
            lemma_added_is_wf(before, *self, value);
        }
        fingerprint
    }

    /// The candidates for a name after one is removed.
    fn remove_name(&mut self, name: &String, fingerprint: &Fingerprint)
        requires
            old(self).name_fingerprint_idx.wf(),
            old(self).domains.wf(),
            served_by_longest_lived(old(self).domains.map(), old(self).index()),
        ensures
            final(self).name_fingerprint_idx.wf(),
            final(self).domains.wf(),
            final(self).certificates == old(self).certificates,
            final(self).index() == name_removed(old(self).index(), name@, fingerprint.0@),
            served_by_longest_lived(final(self).domains.map(), final(self).index()),
    {
        let ghost before = *self;
        let key = name.as_str().as_bytes_vec();
        let _ = self.domains.remove(&key);
        let list = match self.name_fingerprint_idx.remove(name) {
            Some(list) => list,
            None => {
                proof {
                    assert(self.name_fingerprint_idx.map() =~= before.name_fingerprint_idx.map());
                    assert(self.index() =~= before.index());
                    lemma_served_without_unknown(before.domains.map(), before.index(), name@);
                }
                return ;
            },
        };
        let ghost known = before.index()[name@];
        assert(before.index().dom().contains(name@));
        assert(candidates(list@) =~= known);
        let rest = retain_others(list, fingerprint);
        let ghost left = candidates(rest@);
        proof {
            lemma_without_keeps_order(known, fingerprint.0@);
        }
        if rest.len() == 0 {
            proof {
                assert(self.index() =~= before.index().remove(name@));
                lemma_served_after_remove(before.domains.map(), before.index(), name@);
            }
        } else {
            let last: usize = rest.len() - 1;
            let longest_lived = Fingerprint(slice_to_vec(rest[last].0.0.as_slice()));
            assert(longest_lived.0@ == left.last().0);
            let ghost value = rest;
            self.domains.insert(key, longest_lived);
            self.name_fingerprint_idx.insert(name.clone(), rest);
            proof {
                assert(self.name_fingerprint_idx.map() =~= before.name_fingerprint_idx.map().insert(
                    name@,
                    value,
                ));
                assert(self.index() =~= before.index().insert(name@, left));
                assert(self.domains.map() =~= before.domains.map().insert(
                    utf8::encode_utf8(name@),
                    longest_lived,
                ));
                lemma_served_after_insert(
                    before.domains.map(),
                    before.index(),
                    name@,
                    left,
                    longest_lived,
                );
            }
        }
    }

    /// Removes a certificate, if it is there. Its names are served by the
    /// longest-lived of the others that are good for them.
    pub fn remove_certificate(&mut self, fingerprint: &Fingerprint) -> (r: Result<
        (),
        CertificateResolverError,
    >)
        requires
            old(self).wf(),
        ensures
            r is Ok,
            final(self).wf(),
            final(self).certificates.map() == old(self).certificates.map().remove(fingerprint.0@),
            final(self).index() == if old(self).certificates.map().dom().contains(fingerprint.0@) {
                index_removed(
                    old(self).index(),
                    named(old(self).certificates.map()[fingerprint.0@].names@),
                    fingerprint.0@,
                )
            } else {
                old(self).index()
            },
    {
        let ghost before = *self;
        let ghost f = fingerprint.0@;
        let certificate = match self.certificates.remove(&fingerprint.0) {
            Some(certificate) => certificate,
            None => {
                proof {
                    assert(self.certificates.map() =~= before.certificates.map());
                    lemma_same_maps_are_wf(before, *self);
                }
                return Ok(());
            },
        };
        let ghost names = named(certificate.names@);
        let ghost rest = self.certificates;
        let mut i: usize = 0;
        assert(names.take(0).len() == 0);
        while i < certificate.names.len()
            invariant
                i <= certificate.names@.len(),
                names == named(certificate.names@),
                f == fingerprint.0@,
                self.certificates == rest,
                self.name_fingerprint_idx.wf(),
                self.domains.wf(),
                served_by_longest_lived(self.domains.map(), self.index()),
                self.index() == index_removed(before.index(), names.take(i as int), f),
            decreases certificate.names@.len() - i,
        {
            proof {
                assert(names.take(i + 1).drop_last() =~= names.take(i as int));
                assert(names.take(i + 1).last() == certificate.names@[i as int]@);
            }
            self.remove_name(&certificate.names[i], fingerprint);
            i += 1;
        }
        proof {
            assert(names.take(names.len() as int) =~= names);
            lemma_removed_is_wf(before, *self, f);
        }
        Ok(())
    }

    /// Replaces a certificate. The new one is added before the old one is
    /// removed, so that there is always one to serve, and the new one is there
    /// afterwards. A certificate that is replaced by itself stays, and so does
    /// one that is not named properly.
    pub fn replace_certificate(
        &mut self,
        certificate: CertifiedKeyWrapper,
        old_fingerprint: Option<Fingerprint>,
    ) -> (fingerprint: Fingerprint)
        requires
            old(self).wf(),
        ensures
            final(self).wf(),
            fingerprint.0@ == certificate.fingerprint.0@,
            final(self).certificates.map().dom().contains(fingerprint.0@),
            ({
                let new = certificate.fingerprint.0@;
                let (certificates, index) = old(self).with_certificate(certificate);
                match old_fingerprint {
                    Some(f) => if f.0@ == new && old(
                        self,
                    ).certificates.map().dom().contains(new) {
                        *final(self) == *old(self)
                    } else if f.0@ != new && certificates.dom().contains(f.0@) {
                        &&& final(self).certificates.map() == certificates.remove(f.0@)
                        &&& final(self).index() == index_removed(
                            index,
                            named(certificates[f.0@].names@),
                            f.0@,
                        )
                    } else {
                        &&& final(self).certificates.map() == certificates
                        &&& final(self).index() == index
                    },
                    None => {
                        &&& final(self).certificates.map() == certificates
                        &&& final(self).index() == index
                    },
                }
            }),
    {
        let new = Fingerprint(slice_to_vec(certificate.fingerprint.0.as_slice()));
        match old_fingerprint {
            Some(old_fingerprint) => {
                let same = same_bytes(old_fingerprint.0.as_slice(), new.0.as_slice());
                if same && self.get_certificate(&new).is_some() {
                    return new;
                }
                let _ = self.add_certificate(certificate);
                if !same {
                    let _ = self.remove_certificate(&old_fingerprint);
                }
            },
            None => {
                let _ = self.add_certificate(certificate);
            },
        }
        new
    }

    /// The certificate that is served for a name, with the name that it is kept
    /// under.
    pub fn domain_lookup(&self, domain: &[u8], accept_wildcard: bool) -> (found: Option<
        (Vec<u8>, &Fingerprint),
    >)
        requires
            self.wf(),
        ensures
            found is Some <==> sni_routes::matched_key(
                self.domains.map().dom(),
                domain@,
                accept_wildcard,
            ) is Some,
            found matches Some(f) ==> Some(f.0@) == sni_routes::matched_key(
                self.domains.map().dom(),
                domain@,
                accept_wildcard,
            ) && *f.1 == self.domains.map()[f.0@],
    {
        match find_key(&self.domains, domain, accept_wildcard) {
            Some(key) => match self.domains.get(&key) {
                Some(fingerprint) => Some((key, fingerprint)),
                None => None,
            },
            None => None,
        }
    }

    /// The names of the certificate that is served for a name, as they are kept.
    pub fn names_for_sni(&self, domain: &[u8]) -> (names: Option<Vec<String>>)
        requires
            self.wf(),
        ensures
            names is Some <==> sni_routes::matched_key(
                self.domains.map().dom(),
                domain@,
                true,
            ) is Some,
            names matches Some(n) ==> {
                let key = sni_routes::matched_key(self.domains.map().dom(), domain@, true)->0;
                named(n@) == named(
                    self.certificates.map()[self.domains.map()[key].0@].names@,
                )
            },
    {
        match self.domain_lookup(domain, true) {
            Some(found) => {
                proof {
                    self.lemma_served_is_kept(found.0@);
                }
                match self.certificates.get(&found.1.0) {
                    Some(certificate) => Some(clone_names(&certificate.names)),
                    None => None,
                }
            },
            None => None,
        }
    }

    /// What is served to a client that asks for a name.
    pub fn resolve(&self, server_name: Option<&[u8]>) -> (resolution: Resolution)
        requires
            self.wf(),
        ensures
            resolution == match server_name {
                None => Resolution::NoName,
                Some(name) => match sni_routes::matched_key(
                    self.domains.map().dom(),
                    name@,
                    true,
                ) {
                    Some(key) => Resolution::Certificate(
                        self.certificates.map()[self.domains.map()[key].0@].inner,
                    ),
                    None => Resolution::Default,
                },
            },
    {
        let name = match server_name {
            Some(name) => name,
            None => {
                return Resolution::NoName;
            },
        };
        match self.domain_lookup(name, true) {
            Some(found) => {
                proof {
                    self.lemma_served_is_kept(found.0@);
                }
                match self.certificates.get(&found.1.0) {
                    Some(certificate) => Resolution::Certificate(certificate.inner),
                    None => Resolution::Default,
                }
            },
            None => Resolution::Default,
        }
    }

    /// What is served is kept.
    pub proof fn lemma_served_is_kept(self, key: Seq<u8>)
        requires
            self.wf(),
            self.domains.map().dom().contains(key),
        ensures
            self.certificates.map().dom().contains(self.domains.map()[key].0@),
    {
        let name = choose|name: Seq<char>| #[trigger]
            self.index().dom().contains(name) && utf8::encode_utf8(name) == key;
        let last = self.index()[name].len() - 1;
        assert(self.is_known(name, self.index()[name][last]));
    }

    /// The names of a certificate; none where it is not there.
    pub fn certificate_names(&self, fingerprint: &Fingerprint) -> (names: Vec<String>)
        requires
            self.wf(),
        ensures
            named(names@) == if self.certificates.map().dom().contains(fingerprint.0@) {
                named(self.certificates.map()[fingerprint.0@].names@)
            } else {
                Seq::empty()
            },
    {
        match self.certificates.get(&fingerprint.0) {
            Some(certificate) => clone_names(&certificate.names),
            None => {
                let names: Vec<String> = Vec::new();
                assert(named(names@) =~= Seq::<Seq<char>>::empty());
                names
            },
        }
    }

    /// The certificates that are good for one of the names, each once.
    pub fn find_certificates_by_names(&self, names: &Vec<String>) -> (found: Vec<Fingerprint>)
        requires
            self.wf(),
        ensures
            fingerprints(found@).no_duplicates(),
            forall|f: Seq<u8>| #[trigger]
                fingerprints(found@).contains(f) <==> Self::is_good_for_one_of(
                    self.index(),
                    named(names@),
                    f,
                ),
    {
        let mut found: Vec<Fingerprint> = Vec::new();
        let ghost all = named(names@);
        let mut i: usize = 0;
        while i < names.len()
            invariant
                i <= names@.len(),
                all == named(names@),
                self.wf(),
                fingerprints(found@).no_duplicates(),
                forall|f: Seq<u8>| #[trigger]
                    fingerprints(found@).contains(f) <==> Self::is_good_for_one_of(
                        self.index(),
                        all.take(i as int),
                        f,
                    ),
            decreases names@.len() - i,
        {
            let ghost before = found@;
            let ghost name = names@[i as int]@;
            if let Some(list) = self.name_fingerprint_idx.get(&names[i]) {
                let ghost listed = self.index()[name];
                assert(self.index().dom().contains(name));
                assert(candidates(list@) == listed);
                let mut j: usize = 0;
                while j < list.len()
                    invariant
                        j <= list@.len(),
                        candidates(list@) == listed,
                        fingerprints(found@).no_duplicates(),
                        forall|f: Seq<u8>| #[trigger]
                            fingerprints(found@).contains(f) <==> fingerprints(before).contains(f)
                                || exists|k: int| 0 <= k < j && (#[trigger] listed[k]).0 == f,
                    decreases list@.len() - j,
                {
                    let ghost current = fingerprints(found@);
                    assert(listed[j as int].0 == list@[j as int].0.0@);
                    if !has_fingerprint(&found, &list[j].0) {
                        found.push(Fingerprint(slice_to_vec(list[j].0.0.as_slice())));
                        assert(fingerprints(found@) =~= current.push(listed[j as int].0));
                    }
                    proof {
                        assert forall|f: Seq<u8>| #[trigger]
                            fingerprints(found@).contains(f) <==> current.contains(f) || f
                                == listed[j as int].0 by {
                            lemma_push_contains(current, listed[j as int].0, f);
                        }
                    }
                    j += 1;
                }
            }
            proof {
                assert forall|f: Seq<u8>| #[trigger]
                    fingerprints(found@).contains(f) <==> Self::is_good_for_one_of(
                        self.index(),
                        all.take(i + 1),
                        f,
                    ) by {
                    Self::lemma_good_for_one_more(self.index(), all, i as int, f);
                    if Self::is_candidate(self.index(), name, f) {
                        let listed = self.index()[name];
                        let k = choose|k: int|
                            0 <= k < listed.len() && (#[trigger] listed[k]).0 == f;
                        assert(listed[k].0 == f);
                    }
                }
            }
            i += 1;
        }
        assert(all.take(all.len() as int) =~= all);
        found
    }

    /// Whether a certificate is good for one of the names.
    pub open spec fn is_good_for_one_of(
        index: NameIndex,
        names: Seq<Seq<char>>,
        fingerprint: Seq<u8>,
    ) -> bool {
        exists|i: int|
            0 <= i < names.len() && Self::is_candidate(index, #[trigger] names[i], fingerprint)
    }

    proof fn lemma_good_for_one_more(
        index: NameIndex,
        names: Seq<Seq<char>>,
        i: int,
        fingerprint: Seq<u8>,
    )
        requires
            0 <= i < names.len(),
        ensures
            Self::is_good_for_one_of(index, names.take(i + 1), fingerprint)
                <==> Self::is_good_for_one_of(index, names.take(i), fingerprint)
                || Self::is_candidate(index, names[i], fingerprint),
    {
        let before = names.take(i);
        let after = names.take(i + 1);
        if Self::is_good_for_one_of(index, before, fingerprint) {
            let k = choose|k: int|
                0 <= k < before.len() && Self::is_candidate(
                    index,
                    #[trigger] before[k],
                    fingerprint,
                );
            assert(Self::is_candidate(index, after[k], fingerprint));
        }
        if Self::is_good_for_one_of(index, after, fingerprint) {
            let k = choose|k: int|
                0 <= k < after.len() && Self::is_candidate(index, #[trigger] after[k], fingerprint);
            if k < i {
                assert(Self::is_candidate(index, before[k], fingerprint));
            }
        }
        if Self::is_candidate(index, names[i], fingerprint) {
            assert(Self::is_candidate(index, after[i], fingerprint));
        }
    }

    /// When the first of the certificates expires, in seconds since 1970; those
    /// that expired before count as zero. Nothing without certificates: that is
    /// not to be taken for one that expired.
    pub fn min_expires_at_seconds(&self) -> (seconds: Option<u64>)
        requires
            self.wf(),
        ensures
            seconds is None <==> self.certificates.map() == Map::<
                Seq<u8>,
                CertifiedKeyWrapper,
            >::empty(),
            seconds matches Some(s) ==> {
                &&& forall|f: Seq<u8>| #[trigger]
                    self.certificates.map().dom().contains(f) ==> s <= at_least_zero(
                        self.certificates.map()[f].expiration,
                    )
                &&& exists|f: Seq<u8>| #[trigger]
                    self.certificates.map().dom().contains(f) && s == at_least_zero(
                        self.certificates.map()[f].expiration,
                    )
            },
    {
        if self.certificates.is_empty() {
            return None;
        }
        let entries = &self.certificates.entries;
        proof {
            if entries@.len() == 0 {
                assert(self.certificates.map() =~= Map::<Seq<u8>, CertifiedKeyWrapper>::empty());
            }
        }
        let mut least: i64 = entries[0].1.expiration;
        let ghost mut at: int = 0;
        let mut i: usize = 1;
        while i < entries.len()
            invariant
                1 <= i <= entries@.len(),
                *entries == self.certificates.entries,
                0 <= at < i,
                least == entries@[at].1.expiration,
                forall|j: int| 0 <= j < i ==> least <= (#[trigger] entries@[j]).1.expiration,
            decreases entries@.len() - i,
        {
            if entries[i].1.expiration < least {
                least = entries[i].1.expiration;
                proof {
                    at = i as int;
                }
            }
            i += 1;
        }
        let seconds: u64 = if least > 0 {
            least as u64
        } else {
            0
        };
        proof {
            self.certificates.lemma_entry(at);
            assert forall|f: Seq<u8>| #[trigger]
                self.certificates.map().dom().contains(f) implies seconds <= at_least_zero(
                self.certificates.map()[f].expiration,
            ) by {
                let j = choose|j: int| #[trigger] self.certificates.at(j, f);
                self.certificates.lemma_entry(j);
                assert(least <= entries@[j].1.expiration);
            }
            assert(self.certificates.map().dom().contains(entries@[at].0@));
        }
        Some(seconds)
    }
}

/// What fingerprints are.
pub open spec fn fingerprints(v: Seq<Fingerprint>) -> Seq<Seq<u8>> {
    v.map_values(|f: Fingerprint| f.0@)
}

proof fn lemma_push_contains(s: Seq<Seq<u8>>, last: Seq<u8>, f: Seq<u8>)
    ensures
        s.push(last).contains(f) <==> s.contains(f) || f == last,
{
    let after = s.push(last);
    if s.contains(f) {
        let k = choose|k: int| 0 <= k < s.len() && s[k] == f;
        assert(after[k] == f);
    }
    if after.contains(f) {
        let k = choose|k: int| 0 <= k < after.len() && after[k] == f;
        if k < s.len() {
            assert(s[k] == f);
        }
    }
    assert(after[s.len() as int] == last);
}

fn has_fingerprint(list: &Vec<Fingerprint>, fingerprint: &Fingerprint) -> (has: bool)
    ensures
        has == fingerprints(list@).contains(fingerprint.0@),
{
    let mut i: usize = 0;
    while i < list.len()
        invariant
            i <= list@.len(),
            forall|j: int| 0 <= j < i ==> (#[trigger] list@[j]).0@ != fingerprint.0@,
        decreases list@.len() - i,
    {
        if same_bytes(list[i].0.as_slice(), fingerprint.0.as_slice()) {
            assert(fingerprints(list@)[i as int] == fingerprint.0@);
            return true;
        }
        i += 1;
    }
    assert(!fingerprints(list@).contains(fingerprint.0@)) by {
        if fingerprints(list@).contains(fingerprint.0@) {
            let k = choose|k: int|
                0 <= k < fingerprints(list@).len() && fingerprints(list@)[k] == fingerprint.0@;
            assert(list@[k].0@ == fingerprint.0@);
        }
    }
    false
}

/// A time, or zero where it is before 1970.
pub open spec fn at_least_zero(t: i64) -> int {
    if t > 0 {
        t as int
    } else {
        0
    }
}

/// Candidates without a certificate.
fn retain_others(list: Vec<(Fingerprint, i64)>, fingerprint: &Fingerprint) -> (rest: Vec<
    (Fingerprint, i64),
>)
    ensures
        candidates(rest@) == without_certificate(candidates(list@), fingerprint.0@),
{
    let ghost all = candidates(list@);
    let mut rest: Vec<(Fingerprint, i64)> = Vec::new();
    let mut i: usize = 0;
    assert(all.take(0).len() == 0);
    assert(candidates(rest@) =~= without_certificate(all.take(0), fingerprint.0@));
    while i < list.len()
        invariant
            i <= list@.len(),
            all == candidates(list@),
            candidates(rest@) == without_certificate(all.take(i as int), fingerprint.0@),
        decreases list@.len() - i,
    {
        proof {
            assert(all.take(i + 1).drop_last() =~= all.take(i as int));
            assert(all.take(i + 1).last() == all[i as int]);
            assert(all[i as int] == (list@[i as int].0.0@, list@[i as int].1));
        }
        if !same_bytes(list[i].0.0.as_slice(), fingerprint.0.as_slice()) {
            let ghost before = rest@;
            rest.push((Fingerprint(slice_to_vec(list[i].0.0.as_slice())), list[i].1));
            assert(candidates(rest@) =~= candidates(before).push(all[i as int]));
        }
        i += 1;
    }
    assert(all.take(all.len() as int) =~= all);
    rest
}

proof fn lemma_place_for(s: Seq<Candidate>, expiration: i64)
    requires
        by_expiration(s),
    ensures
        0 <= place_for(s, expiration) <= s.len(),
        forall|i: int| 0 <= i < place_for(s, expiration) ==> (#[trigger] s[i]).1 <= expiration,
        forall|i: int|
            place_for(s, expiration) <= i < s.len() ==> (#[trigger] s[i]).1 > expiration,
    decreases s.len(),
{
    if s.len() > 0 {
        let front = s.drop_last();
        assert forall|i: int, j: int| 0 <= i <= j < front.len() implies (#[trigger] front[i]).1 <= (
        #[trigger] front[j]).1 by {
            assert(s[i].1 <= s[j].1);
        }
        lemma_place_for(front, expiration);
        let last = s.len() - 1;
        assert forall|i: int| 0 <= i < s.len() implies (#[trigger] s[i]).1 <= s[last].1 by {}
        if s.last().1 > expiration {
            assert forall|i: int| 0 <= i < place_for(front, expiration) implies (
            #[trigger] s[i]).1 <= expiration by {
                assert(front[i] == s[i]);
            }
            assert forall|i: int| place_for(front, expiration) <= i < s.len() implies (
            #[trigger] s[i]).1 > expiration by {
                if i < front.len() {
                    assert(front[i] == s[i]);
                }
            }
        }
    }
}

proof fn lemma_insert_by_expiration(s: Seq<Candidate>, c: Candidate)
    requires
        by_expiration(s),
    ensures
        by_expiration(with_candidate(s, c)),
{
    lemma_place_for(s, c.1);
    let p = place_for(s, c.1);
    let after = with_candidate(s, c);
    assert forall|i: int, j: int| 0 <= i <= j < after.len() implies (#[trigger] after[i]).1 <= (
    #[trigger] after[j]).1 by {
        let a = if i < p {
            i
        } else {
            i - 1
        };
        let b = if j < p {
            j
        } else {
            j - 1
        };
        if i == p && j == p {
        } else if i == p {
            assert(s[b].1 > c.1);
        } else if j == p {
            assert(s[a].1 <= c.1);
        } else {
            assert(s[a].1 <= s[b].1);
        }
    }
}

/// Removing a certificate keeps the order, and takes nothing else.
proof fn lemma_without_keeps_order(s: Seq<Candidate>, f: Seq<u8>)
    requires
        by_expiration(s),
    ensures
        by_expiration(without_certificate(s, f)),
        forall|c: Candidate| #[trigger]
            without_certificate(s, f).contains(c) <==> s.contains(c) && c.0 != f,
    decreases s.len(),
{
    let rest = without_certificate(s, f);
    if s.len() == 0 {
        assert forall|c: Candidate| #[trigger] rest.contains(c) <==> s.contains(c) && c.0
            != f by {}
    } else {
        let front = s.drop_last();
        assert forall|i: int, j: int| 0 <= i <= j < front.len() implies (#[trigger] front[i]).1 <= (
        #[trigger] front[j]).1 by {
            assert(s[i].1 <= s[j].1);
        }
        lemma_without_keeps_order(front, f);
        let kept = without_certificate(front, f);
        let last = s.len() - 1;
        assert forall|c: Candidate| #[trigger] rest.contains(c) <==> s.contains(c) && c.0 != f by {
            if rest.contains(c) {
                let k = choose|k: int| 0 <= k < rest.len() && rest[k] == c;
                if k < kept.len() {
                    assert(kept[k] == c);
                    assert(kept.contains(c));
                    let m = choose|m: int| 0 <= m < front.len() && front[m] == c;
                    assert(s[m] == c);
                } else {
                    assert(s[last] == c);
                }
            }
            if s.contains(c) && c.0 != f {
                let m = choose|m: int| 0 <= m < s.len() && s[m] == c;
                if m < last {
                    assert(front[m] == c);
                    assert(front.contains(c));
                    assert(kept.contains(c));
                    let k = choose|k: int| 0 <= k < kept.len() && kept[k] == c;
                    assert(rest[k] == c);
                } else {
                    assert(rest[rest.len() - 1] == c);
                }
            }
        }
        assert forall|i: int, j: int| 0 <= i <= j < rest.len() implies (#[trigger] rest[i]).1 <= (
        #[trigger] rest[j]).1 by {
            if j < kept.len() {
                assert(kept[i].1 <= kept[j].1);
            } else if i < kept.len() {
                assert(kept.contains(kept[i]));
                let m = choose|m: int| 0 <= m < front.len() && front[m] == kept[i];
                assert(s[m].1 <= s[last].1);
            }
        }
    }
}

proof fn lemma_name_of_key(a: Seq<char>, b: Seq<char>)
    requires
        utf8::encode_utf8(a) == utf8::encode_utf8(b),
    ensures
        a == b,
{
    utf8::encode_utf8_decode_utf8(a);
    utf8::encode_utf8_decode_utf8(b);
}

proof fn lemma_served_after_insert(
    domains: Map<Seq<u8>, Fingerprint>,
    index: NameIndex,
    name: Seq<char>,
    list: Seq<Candidate>,
    longest_lived: Fingerprint,
)
    requires
        served_by_longest_lived(domains, index),
        candidates_ok(list),
        longest_lived.0@ == list.last().0,
    ensures
        served_by_longest_lived(
            domains.insert(utf8::encode_utf8(name), longest_lived),
            index.insert(name, list),
        ),
{
    let key = utf8::encode_utf8(name);
    let d = domains.insert(key, longest_lived);
    let x = index.insert(name, list);
    assert forall|n: Seq<char>| #[trigger] x.dom().contains(n) implies candidates_ok(x[n])
        && d.dom().contains(utf8::encode_utf8(n)) && d[utf8::encode_utf8(n)].0@
        == x[n].last().0 by {
        if n != name {
            assert(index.dom().contains(n));
            if utf8::encode_utf8(n) == key {
                lemma_name_of_key(n, name);
            }
        }
    }
    assert forall|k: Seq<u8>| #[trigger] d.dom().contains(k) implies exists|n: Seq<char>|
     #[trigger]
        x.dom().contains(n) && utf8::encode_utf8(n) == k by {
        if k == key {
            assert(x.dom().contains(name));
        } else {
            assert(domains.dom().contains(k));
            let n = choose|n: Seq<char>| #[trigger]
                index.dom().contains(n) && utf8::encode_utf8(n) == k;
            assert(x.dom().contains(n));
        }
    }
}

proof fn lemma_served_after_remove(
    domains: Map<Seq<u8>, Fingerprint>,
    index: NameIndex,
    name: Seq<char>,
)
    requires
        served_by_longest_lived(domains, index),
    ensures
        served_by_longest_lived(domains.remove(utf8::encode_utf8(name)), index.remove(name)),
{
    let key = utf8::encode_utf8(name);
    let d = domains.remove(key);
    let x = index.remove(name);
    assert forall|n: Seq<char>| #[trigger] x.dom().contains(n) implies candidates_ok(x[n])
        && d.dom().contains(utf8::encode_utf8(n)) && d[utf8::encode_utf8(n)].0@
        == x[n].last().0 by {
        assert(index.dom().contains(n));
        if utf8::encode_utf8(n) == key {
            lemma_name_of_key(n, name);
        }
    }
    assert forall|k: Seq<u8>| #[trigger] d.dom().contains(k) implies exists|n: Seq<char>|
     #[trigger]
        x.dom().contains(n) && utf8::encode_utf8(n) == k by {
        assert(domains.dom().contains(k));
        let n = choose|n: Seq<char>| #[trigger]
            index.dom().contains(n) && utf8::encode_utf8(n) == k;
        assert(x.dom().contains(n));
    }
}

proof fn lemma_served_without_unknown(
    domains: Map<Seq<u8>, Fingerprint>,
    index: NameIndex,
    name: Seq<char>,
)
    requires
        served_by_longest_lived(domains, index),
        !index.dom().contains(name),
    ensures
        served_by_longest_lived(domains.remove(utf8::encode_utf8(name)), index),
{
    lemma_served_after_remove(domains, index, name);
    assert(index.remove(name) =~= index);
}

/// What an index says of a name after a certificate was added for some.
proof fn lemma_added_at(index: NameIndex, names: Seq<Seq<char>>, c: Candidate, name: Seq<char>)
    ensures
        index_added(index, names, c).dom().contains(name) <==> index.dom().contains(name)
            || names.contains(name),
        forall|x: Candidate| #[trigger]
            for_name(index_added(index, names, c), name).contains(x) <==> for_name(
                index,
                name,
            ).contains(x) || (x == c && names.contains(name)),
    decreases names.len(),
{
    if names.len() > 0 {
        let front = names.drop_last();
        let before = index_added(index, front, c);
        let after = index_added(index, names, c);
        lemma_added_at(index, front, c, name);
        let last = names.len() - 1;
        assert(names.contains(name) <==> front.contains(name) || names[last] == name) by {
            if front.contains(name) {
                let k = choose|k: int| 0 <= k < front.len() && front[k] == name;
                assert(names[k] == name);
            }
            if names.contains(name) {
                let k = choose|k: int| 0 <= k < names.len() && names[k] == name;
                if k < last {
                    assert(front[k] == name);
                }
            }
        }
        if names[last] == name {
            let s = for_name(before, name);
            lemma_with_candidate(s, c);
            assert(for_name(after, name) == with_candidate(s, c));
        } else {
            assert(for_name(after, name) == for_name(before, name));
        }
    }
}

/// Putting a candidate in its place adds it and nothing else.
proof fn lemma_with_candidate(s: Seq<Candidate>, c: Candidate)
    ensures
        0 <= place_for(s, c.1) <= s.len(),
        forall|x: Candidate| #[trigger] with_candidate(s, c).contains(x) <==> s.contains(x) || x
            == c,
{
    lemma_place_in_range(s, c.1);
    let p = place_for(s, c.1);
    let after = with_candidate(s, c);
    assert forall|x: Candidate| #[trigger] after.contains(x) <==> s.contains(x) || x == c by {
        if after.contains(x) {
            let k = choose|k: int| 0 <= k < after.len() && after[k] == x;
            if k < p {
                assert(s[k] == x);
            } else if k > p {
                assert(s[k - 1] == x);
            }
        }
        if s.contains(x) {
            let k = choose|k: int| 0 <= k < s.len() && s[k] == x;
            if k < p {
                assert(after[k] == x);
            } else {
                assert(after[k + 1] == x);
            }
        }
        assert(after[p] == c);
    }
}

proof fn lemma_place_in_range(s: Seq<Candidate>, expiration: i64)
    ensures
        0 <= place_for(s, expiration) <= s.len(),
    decreases s.len(),
{
    if s.len() > 0 && s.last().1 > expiration {
        lemma_place_in_range(s.drop_last(), expiration);
    }
}

/// What an index says of a name after a certificate was removed for some.
proof fn lemma_removed_at(index: NameIndex, names: Seq<Seq<char>>, f: Seq<u8>, name: Seq<char>)
    requires
        index.dom().contains(name) ==> candidates_ok(index[name]),
    ensures
        !names.contains(name) ==> (index_removed(index, names, f).dom().contains(name)
            == index.dom().contains(name)) && for_name(index_removed(index, names, f), name)
            == for_name(index, name),
        names.contains(name) ==> for_name(index_removed(index, names, f), name)
            == without_certificate(for_name(index, name), f),
        index_removed(index, names, f).dom().contains(name) ==> index.dom().contains(name)
            && candidates_ok(index_removed(index, names, f)[name]),
    decreases names.len(),
{
    if names.len() > 0 {
        let front = names.drop_last();
        let before = index_removed(index, front, f);
        let after = index_removed(index, names, f);
        lemma_removed_at(index, front, f, name);
        let last = names.len() - 1;
        assert(names.contains(name) <==> front.contains(name) || names[last] == name) by {
            if front.contains(name) {
                let k = choose|k: int| 0 <= k < front.len() && front[k] == name;
                assert(names[k] == name);
            }
            if names.contains(name) {
                let k = choose|k: int| 0 <= k < names.len() && names[k] == name;
                if k < last {
                    assert(front[k] == name);
                }
            }
        }
        if names[last] == name {
            let s = for_name(before, name);
            assert(by_expiration(s));
            lemma_without_keeps_order(s, f);
            lemma_without_twice(for_name(index, name), f);
            if before.dom().contains(name) {
                assert(for_name(after, name) =~= without_certificate(s, f));
            } else {
                assert(without_certificate(s, f) =~= s);
                assert(for_name(after, name) =~= s);
            }
        } else {
            assert(for_name(after, name) == for_name(before, name));
            assert(after.dom().contains(name) == before.dom().contains(name));
        }
    }
}

proof fn lemma_without_twice(s: Seq<Candidate>, f: Seq<u8>)
    ensures
        without_certificate(without_certificate(s, f), f) == without_certificate(s, f),
    decreases s.len(),
{
    if s.len() > 0 {
        lemma_without_twice(s.drop_last(), f);
        let front = without_certificate(s.drop_last(), f);
        if s.last().0 != f {
            assert(front.push(s.last()).drop_last() =~= front);
        }
    }
}

proof fn lemma_same_maps_are_wf(a: CertificateResolver, b: CertificateResolver)
    requires
        a.wf(),
        b.certificates.wf(),
        b.certificates.map() == a.certificates.map(),
        b.domains == a.domains,
        b.name_fingerprint_idx == a.name_fingerprint_idx,
    ensures
        b.wf(),
{
    assert(b.index() == a.index());
    assert forall|name: Seq<char>, i: int|
        b.index().dom().contains(name) && 0 <= i < b.index()[name].len() implies b.is_known(
        name,
        #[trigger] b.index()[name][i],
    ) by {
        assert(a.is_known(name, a.index()[name][i]));
    }
    assert forall|f: Seq<u8>, name: Seq<char>|
        b.certificates.map().dom().contains(f) && named(
            b.certificates.map()[f].names@,
        ).contains(name) implies #[trigger] CertificateResolver::is_candidate(
        b.index(),
        name,
        f,
    ) by {
        assert(CertificateResolver::is_candidate(a.index(), name, f));
    }
}

proof fn lemma_added_is_wf(
    before: CertificateResolver,
    after: CertificateResolver,
    certificate: CertifiedKeyWrapper,
)
    requires
        before.wf(),
        after.domains.wf(),
        after.certificates.wf(),
        after.name_fingerprint_idx.wf(),
        served_by_longest_lived(after.domains.map(), after.index()),
        !before.certificates.map().dom().contains(certificate.fingerprint.0@),
        after.certificates.map() == before.certificates.map().insert(
            certificate.fingerprint.0@,
            certificate,
        ),
        after.index() == index_added(
            before.index(),
            named(certificate.names@),
            (certificate.fingerprint.0@, certificate.expiration),
        ),
    ensures
        after.wf(),
{
    let f = certificate.fingerprint.0@;
    let c: Candidate = (f, certificate.expiration);
    let names = named(certificate.names@);
    assert forall|name: Seq<char>, i: int|
        after.index().dom().contains(name) && 0 <= i < after.index()[name].len() implies after.is_known(
        name,
        #[trigger] after.index()[name][i],
    ) by {
        let x = after.index()[name][i];
        lemma_added_at(before.index(), names, c, name);
        assert(for_name(after.index(), name).contains(x));
        if x == c && names.contains(name) {
        } else {
            assert(for_name(before.index(), name).contains(x));
            let k = choose|k: int|
                0 <= k < for_name(before.index(), name).len() && for_name(before.index(), name)[k]
                    == x;
            assert(before.is_known(name, before.index()[name][k]));
        }
    }
    assert forall|g: Seq<u8>, name: Seq<char>|
        after.certificates.map().dom().contains(g) && named(
            after.certificates.map()[g].names@,
        ).contains(name) implies #[trigger] CertificateResolver::is_candidate(
        after.index(),
        name,
        g,
    ) by {
        lemma_added_at(before.index(), names, c, name);
        if g == f {
            assert(for_name(after.index(), name).contains(c));
            let k = choose|k: int|
                0 <= k < for_name(after.index(), name).len() && for_name(after.index(), name)[k]
                    == c;
            assert(after.index()[name][k].0 == g);
        } else {
            assert(CertificateResolver::is_candidate(before.index(), name, g));
            let i = choose|i: int|
                0 <= i < before.index()[name].len() && (#[trigger] before.index()[name][i]).0 == g;
            let x = before.index()[name][i];
            assert(for_name(before.index(), name).contains(x));
            assert(for_name(after.index(), name).contains(x));
            let k = choose|k: int|
                0 <= k < for_name(after.index(), name).len() && for_name(after.index(), name)[k]
                    == x;
            assert(after.index()[name][k].0 == g);
        }
    }
}

proof fn lemma_removed_is_wf(
    before: CertificateResolver,
    after: CertificateResolver,
    f: Seq<u8>,
)
    requires
        before.wf(),
        before.certificates.map().dom().contains(f),
        after.domains.wf(),
        after.certificates.wf(),
        after.name_fingerprint_idx.wf(),
        served_by_longest_lived(after.domains.map(), after.index()),
        after.certificates.map() == before.certificates.map().remove(f),
        after.index() == index_removed(
            before.index(),
            named(before.certificates.map()[f].names@),
            f,
        ),
    ensures
        after.wf(),
{
    let names = named(before.certificates.map()[f].names@);
    assert forall|name: Seq<char>, i: int|
        after.index().dom().contains(name) && 0 <= i < after.index()[name].len() implies after.is_known(
        name,
        #[trigger] after.index()[name][i],
    ) by {
        let x = after.index()[name][i];
        lemma_removed_at(before.index(), names, f, name);
        let was = for_name(before.index(), name);
        assert(for_name(after.index(), name)[i] == x);
        if names.contains(name) {
            lemma_without_keeps_order(was, f);
            assert(without_certificate(was, f).contains(x));
            assert(was.contains(x) && x.0 != f);
        } else {
            assert(was.contains(x));
        }
        let k = choose|k: int| 0 <= k < was.len() && was[k] == x;
        assert(before.is_known(name, before.index()[name][k]));
        if x.0 == f {
            assert(names.contains(name));
        }
    }
    assert forall|g: Seq<u8>, name: Seq<char>|
        after.certificates.map().dom().contains(g) && named(
            after.certificates.map()[g].names@,
        ).contains(name) implies #[trigger] CertificateResolver::is_candidate(
        after.index(),
        name,
        g,
    ) by {
        assert(CertificateResolver::is_candidate(before.index(), name, g));
        let i = choose|i: int|
            0 <= i < before.index()[name].len() && (#[trigger] before.index()[name][i]).0 == g;
        let x = before.index()[name][i];
        let was = for_name(before.index(), name);
        assert(was[i] == x);
        assert(was.contains(x));
        lemma_removed_at(before.index(), names, f, name);
        lemma_without_keeps_order(was, f);
        let is = for_name(after.index(), name);
        assert(is.contains(x)) by {
            if names.contains(name) {
                assert(without_certificate(was, f).contains(x));
            }
        }
        let k = choose|k: int| 0 <= k < is.len() && is[k] == x;
        assert(after.index().dom().contains(name));
        assert(after.index()[name][k].0 == g);
    }
}

/// What is served for a name is a certificate that has the name, and none that
/// has it lives longer.
pub proof fn law_longest_lived_is_served(
    resolver: CertificateResolver,
    name: Seq<char>,
    other: Seq<u8>,
)
    requires
        resolver.wf(),
        resolver.certificates.map().dom().contains(other),
        named(resolver.certificates.map()[other].names@).contains(name),
    ensures
        resolver.domains.map().dom().contains(utf8::encode_utf8(name)),
        ({
            let served = resolver.domains.map()[utf8::encode_utf8(name)].0@;
            &&& resolver.certificates.map().dom().contains(served)
            &&& named(resolver.certificates.map()[served].names@).contains(name)
            &&& resolver.certificates.map()[other].expiration
                <= resolver.certificates.map()[served].expiration
        }),
{
    assert(CertificateResolver::is_candidate(resolver.index(), name, other));
    let list = resolver.index()[name];
    let i = choose|i: int| 0 <= i < list.len() && (#[trigger] list[i]).0 == other;
    let last = list.len() - 1;
    assert(resolver.is_known(name, resolver.index()[name][i]));
    assert(resolver.is_known(name, resolver.index()[name][last]));
    assert(list[i].1 <= list[last].1);
}

/// Adding a certificate that was not there and removing it again leaves the
/// certificates and the candidates for every name as they were.
pub proof fn law_remove_undoes_add(
    before: CertificateResolver,
    certificate: CertifiedKeyWrapper,
    name: Seq<char>,
)
    requires
        before.wf(),
        !before.certificates.map().dom().contains(certificate.fingerprint.0@),
    ensures
        ({
            let f = certificate.fingerprint.0@;
            let names = named(certificate.names@);
            let added = index_added(before.index(), names, (f, certificate.expiration));
            &&& before.certificates.map().insert(f, certificate).remove(f)
                == before.certificates.map()
            &&& for_name(index_removed(added, names, f), name) == for_name(before.index(), name)
        }),
{
    let f = certificate.fingerprint.0@;
    let c: Candidate = (f, certificate.expiration);
    let names = named(certificate.names@);
    let added = index_added(before.index(), names, c);
    assert(before.certificates.map().insert(f, certificate).remove(f)
        =~= before.certificates.map());
    let was = for_name(before.index(), name);
    assert forall|i: int| 0 <= i < was.len() implies (#[trigger] was[i]).0 != f by {
        assert(before.is_known(name, before.index()[name][i]));
    }
    lemma_added_then_without(before.index(), names, c, name);
    lemma_removed_at(added, names, f, name);
    lemma_without_none(was, f);
}

/// Replacing a certificate by another one, which has a name, never leaves that
/// name without a certificate to serve; the old one is gone.
pub proof fn law_replacing_keeps_names_served(
    before: CertificateResolver,
    after: CertificateResolver,
    certificate: CertifiedKeyWrapper,
    old_fingerprint: Seq<u8>,
    name: Seq<char>,
)
    requires
        before.wf(),
        after.wf(),
        !before.certificates.map().dom().contains(certificate.fingerprint.0@),
        old_fingerprint != certificate.fingerprint.0@,
        after.certificates.map() == before.with_certificate(certificate).0.remove(old_fingerprint),
        named(certificate.names@).contains(name),
    ensures
        after.domains.map().dom().contains(utf8::encode_utf8(name)),
        certificate.expiration <= after.certificates.map()[after.domains.map()[utf8::encode_utf8(
            name,
        )].0@].expiration,
        !after.certificates.map().dom().contains(old_fingerprint),
{
    law_longest_lived_is_served(after, name, certificate.fingerprint.0@);
}

/// However often a certificate is repeated in the chain that comes with it, it
/// is not among those that vouch for it.
pub proof fn law_chain_holds_the_certificate_once(
    chain: Seq<Result<Vec<u8>, String>>,
    leaf: Seq<u8>,
)
    ensures
        !links(chain, leaf).contains(leaf),
    decreases chain.len(),
{
    if chain.len() > 0 {
        law_chain_holds_the_certificate_once(chain.drop_last(), leaf);
        let front = links(chain.drop_last(), leaf);
        let all = links(chain, leaf);
        if all.contains(leaf) {
            let k = choose|k: int| 0 <= k < all.len() && all[k] == leaf;
            if k < front.len() {
                assert(front[k] == leaf);
            }
        }
    }
}

proof fn lemma_without_none(s: Seq<Candidate>, f: Seq<u8>)
    requires
        forall|i: int| 0 <= i < s.len() ==> (#[trigger] s[i]).0 != f,
    ensures
        without_certificate(s, f) == s,
    decreases s.len(),
{
    if s.len() > 0 {
        let front = s.drop_last();
        assert forall|i: int| 0 <= i < front.len() implies (#[trigger] front[i]).0 != f by {
            assert(s[i].0 != f);
        }
        lemma_without_none(front, f);
        assert(s[s.len() - 1].0 != f);
        assert(front.push(s.last()) =~= s);
    }
}

/// What is put in is what is taken out.
proof fn lemma_without_inserted(s: Seq<Candidate>, p: int, c: Candidate)
    requires
        0 <= p <= s.len(),
    ensures
        without_certificate(s.insert(p, c), c.0) == without_certificate(s, c.0),
    decreases s.len(),
{
    let after = s.insert(p, c);
    if p == s.len() {
        assert(after.drop_last() =~= s);
    } else {
        assert(after.drop_last() =~= s.drop_last().insert(p, c));
        assert(after.last() == s.last());
        lemma_without_inserted(s.drop_last(), p, c);
    }
}

proof fn lemma_added_then_without(
    index: NameIndex,
    names: Seq<Seq<char>>,
    c: Candidate,
    name: Seq<char>,
)
    requires
        index.dom().contains(name) ==> candidates_ok(index[name]),
    ensures
        without_certificate(for_name(index_added(index, names, c), name), c.0)
            == without_certificate(for_name(index, name), c.0),
        !names.contains(name) ==> for_name(index_added(index, names, c), name) == for_name(
            index,
            name,
        ),
        index_added(index, names, c).dom().contains(name) ==> candidates_ok(
            index_added(index, names, c)[name],
        ),
    decreases names.len(),
{
    if names.len() > 0 {
        let front = names.drop_last();
        let before = index_added(index, front, c);
        lemma_added_then_without(index, front, c, name);
        let last = names.len() - 1;
        assert(!names.contains(name) ==> !front.contains(name) && names[last] != name) by {
            if front.contains(name) {
                let k = choose|k: int| 0 <= k < front.len() && front[k] == name;
                assert(names[k] == name);
            }
        }
        if names[last] == name {
            let s = for_name(before, name);
            lemma_place_in_range(s, c.1);
            lemma_without_inserted(s, place_for(s, c.1), c);
            lemma_insert_by_expiration(s, c);
        }
    }
}

/// A certificate that was read has, first in its chain, itself, and then those
/// that came with it; the names that it was given, or else its own; the
/// expiration that it was given, or else its own; the digest of its bytes for a
/// fingerprint; and the private key that came with it.
pub proof fn law_what_is_read_of_a_certificate(add: AddCertificate, parts: CertificateParts)
    requires
        add.is_read(parts),
        add.certificate is Ok,
        add.x509 is Ok,
    ensures
        parts.chain@.len() > 0,
        parts.chain@[0]@ == add.certificate->Ok_0@,
        add.names@.len() > 0 ==> named(parts.names@) == named(add.names@),
        add.names@.len() == 0 ==> named(parts.names@) == named(add.x509->Ok_0.names@),
        add.expired_at is Some ==> parts.expiration == add.expired_at->0,
        add.expired_at is None ==> parts.expiration == add.x509->Ok_0.not_after,
        parts.fingerprint.0@ == sha256(add.certificate->Ok_0@),
        Some((parts.private_key_kind, parts.private_key@)) == pem_private_key(
            utf8::encode_utf8(add.key@),
        ),
{
    let leaf = add.certificate->Ok_0@;
    let all = seq![leaf] + links(add.certificate_chain@, leaf);
    assert(held(parts.chain@).len() == parts.chain@.len());
    assert(held(parts.chain@)[0] == parts.chain@[0]@);
    assert(all[0] == leaf);
}

/// The certificates that vouch for one are those of its chain that can be read
/// and are not the certificate itself, in their order.
pub proof fn law_which_certificates_vouch(
    chain: Seq<Result<Vec<u8>, String>>,
    last: Result<Vec<u8>, String>,
    leaf: Seq<u8>,
)
    ensures
        links(Seq::empty(), leaf).len() == 0,
        last matches Ok(link) ==> {
            &&& link@ != leaf ==> links(chain.push(last), leaf) == links(chain, leaf).push(link@)
            &&& link@ == leaf ==> links(chain.push(last), leaf) == links(chain, leaf)
        },
        last is Err ==> links(chain.push(last), leaf) == links(chain, leaf),
{
    assert(chain.push(last).drop_last() =~= chain);
}

/// What is said of a chain that cannot be read is why its first certificate that
/// cannot be read could not be.
pub proof fn law_the_first_unreadable_certificate_is_told(
    chain: Seq<Result<Vec<u8>, String>>,
    i: int,
)
    requires
        0 <= i < chain.len(),
        forall|j: int| 0 <= j < i ==> (#[trigger] chain[j]) is Ok,
    ensures
        chain[i] matches Err(e) ==> first_unreadable(chain) == Some(e),
        i == chain.len() - 1 && chain[i] is Ok ==> first_unreadable(chain) is None,
    decreases chain.len(),
{
    let front = chain.drop_last();
    if i < front.len() {
        assert forall|j: int| 0 <= j < i implies (#[trigger] front[j]) is Ok by {
            assert(chain[j] is Ok);
        }
        assert(front[i] == chain[i]);
        if chain[i] is Err {
            law_the_first_unreadable_certificate_is_told(front, i);
        }
    } else if front.len() > 0 {
        assert forall|j: int| 0 <= j < front.len() - 1 implies (#[trigger] front[j]) is Ok by {
            assert(chain[j] is Ok);
        }
        assert(front[front.len() - 1] == chain[front.len() - 1]);
        assert(chain[front.len() - 1] is Ok);
        law_the_first_unreadable_certificate_is_told(front, front.len() - 1);
    }
}

/// A certificate comes behind those that expire no later and before those that
/// expire later; so of two that expire together the one that was added last is
/// served. The others stay, in their order.
pub proof fn law_where_a_certificate_comes(s: Seq<Candidate>, c: Candidate, i: int)
    requires
        by_expiration(s),
        0 <= i < s.len(),
    ensures
        ({
            let p = place_for(s, c.1);
            let after = with_candidate(s, c);
            &&& after.len() == s.len() + 1
            &&& after[p] == c
            &&& s[i].1 <= c.1 <==> i < p
            &&& i < p ==> after[i] == s[i]
            &&& i >= p ==> after[i + 1] == s[i]
            &&& s.last().1 <= c.1 ==> after.last() == c
        }),
{
    lemma_place_for(s, c.1);
}

/// A certificate that was added is a candidate for each of its names, and for no
/// others; one that was there already changes nothing, and the others stay.
pub proof fn law_what_adding_a_certificate_does(
    resolver: CertificateResolver,
    certificate: CertifiedKeyWrapper,
    name: Seq<char>,
    other: Seq<u8>,
    c: Candidate,
)
    requires
        other != certificate.fingerprint.0@,
    ensures
        ({
            let f = certificate.fingerprint.0@;
            let (certificates, index) = resolver.with_certificate(certificate);
            let new = !resolver.certificates.map().dom().contains(f);
            let named_so = named(certificate.names@).contains(name);
            &&& !new ==> certificates == resolver.certificates.map() && index
                == resolver.index()
            &&& certificates.dom().contains(f)
            &&& new ==> certificates[f] == certificate
            &&& certificates.dom().contains(other)
                <==> resolver.certificates.map().dom().contains(other)
            &&& certificates.dom().contains(other) ==> certificates[other]
                == resolver.certificates.map()[other]
            &&& new ==> (for_name(index, name).contains(c) <==> for_name(
                resolver.index(),
                name,
            ).contains(c) || (named_so && c == (f, certificate.expiration)))
        }),
{
    lemma_added_at(
        resolver.index(),
        named(certificate.names@),
        (certificate.fingerprint.0@, certificate.expiration),
        name,
    );
}

/// Removing a certificate takes it, and nothing else, from the candidates of its
/// names; those of other names stay.
pub proof fn law_what_removing_a_certificate_does(
    index: NameIndex,
    names: Seq<Seq<char>>,
    fingerprint: Seq<u8>,
    name: Seq<char>,
)
    requires
        index.dom().contains(name) ==> candidates_ok(index[name]),
    ensures
        ({
            let after = index_removed(index, names, fingerprint);
            &&& names.contains(name) ==> for_name(after, name) == for_name(index, name).filter(
                |c: Candidate| c.0 != fingerprint,
            )
            &&& !names.contains(name) ==> for_name(after, name) == for_name(index, name)
            &&& after.dom().contains(name) ==> after[name].len() > 0
        }),
{
    lemma_removed_at(index, names, fingerprint, name);
    lemma_without_is_filter(for_name(index, name), fingerprint);
}

proof fn lemma_without_is_filter(s: Seq<Candidate>, fingerprint: Seq<u8>)
    ensures
        without_certificate(s, fingerprint) == s.filter(|c: Candidate| c.0 != fingerprint),
    decreases s.len(),
{
    reveal(Seq::filter);
    if s.len() > 0 {
        lemma_without_is_filter(s.drop_last(), fingerprint);
    }
}

/// What is served under a name is a certificate that has the name, or the name
/// with an asterisk that stands for it: `key` is what the name was found under.
pub proof fn law_what_is_served_has_the_name(
    resolver: CertificateResolver,
    name: Seq<u8>,
    accept_wildcard: bool,
    key: Seq<u8>,
)
    requires
        resolver.wf(),
        sni_routes::matched_key(resolver.domains.map().dom(), name, accept_wildcard) == Some(key),
    ensures
        ({
            let served = resolver.domains.map()[key].0@;
            &&& resolver.domains.map().dom().contains(key)
            &&& resolver.certificates.map().dom().contains(served)
            &&& resolver.certificates.map()[served].fingerprint.0@ == served
            &&& exists|own: Seq<char>| #[trigger]
                named(resolver.certificates.map()[served].names@).contains(own)
                    && utf8::encode_utf8(own) == key
        }),
{
    let own = choose|own: Seq<char>| #[trigger]
        resolver.index().dom().contains(own) && utf8::encode_utf8(own) == key;
    let last = resolver.index()[own].len() - 1;
    assert(resolver.is_known(own, resolver.index()[own][last]));
}

/// A certificate is good for one of some names if and only if it has one of them.
pub proof fn law_which_certificates_are_good_for_names(
    resolver: CertificateResolver,
    names: Seq<Seq<char>>,
    fingerprint: Seq<u8>,
)
    requires
        resolver.wf(),
    ensures
        CertificateResolver::is_good_for_one_of(resolver.index(), names, fingerprint) <==> (
        resolver.certificates.map().dom().contains(fingerprint) && exists|i: int|
            0 <= i < names.len() && named(
                resolver.certificates.map()[fingerprint].names@,
            ).contains(#[trigger] names[i])),
{
    let index = resolver.index();
    if CertificateResolver::is_good_for_one_of(index, names, fingerprint) {
        let i = choose|i: int|
            0 <= i < names.len() && CertificateResolver::is_candidate(
                index,
                #[trigger] names[i],
                fingerprint,
            );
        let k = choose|k: int|
            0 <= k < index[names[i]].len() && (#[trigger] index[names[i]][k]).0 == fingerprint;
        assert(resolver.is_known(names[i], resolver.index()[names[i]][k]));
    }
    if resolver.certificates.map().dom().contains(fingerprint) && exists|i: int|
        0 <= i < names.len() && named(
            resolver.certificates.map()[fingerprint].names@,
        ).contains(#[trigger] names[i]) {
        let i = choose|i: int|
            0 <= i < names.len() && named(
                resolver.certificates.map()[fingerprint].names@,
            ).contains(#[trigger] names[i]);
        assert(CertificateResolver::is_candidate(index, names[i], fingerprint));
    }
}

/// An expiration in the past is told as zero.
pub proof fn law_past_expirations_are_zero(t: i64)
    ensures
        t >= 0 ==> at_least_zero(t) == t,
        t < 0 ==> at_least_zero(t) == 0,
{
}

/// Each error is told in its own words, and with what caused it.
pub proof fn law_how_certificate_errors_are_told(error: CertificateResolverError)
    ensures
        error is EmptyKeys ==> error.message_spec() == "empty key"@,
        error matches CertificateResolverError::InvalidPrivateKey(e) ==> error.message_spec()
            == "invalid private key: "@ + e@,
        error matches CertificateResolverError::ParseX509(e) ==> error.message_spec()
            == "error parsing x509 cert from bytes: "@ + e@,
        error matches CertificateResolverError::ParsePem(e) ==> error.message_spec()
            == "error parsing pem formated certificate from bytes: "@ + e@,
{
}

/// The digests of a list of fingerprints are theirs, in their order.
pub proof fn law_fingerprints_are_listed_in_order(list: Seq<Fingerprint>, i: int)
    requires
        0 <= i < list.len(),
    ensures
        fingerprints(list).len() == list.len(),
        fingerprints(list)[i] == list[i].0@,
{
}

} // verus!
