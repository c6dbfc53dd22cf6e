//! Signatures of RAUC bundles: a simulated signing scheme over SHA3-256
//! with expiring keys, and a verifier that trusts known key identifiers.
//! Times are Unix milliseconds.

use vstd::prelude::*;
use crate::security::{SecurityError, SecurityResult};
use crate::hashing::{sha3_256, spec_sha3_256, hex_encode, hex_decode, spec_hex, spec_unhex, bytes_equal, lemma_unhex_hex};
use crate::clock::{now_millis, in_clock_range};
use crate::entropy::random_bytes_32;
use crate::text::{str_eq, concat2};

verus! {

/// Milliseconds in a year of 365 days.
pub const KEY_LIFETIME_MS: i64 = 31_536_000_000;

/// Signature algorithm.
#[derive(Debug, Clone, Copy, PartialEq, Eq, Structural)]
pub enum SignatureAlgorithm {
    Ed25519,
    ECDSAP256,
    /// ML-DSA (Dilithium), post-quantum.
    PostQuantumMLDSA,
}

/// A signing key pair.
#[derive(Debug, Clone)]
pub struct SigningKey {
    pub key_id: String,
    pub algorithm: SignatureAlgorithm,
    pub public_key: Vec<u8>,
    pub private_key: Vec<u8>,
    pub issued_at: i64,
    pub expires_at: i64,
    pub owner: String,
}

/// The key derived from a private key at time `now`: the public key is
/// the SHA3-256 of the private key, the identifier "key-" and the hex of
/// its first 8 bytes, and it lives one year.
pub open spec fn key_from_private(
    algorithm: SignatureAlgorithm,
    owner: String,
    private_key: Seq<u8>,
    now: i64,
    k: SigningKey,
) -> bool {
    &&& k.algorithm == algorithm
    &&& k.owner == owner
    &&& k.private_key@ == private_key
    &&& k.public_key@ == spec_sha3_256(private_key)
    &&& k.key_id@ == "key-"@ + spec_hex(spec_sha3_256(private_key).take(8))
    &&& k.issued_at == now
    &&& k.expires_at == now + KEY_LIFETIME_MS
}

impl SigningKey {
    /// A key pair from a given private key at time `now`.
    pub fn from_private_at(algorithm: SignatureAlgorithm, owner: String, private_key: Vec<u8>, now: i64) -> (k: Self)
        requires
            in_clock_range(now),
        ensures
            key_from_private(algorithm, owner, private_key@, now, k),
    {
        let public_key = sha3_256(private_key.as_slice());
        let prefix = vstd::slice::slice_subrange(public_key.as_slice(), 0, 8);
        let hex = hex_encode(prefix);
        let key_id = concat2("key-", hex.as_str());
        SigningKey {
            key_id,
            algorithm,
            public_key,
            private_key,
            issued_at: now,
            expires_at: now + KEY_LIFETIME_MS,
            owner,
        }
    }

    /// A new key pair with a random 32-byte private key.
    pub fn generate(algorithm: SignatureAlgorithm, owner: String) -> (k: Self)
        ensures
            k.private_key@.len() == 32,
            in_clock_range(k.issued_at),
            key_from_private(algorithm, owner, k.private_key@, k.issued_at, k),
    {
        let bytes = random_bytes_32();
        let private_key = vstd::slice::slice_to_vec(vstd::array::array_as_slice(&bytes));
        let now = now_millis();
        Self::from_private_at(algorithm, owner, private_key, now)
    }

    /// Whether the key has expired at time `now`.
    pub fn is_expired_at(&self, now: i64) -> (r: bool)
        ensures
            r == (now > self.expires_at),
    {
        now > self.expires_at
    }

    /// Whether the key has expired now.
    pub fn is_expired(&self) -> (r: bool)
        ensures
            exists|now: i64| in_clock_range(now) && r == (now > self.expires_at),
    {
        let now = now_millis();
        self.is_expired_at(now)
    }
}

/// Signature of a bundle.
#[derive(Debug, Clone)]
pub struct BundleSignature {
    pub key_id: String,
    pub algorithm: SignatureAlgorithm,
    pub signature: Vec<u8>,
    pub signed_at: i64,
    pub bundle_hash: String,
    pub expires_at: i64,
}

/// The first key with the given identifier.
pub open spec fn find_key(keys: Seq<SigningKey>, id: Seq<char>) -> Option<SigningKey>
    decreases keys.len(),
{
    if keys.len() == 0 {
        None
    } else if keys[0].key_id@ == id {
        Some(keys[0])
    } else {
        find_key(keys.drop_first(), id)
    }
}

/// The index of the first key with the given identifier.
pub open spec fn find_key_index(keys: Seq<SigningKey>, id: Seq<char>) -> Option<int>
    decreases keys.len(),
{
    if keys.len() == 0 {
        None
    } else if keys[0].key_id@ == id {
        Some(0)
    } else {
        match find_key_index(keys.drop_first(), id) {
            Some(i) => Some(i + 1),
            None => None,
        }
    }
}

/// The simulated signature of a bundle: SHA3-256 of the bundle's digest
/// followed by the private key.
pub open spec fn spec_signature(data: Seq<u8>, private_key: Seq<u8>) -> Seq<u8> {
    spec_sha3_256(spec_sha3_256(data) + private_key)
}

/// What signing `data` with `key` at time `now` gives.
pub open spec fn signed_with(data: Seq<u8>, key: SigningKey, now: i64, s: BundleSignature) -> bool {
    &&& s.key_id@ == key.key_id@
    &&& s.algorithm == key.algorithm
    &&& s.signature@ == spec_signature(data, key.private_key@)
    &&& s.signed_at == now
    &&& s.bundle_hash@ == spec_hex(spec_sha3_256(data))
    &&& s.expires_at == key.expires_at
}

/// Outcome of verifying a signature with a key table at time `now`.
pub open spec fn spec_verify(keys: Seq<SigningKey>, data: Seq<u8>, s: BundleSignature, now: i64) -> Option<bool> {
    match find_key(keys, s.key_id@) {
        None => None,
        Some(key) => if s.expires_at < now {
            None
        } else if spec_hex(spec_sha3_256(data)) != s.bundle_hash@ {
            None
        } else {
            Some(s.signature@ == spec_sha3_256(
                match spec_unhex(s.bundle_hash@) {
                    Some(h) => h,
                    None => Seq::empty(),
                } + key.private_key@,
            ))
        },
    }
}

/// The key table after adding a key: it replaces the first key with the
/// same identifier, or goes at the end.
pub open spec fn keys_after_add(keys: Seq<SigningKey>, key: SigningKey) -> Seq<SigningKey> {
    match find_key_index(keys, key.key_id@) {
        Some(i) => keys.update(i, key),
        None => keys.push(key),
    }
}

proof fn lemma_find_key_index(keys: Seq<SigningKey>, id: Seq<char>)
    ensures
        match find_key_index(keys, id) {
            Some(i) => 0 <= i < keys.len() && keys[i].key_id@ == id && find_key(keys, id) == Some(keys[i])
                && forall|j: int| 0 <= j < i ==> keys[j].key_id@ != id,
            None => find_key(keys, id) is None && forall|j: int| 0 <= j < keys.len() ==> keys[j].key_id@ != id,
        },
    decreases keys.len(),
{
    if keys.len() > 0 {
        let tail = keys.drop_first();
        lemma_find_key_index(tail, id);
        assert(forall|j: int| 0 <= j < tail.len() ==> tail[j] == keys[j + 1]);
        if keys[0].key_id@ != id {
            match find_key_index(tail, id) {
                Some(i) => {
                    assert forall|j: int| 0 <= j < i + 1 implies keys[j].key_id@ != id by {
                        if j > 0 {
                            assert(keys[j] == tail[j - 1]);
                        }
                    }
                },
                None => {
                    assert forall|j: int| 0 <= j < keys.len() implies keys[j].key_id@ != id by {
                        if j > 0 {
                            assert(keys[j] == tail[j - 1]);
                        }
                    }
                },
            }
        }
    }
}

proof fn lemma_find_key_first(keys: Seq<SigningKey>, id: Seq<char>, i: int)
    requires
        0 <= i < keys.len(),
        keys[i].key_id@ == id,
        forall|j: int| 0 <= j < i ==> keys[j].key_id@ != id,
    ensures
        find_key(keys, id) == Some(keys[i]),
        find_key_index(keys, id) == Some(i),
    decreases keys.len(),
{
    if i > 0 {
        lemma_find_key_first(keys.drop_first(), id, i - 1);
    }
}

/// Looks up the index of the first key with the given identifier.
fn key_index(keys: &Vec<SigningKey>, id: &str) -> (r: Option<usize>)
    ensures
        match r {
            Some(i) => find_key_index(keys@, id@) == Some(i as int),
            None => find_key_index(keys@, id@) is None,
        },
{
    proof {
        lemma_find_key_index(keys@, id@);
    }
    let mut i: usize = 0;
    while i < keys.len()
        invariant
            i <= keys@.len(),
            forall|j: int| 0 <= j < i ==> keys@[j].key_id@ != id@,
        decreases keys@.len() - i,
    {
        if str_eq(keys[i].key_id.as_str(), id) {
            proof {
                lemma_find_key_first(keys@, id@, i as int);
            }
            return Some(i);
        }
        i = i + 1;
    }
    None
}

/// Signer of RAUC bundles.
pub struct RaucSigner {
    keys: Vec<SigningKey>,
    default_key_id: Option<String>,
}

impl RaucSigner {
    /// The signer's keys, in the order they were first added.
    pub closed spec fn keys(&self) -> Seq<SigningKey> {
        self.keys@
    }

    /// The identifier of the default key: the first key ever added.
    pub closed spec fn default_key_id(&self) -> Option<String> {
        self.default_key_id
    }

    /// A signer with no key.
    pub fn new() -> (s: Self)
        ensures
            s.keys() == Seq::<SigningKey>::empty(),
            s.default_key_id() is None,
    {
        RaucSigner { keys: Vec::new(), default_key_id: None }
    }

    /// Adds a signing key; the first key added becomes the default.
    pub fn add_key(&mut self, key: SigningKey)
        ensures
            final(self).keys() == keys_after_add(old(self).keys(), key),
            final(self).default_key_id() == (match old(self).default_key_id() {
                Some(d) => Some(d),
                None => Some(key.key_id),
            }),
    {
        if self.default_key_id.is_none() {
            self.default_key_id = Some(key.key_id.clone());
        }
        proof {
            lemma_find_key_index(self.keys@, key.key_id@);
        }
        match key_index(&self.keys, key.key_id.as_str()) {
            Some(i) => {
                self.keys.set(i, key);
            },
            None => {
                self.keys.push(key);
            },
        }
    }

    /// Signs a bundle at time `now` with the named key, or the default key.
    pub fn sign_bundle_at(&self, data: &[u8], key_id: Option<&str>, now: i64) -> (r: SecurityResult<BundleSignature>)
        ensures
            ({
                let kid: Option<Seq<char>> = match key_id {
                    Some(k) => Some(k@),
                    None => match self.default_key_id() {
                        Some(d) => Some(d@),
                        None => None,
                    },
                };
                match kid {
                    None => r == Err::<BundleSignature, SecurityError>(SecurityError::InvalidKey(r->Err_0->InvalidKey_0))
                        && r->Err_0->InvalidKey_0@ == "No key available"@,
                    Some(id) => match find_key(self.keys(), id) {
                        None => r == Err::<BundleSignature, SecurityError>(SecurityError::InvalidKey(r->Err_0->InvalidKey_0))
                            && r->Err_0->InvalidKey_0@ == "Key not found: "@ + id,
                        Some(key) => if now > key.expires_at {
                            r == Err::<BundleSignature, SecurityError>(SecurityError::InvalidKey(r->Err_0->InvalidKey_0))
                                && r->Err_0->InvalidKey_0@ == "Key expired"@
                        } else {
                            r is Ok && signed_with(data@, key, now, r->Ok_0)
                        },
                    },
                }
            }),
    {
        let kid: &str = match key_id {
            Some(k) => k,
            None => match &self.default_key_id {
                Some(d) => d.as_str(),
                None => {
                    return Err(SecurityError::InvalidKey("No key available".to_string()));
                },
            },
        };
        proof {
            lemma_find_key_index(self.keys@, kid@);
        }
        let idx = match key_index(&self.keys, kid) {
            Some(i) => i,
            None => {
                return Err(SecurityError::InvalidKey(concat2("Key not found: ", kid)));
            },
        };
        let key = &self.keys[idx];
        if key.is_expired_at(now) {
            return Err(SecurityError::InvalidKey("Key expired".to_string()));
        }
        let hash = sha3_256(data);
        let hash_hex = hex_encode(hash.as_slice());
        let mut signed_input = hash.clone();
        signed_input.extend_from_slice(key.private_key.as_slice());
        let signature = sha3_256(signed_input.as_slice());
        proof {
            assert(signed_input@ =~= spec_sha3_256(data@) + key.private_key@);
        }
        Ok(BundleSignature {
            key_id: kid.to_owned(),
            algorithm: key.algorithm,
            signature,
            signed_at: now,
            bundle_hash: hash_hex,
            expires_at: key.expires_at,
        })
    }

    /// Signs a bundle now with the named key, or the default key.
    pub fn sign_bundle(&self, data: &[u8], key_id: Option<&str>) -> (r: SecurityResult<BundleSignature>)
        ensures
            exists|now: i64| in_clock_range(now) && ({
                let kid: Option<Seq<char>> = match key_id {
                    Some(k) => Some(k@),
                    None => match self.default_key_id() {
                        Some(d) => Some(d@),
                        None => None,
                    },
                };
                match kid {
                    None => r == Err::<BundleSignature, SecurityError>(SecurityError::InvalidKey(r->Err_0->InvalidKey_0))
                        && r->Err_0->InvalidKey_0@ == "No key available"@,
                    Some(id) => match find_key(self.keys(), id) {
                        None => r == Err::<BundleSignature, SecurityError>(SecurityError::InvalidKey(r->Err_0->InvalidKey_0))
                            && r->Err_0->InvalidKey_0@ == "Key not found: "@ + id,
                        Some(key) => if now > key.expires_at {
                            r == Err::<BundleSignature, SecurityError>(SecurityError::InvalidKey(r->Err_0->InvalidKey_0))
                                && r->Err_0->InvalidKey_0@ == "Key expired"@
                        } else {
                            r is Ok && signed_with(data@, key, now, r->Ok_0)
                        },
                    },
                }
            }),
    {
        let now = now_millis();
        self.sign_bundle_at(data, key_id, now)
    }

    /// Verifies a bundle's signature at time `now`: `Ok(true)` when the
    /// signature matches; errors for an unknown key, an expired signature
    /// or a bundle whose digest differs from the signed one.
    pub fn verify_bundle_at(&self, data: &[u8], signature: &BundleSignature, now: i64) -> (r: SecurityResult<bool>)
        ensures
            match spec_verify(self.keys(), data@, *signature, now) {
                Some(b) => r == Ok::<bool, SecurityError>(b),
                None => r is Err,
            },
            match find_key(self.keys(), signature.key_id@) {
                None => r is Err && r->Err_0 is InvalidKey && r->Err_0->InvalidKey_0@ == "Signer key not found"@,
                Some(_) => if signature.expires_at < now {
                    r is Err && r->Err_0 is InvalidKey && r->Err_0->InvalidKey_0@ == "Signature expired"@
                } else if spec_hex(spec_sha3_256(data@)) != signature.bundle_hash@ {
                    r is Err && r->Err_0 is IntegrityViolation && r->Err_0->IntegrityViolation_0@ == "Bundle hash mismatch"@
                } else {
                    r is Ok
                },
            },
    {
        let idx = match key_index(&self.keys, signature.key_id.as_str()) {
            Some(i) => i,
            None => {
                proof {
                    lemma_find_key_index(self.keys@, signature.key_id@);
                }
                return Err(SecurityError::InvalidKey("Signer key not found".to_string()));
            },
        };
        proof {
            lemma_find_key_index(self.keys@, signature.key_id@);
        }
        let key = &self.keys[idx];
        if signature.expires_at < now {
            return Err(SecurityError::InvalidKey("Signature expired".to_string()));
        }
        let hash = sha3_256(data);
        let hash_hex = hex_encode(hash.as_slice());
        if !str_eq(hash_hex.as_str(), signature.bundle_hash.as_str()) {
            return Err(SecurityError::IntegrityViolation("Bundle hash mismatch".to_string()));
        }
        let decoded = match hex_decode(signature.bundle_hash.as_str()) {
            Some(v) => v,
            None => Vec::new(),
        };
        let ghost decoded_view = decoded@;
        let mut signed_input = decoded;
        signed_input.extend_from_slice(key.private_key.as_slice());
        proof {
            assert(signed_input@ =~= decoded_view + key.private_key@);
            assert(decoded_view == match spec_unhex(signature.bundle_hash@) {
                Some(h) => h,
                None => Seq::<u8>::empty(),
            });
        }
        let expected = sha3_256(signed_input.as_slice());
        Ok(bytes_equal(expected.as_slice(), signature.signature.as_slice()))
    }

    /// Verifies a bundle's signature now.
    pub fn verify_bundle(&self, data: &[u8], signature: &BundleSignature) -> (r: SecurityResult<bool>)
        ensures
            exists|now: i64| #[trigger] in_clock_range(now) && {
                &&& match spec_verify(self.keys(), data@, *signature, now) {
                    Some(b) => r == Ok::<bool, SecurityError>(b),
                    None => r is Err,
                }
                &&& match find_key(self.keys(), signature.key_id@) {
                    None => r is Err && r->Err_0 is InvalidKey && r->Err_0->InvalidKey_0@ == "Signer key not found"@,
                    Some(_) => if signature.expires_at < now {
                        r is Err && r->Err_0 is InvalidKey && r->Err_0->InvalidKey_0@ == "Signature expired"@
                    } else if spec_hex(spec_sha3_256(data@)) != signature.bundle_hash@ {
                        r is Err && r->Err_0 is IntegrityViolation && r->Err_0->IntegrityViolation_0@
                            == "Bundle hash mismatch"@
                    } else {
                        r is Ok
                    },
                }
            },
    {
        let now = now_millis();
        self.verify_bundle_at(data, signature, now)
    }
}

/// A signature made with a key of the table verifies, for the same data,
/// at any time up to its expiry.
pub proof fn lemma_sign_then_verify(
    keys: Seq<SigningKey>,
    data: Seq<u8>,
    key: SigningKey,
    signed_at: i64,
    s: BundleSignature,
    now: i64,
)
    requires
        find_key(keys, key.key_id@) == Some(key),
        signed_with(data, key, signed_at, s),
        now <= s.expires_at,
    ensures
        spec_verify(keys, data, s, now) == Some(true),
{
    lemma_unhex_hex(spec_sha3_256(data));
}

/// After a key is added, looking its identifier up finds it.
pub proof fn lemma_added_key_found(keys: Seq<SigningKey>, key: SigningKey)
    ensures
        find_key(keys_after_add(keys, key), key.key_id@) == Some(key),
{
    lemma_find_key_index(keys, key.key_id@);
    match find_key_index(keys, key.key_id@) {
        Some(i) => {
            let k2 = keys.update(i, key);
            lemma_find_key_first(k2, key.key_id@, i);
        },
        None => {
            let k2 = keys.push(key);
            assert(forall|j: int| 0 <= j < keys.len() ==> k2[j] == keys[j]);
            lemma_find_key_first(k2, key.key_id@, keys.len() as int);
        },
    }
}

/// Verifier of RAUC bundles against trusted key identifiers.
pub struct RaucVerifier {
    trusted_keys: Vec<(String, Vec<u8>)>,
}

/// Whether an identifier is among the trusted ones.
pub open spec fn is_trusted(trusted: Seq<(String, Vec<u8>)>, id: Seq<char>) -> bool {
    exists|i: int| 0 <= i < trusted.len() && trusted[i].0@ == id
}

/// No identifier occurs twice.
pub open spec fn distinct_ids(trusted: Seq<(String, Vec<u8>)>) -> bool {
    forall|i: int, j: int| 0 <= i < j < trusted.len() ==> trusted[i].0@ != trusted[j].0@
}

impl RaucVerifier {
    #[verifier::type_invariant]
    spec fn ids_distinct(self) -> bool {
        distinct_ids(self.trusted_keys@)
    }

    /// The trusted keys: identifier and public key.
    pub closed spec fn trusted(&self) -> Seq<(String, Vec<u8>)> {
        self.trusted_keys@
    }

    /// A verifier that trusts no key.
    pub fn new() -> (v: Self)
        ensures
            v.trusted() == Seq::<(String, Vec<u8>)>::empty(),
    {
        RaucVerifier { trusted_keys: Vec::new() }
    }

    /// Trusts a key identifier (replacing its public key when known).
    pub fn add_trusted_key(&mut self, key_id: String, public_key: Vec<u8>)
        ensures
            is_trusted(final(self).trusted(), key_id@),
            forall|id: Seq<char>| is_trusted(old(self).trusted(), id) ==> is_trusted(final(self).trusted(), id),
            forall|id: Seq<char>| is_trusted(final(self).trusted(), id) ==> (is_trusted(old(self).trusted(), id) || id == key_id@),
            forall|i: int| 0 <= i < final(self).trusted().len() && final(self).trusted()[i].0@ == key_id@
                ==> final(self).trusted()[i].1@ == public_key@,
    {
        proof {
            use_type_invariant(&*self);
        }
        let mut keys: Vec<(String, Vec<u8>)> = Vec::new();
        std::mem::swap(&mut keys, &mut self.trusted_keys);
        let ghost before = keys@;
        let mut i: usize = 0;
        let mut found = false;
        while !found && i < keys.len()
            invariant
                i <= keys@.len(),
                keys@ == before,
                distinct_ids(before),
                forall|j: int| 0 <= j < i ==> before[j].0@ != key_id@,
                found ==> i < keys@.len() && before[i as int].0@ == key_id@,
            decreases keys@.len() - i + (if found { 0int } else { 1int }),
        {
            if str_eq(keys[i].0.as_str(), key_id.as_str()) {
                found = true;
            } else {
                i = i + 1;
            }
        }
        if found {
            let ghost old_id = before[i as int].0@;
            keys.set(i, (key_id, public_key));
            proof {
                assert(old_id == key_id@);
                assert(forall|j: int| 0 <= j < before.len() && j != i ==> keys@[j] == before[j]);
                assert forall|id: Seq<char>| is_trusted(before, id) implies is_trusted(keys@, id) by {
                    let k = choose|k: int| 0 <= k < before.len() && before[k].0@ == id;
                    assert(keys@[k].0@ == id);
                }
                assert forall|id: Seq<char>| is_trusted(keys@, id) implies (is_trusted(before, id) || id == key_id@) by {
                    let k = choose|k: int| 0 <= k < keys@.len() && keys@[k].0@ == id;
                    if k != i {
                        assert(before[k].0@ == id);
                    }
                }
                assert forall|j: int| 0 <= j < keys@.len() && keys@[j].0@ == key_id@ implies j == i by {
                    if j != i {
                        assert(keys@[j] == before[j]);
                    }
                }
                assert forall|a: int, b: int| 0 <= a < b < keys@.len() implies keys@[a].0@ != keys@[b].0@ by {
                    if a != i && b != i {
                        assert(keys@[a] == before[a]);
                        assert(keys@[b] == before[b]);
                    } else if a == i {
                        assert(keys@[b] == before[b]);
                    } else {
                        assert(keys@[a] == before[a]);
                    }
                }
                assert(is_trusted(keys@, key_id@)) by {
                    assert(keys@[i as int].0@ == key_id@);
                }
            }
        } else {
            keys.push((key_id, public_key));
            proof {
                let n = before.len() as int;
                assert(forall|j: int| 0 <= j < n ==> keys@[j] == before[j]);
                assert(keys@[n].0@ == key_id@);
                assert forall|id: Seq<char>| is_trusted(before, id) implies is_trusted(keys@, id) by {
                    let k = choose|k: int| 0 <= k < before.len() && before[k].0@ == id;
                    assert(keys@[k].0@ == id);
                }
                assert forall|id: Seq<char>| is_trusted(keys@, id) implies (is_trusted(before, id) || id == key_id@) by {
                    let k = choose|k: int| 0 <= k < keys@.len() && keys@[k].0@ == id;
                    if k < n {
                        assert(before[k].0@ == id);
                    }
                }
                assert forall|a: int, b: int| 0 <= a < b < keys@.len() implies keys@[a].0@ != keys@[b].0@ by {
                    assert(keys@[a] == before[a]);
                    if b < n {
                        assert(keys@[b] == before[b]);
                    }
                }
            }
        }
        self.trusted_keys = keys;
    }

    /// Whether the signature is by a trusted key, matches the bundle's
    /// digest and has not expired at time `now`.
    pub fn verify_at(&self, data: &[u8], signature: &BundleSignature, now: i64) -> (ok: bool)
        ensures
            ok == (is_trusted(self.trusted(), signature.key_id@)
                && spec_hex(spec_sha3_256(data@)) == signature.bundle_hash@
                && signature.expires_at > now),
    {
        let mut trusted = false;
        let mut i: usize = 0;
        while i < self.trusted_keys.len()
            invariant
                i <= self.trusted_keys@.len(),
                trusted == exists|j: int| 0 <= j < i && self.trusted_keys@[j].0@ == signature.key_id@,
            decreases self.trusted_keys@.len() - i,
        {
            if str_eq(self.trusted_keys[i].0.as_str(), signature.key_id.as_str()) {
                trusted = true;
            }
            i = i + 1;
        }
        if !trusted {
            return false;
        }
        let hash = sha3_256(data);
        let hash_hex = hex_encode(hash.as_slice());
        str_eq(hash_hex.as_str(), signature.bundle_hash.as_str()) && signature.expires_at > now
    }

    /// Whether the signature is by a trusted key, matches the bundle's
    /// digest and has not expired now.
    pub fn verify(&self, data: &[u8], signature: &BundleSignature) -> (ok: bool)
        ensures
            exists|now: i64| in_clock_range(now) && ok == (is_trusted(self.trusted(), signature.key_id@)
                && spec_hex(spec_sha3_256(data@)) == signature.bundle_hash@
                && signature.expires_at > now),
    {
        let now = now_millis();
        self.verify_at(data, signature, now)
    }
}

} // verus!
