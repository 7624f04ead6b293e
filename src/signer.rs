use vstd::prelude::*;
use vstd::utf8::encode_utf8;

verus! {

/// The Keccak-256 digest of a byte string.
pub uninterp spec fn keccak_digest(data: Seq<u8>) -> Seq<u8>;

/// The address of the secp256k1 signing key whose scalar is these 32
/// big-endian bytes, where they form a valid key.
pub uninterp spec fn secret_address(secret: Seq<u8>) -> Option<Seq<u8>>;

/// The address of the signing key written as hex text, where the text is a
/// valid key.
pub uninterp spec fn key_text_address(key: Seq<char>) -> Option<Seq<u8>>;

/// The address written as hex text, where the text is a valid address.
pub uninterp spec fn address_from_text(s: Seq<char>) -> Option<Seq<u8>>;

/// Relies on `alloy::primitives::keccak256`: the 32-byte Keccak-256 digest.
#[verifier::external_body]
fn keccak(data: &Vec<u8>) -> (r: [u8; 32])
    ensures
        r@ == keccak_digest(data@),
{
    alloy::primitives::keccak256(data.as_slice()).0
}

/// Relies on `PrivateKeySigner::from_bytes` and `address`: a scalar that is not
/// a valid secp256k1 key is refused, and a valid one yields a 20-byte address.
#[verifier::external_body]
fn address_of_secret(secret: &[u8; 32]) -> (r: Option<Vec<u8>>)
    ensures
        match r {
            Some(a) => secret_address(secret@) == Some(a@) && a@.len() == 20,
            None => secret_address(secret@) is None,
        },
{
    let bytes = alloy::primitives::B256::from(*secret);
    alloy::signers::local::PrivateKeySigner::from_bytes(&bytes).ok().map(|s| s.address().to_vec())
}

/// Relies on `<PrivateKeySigner as FromStr>::from_str` and `address`: a
/// hex-encoded 32-byte key yields the 20-byte address of its signer.
#[verifier::external_body]
fn address_of_key_text(key: &str) -> (r: Option<Vec<u8>>)
    ensures
        match r {
            Some(a) => key_text_address(key@) == Some(a@) && a@.len() == 20,
            None => key_text_address(key@) is None,
        },
{
    <alloy::signers::local::PrivateKeySigner as core::str::FromStr>::from_str(key).ok().map(
        |s| s.address().to_vec(),
    )
}

/// Relies on `<alloy::primitives::Address as FromStr>::from_str`: hex text of
/// 20 bytes, with or without a `0x` prefix.
#[verifier::external_body]
fn parse_address_text(s: &str) -> (r: Option<Vec<u8>>)
    ensures
        match r {
            Some(a) => address_from_text(s@) == Some(a@) && a@.len() == 20,
            None => address_from_text(s@) is None,
        },
{
    <alloy::primitives::Address as core::str::FromStr>::from_str(s).ok().map(|a| a.to_vec())
}

/// The address of a signing key given as hex text.
pub fn key_address(key: &str) -> (r: Option<Vec<u8>>)
    ensures
        match r {
            Some(a) => key_text_address(key@) == Some(a@),
            None => key_text_address(key@) is None,
        },
{
    address_of_key_text(key)
}

/// An address given as hex text.
pub fn parse_address(s: &str) -> (r: Option<Vec<u8>>)
    ensures
        match r {
            Some(a) => address_from_text(s@) == Some(a@),
            None => address_from_text(s@) is None,
        },
{
    parse_address_text(s)
}

/// A signing identity: its 32-byte secret scalar and its 20-byte address.
#[derive(Clone, Debug, PartialEq, Eq)]
pub struct Signer {
    pub secret: [u8; 32],
    pub address: Vec<u8>,
}

impl Signer {
    pub open spec fn view(&self) -> (Seq<u8>, Seq<u8>) {
        (self.secret@, self.address@)
    }
}

/// The `len` low-order bytes of `n`, least significant first.
pub open spec fn le_bytes(n: nat, len: nat) -> Seq<u8>
    decreases len,
{
    if len == 0 {
        Seq::empty()
    } else {
        seq![(n % 256) as u8] + le_bytes(n / 256, (len - 1) as nat)
    }
}

/// The bytes hashed for the `index`-th signer of a pool: the seed, the pool
/// name in UTF-8, and the index as eight little-endian bytes.
pub open spec fn derivation_input(seed: Seq<u8>, pool: Seq<char>, index: nat) -> Seq<u8> {
    seed + encode_utf8(pool) + le_bytes(index, 8)
}

/// The secret scalar of the `index`-th signer of a pool.
pub open spec fn derived_secret(seed: Seq<u8>, pool: Seq<char>, index: nat) -> Seq<u8> {
    keccak_digest(derivation_input(seed, pool, index))
}

/// Whether every one of the first `count` derived secrets is a valid key.
pub open spec fn derivable(seed: Seq<u8>, pool: Seq<char>, count: nat) -> bool {
    forall|i: nat| i < count ==> (#[trigger] secret_address(derived_secret(seed, pool, i))) is Some
}

/// Whether `v` is the derived signer set of a pool: `count` signers, the
/// `i`-th holding the `i`-th derived secret and its address.
pub open spec fn derived_signers(seed: Seq<u8>, pool: Seq<char>, count: nat, v: Seq<Signer>) -> bool {
    &&& v.len() == count
    &&& forall|i: int|
        0 <= i < count ==> {
            &&& (#[trigger] v[i]).secret@ == derived_secret(seed, pool, i as nat)
            &&& secret_address(v[i].secret@) == Some(v[i].address@)
        }
}

fn le_bytes_u64(n: u64) -> (r: Vec<u8>)
    ensures
        r@ == le_bytes(n as nat, 8),
{
    let mut r: Vec<u8> = Vec::new();
    let mut m: u64 = n;
    let mut k: usize = 0;
    while k < 8
        invariant
            k <= 8,
            r@ + le_bytes(m as nat, (8 - k) as nat) == le_bytes(n as nat, 8),
        decreases 8 - k,
    {
        let ghost before = r@;
        let ghost rest = le_bytes((m / 256) as nat, (8 - k - 1) as nat);
        assert(le_bytes(m as nat, (8 - k) as nat) == seq![(m % 256) as u8] + rest);
        r.push((m % 256) as u8);
        assert(r@ + rest =~= before + (seq![(m % 256) as u8] + rest));
        m = m / 256;
        k = k + 1;
    }
    r
}

/// Derives `count` signers for a pool from a seed, deterministically: the
/// `i`-th secret is the Keccak-256 digest of the seed, the pool name and `i`.
/// Returns `None` exactly when one of those digests is not a valid key.
pub fn derive_signers(seed: &Vec<u8>, pool: &str, count: u64) -> (r: Option<Vec<Signer>>)
    ensures
        r is Some <==> derivable(seed@, pool@, count as nat),
        r matches Some(v) ==> derived_signers(seed@, pool@, count as nat, v@),
{
    let mut prefix: Vec<u8> = Vec::new();
    let mut j: usize = 0;
    while j < seed.len()
        invariant
            j <= seed.len(),
            prefix@ == seed@.take(j as int),
        decreases seed.len() - j,
    {
        prefix.push(seed[j]);
        j = j + 1;
        assert(prefix@ =~= seed@.take(j as int));
    }
    let name = pool.as_bytes();
    let mut j: usize = 0;
    while j < name.len()
        invariant
            j <= name@.len(),
            name@ == encode_utf8(pool@),
            prefix@ == seed@ + name@.take(j as int),
        decreases name@.len() - j,
    {
        prefix.push(name[j]);
        j = j + 1;
        assert(prefix@ =~= seed@ + name@.take(j as int));
    }
    assert(name@.take(name@.len() as int) =~= name@);
    let mut v: Vec<Signer> = Vec::new();
    let mut i: u64 = 0;
    while i < count
        invariant
            i <= count,
            prefix@ == seed@ + encode_utf8(pool@),
            forall|k: nat| k < i ==> (#[trigger] secret_address(derived_secret(seed@, pool@, k))) is Some,
            derived_signers(seed@, pool@, i as nat, v@),
        decreases count - i,
    {
        let mut input = prefix.clone();
        let idx = le_bytes_u64(i);
        let mut t: usize = 0;
        while t < idx.len()
            invariant
                t <= idx@.len(),
                input@ == prefix@ + idx@.take(t as int),
            decreases idx@.len() - t,
        {
            input.push(idx[t]);
            t = t + 1;
            assert(input@ =~= prefix@ + idx@.take(t as int));
        }
        assert(idx@.take(idx@.len() as int) =~= idx@);
        assert(input@ == derivation_input(seed@, pool@, i as nat));
        let secret = keccak(&input);
        assert(secret@ == derived_secret(seed@, pool@, i as nat));
        match address_of_secret(&secret) {
            Some(address) => {
                let ghost before = v@;
                v.push(Signer { secret, address });
                assert forall|k: nat| k < i + 1 implies (#[trigger] secret_address(
                    derived_secret(seed@, pool@, k),
                )) is Some by {
                    if k == i {
                    }
                }
                assert forall|x: int| 0 <= x < i + 1 implies {
                    &&& (#[trigger] v@[x]).secret@ == derived_secret(seed@, pool@, x as nat)
                    &&& secret_address(v@[x].secret@) == Some(v@[x].address@)
                } by {
                    if x < i {
                        assert(v@[x] == before[x]);
                    }
                }
            },
            None => {
                assert(secret_address(derived_secret(seed@, pool@, i as nat)) is None);
                assert(!derivable(seed@, pool@, count as nat));
                return None;
            },
        }
        i = i + 1;
    }
    Some(v)
}

/// Derivation is deterministic: two signer sets derived from the same seed,
/// pool name and count are the same, secret for secret and address for
/// address.
pub proof fn lemma_derivation_deterministic(
    seed: Seq<u8>,
    pool: Seq<char>,
    count: nat,
    a: Seq<Signer>,
    b: Seq<Signer>,
)
    requires
        derived_signers(seed, pool, count, a),
        derived_signers(seed, pool, count, b),
    ensures
        a.map_values(|s: Signer| s.view()) == b.map_values(|s: Signer| s.view()),
{
    assert forall|i: int| 0 <= i < count implies #[trigger] a[i].view() == b[i].view() by {
        assert(a[i].secret@ == b[i].secret@);
        assert(Some(a[i].address@) == Some(b[i].address@));
    }
    assert(a.map_values(|s: Signer| s.view()) =~= b.map_values(|s: Signer| s.view()));
}

} // verus!
