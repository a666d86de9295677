//! Deposit-address derivation: subaccounts, derivation paths and P2PKH addresses.

use vstd::prelude::*;

use crate::bytes::{extend_bytes, be_bytes_u128, be_bytes_u64, pow256};

verus! {

/// The Bitcoin network the service runs against.
#[derive(Clone, Copy, Debug, PartialEq, Eq, Structural)]
pub enum BitcoinNetwork {
    Mainnet,
    Testnet,
    Regtest,
}

/// SHA3-256 of `data`.
pub uninterp spec fn sha3_256_of(data: Seq<u8>) -> Seq<u8>;

/// SHA-256 of `data`.
pub uninterp spec fn sha256_of(data: Seq<u8>) -> Seq<u8>;

/// RIPEMD-160 of `data`.
pub uninterp spec fn ripemd160_of(data: Seq<u8>) -> Seq<u8>;

/// Base58 text of `data` (Bitcoin alphabet).
pub uninterp spec fn base58_of(data: Seq<u8>) -> Seq<char>;

/// Relies on tiny_keccak's Sha3::v256: the 32-byte SHA3-256 digest of `data`.
#[verifier::external_body]
fn sha3_256(data: &Vec<u8>) -> (r: Vec<u8>)
    ensures
        r@ == sha3_256_of(data@),
        r@.len() == 32,
{
    let mut hasher = tiny_keccak::Sha3::v256();
    tiny_keccak::Hasher::update(&mut hasher, data.as_slice());
    let mut out = [0u8; 32];
    tiny_keccak::Hasher::finalize(hasher, &mut out);
    out.to_vec()
}

/// Relies on bitcoin::hashes::sha256: the 32-byte SHA-256 digest of `data`.
#[verifier::external_body]
fn sha256(data: &Vec<u8>) -> (r: Vec<u8>)
    ensures
        r@ == sha256_of(data@),
        r@.len() == 32,
{
    let h = <bitcoin::hashes::sha256::Hash as bitcoin::hashes::Hash>::hash(data.as_slice());
    <bitcoin::hashes::sha256::Hash as bitcoin::hashes::Hash>::to_byte_array(h).to_vec()
}

/// Relies on bitcoin::hashes::ripemd160: the 20-byte RIPEMD-160 digest of `data`.
#[verifier::external_body]
fn ripemd160(data: &Vec<u8>) -> (r: Vec<u8>)
    ensures
        r@ == ripemd160_of(data@),
        r@.len() == 20,
{
    let h = <bitcoin::hashes::ripemd160::Hash as bitcoin::hashes::Hash>::hash(data.as_slice());
    <bitcoin::hashes::ripemd160::Hash as bitcoin::hashes::Hash>::to_byte_array(h).to_vec()
}

/// Relies on bs58::encode: the base58 text of `data`.
#[verifier::external_body]
fn base58(data: &Vec<u8>) -> (r: String)
    ensures
        r@ == base58_of(data@),
{
    bs58::encode(data.as_slice()).into_string()
}

proof fn lemma_pow256_values()
    ensures
        pow256(0) == 1,
        pow256(1) == 0x100,
        pow256(2) == 0x1_0000,
        pow256(3) == 0x100_0000,
        pow256(4) == 0x1_0000_0000,
        pow256(5) == 0x100_0000_0000,
        pow256(6) == 0x1_0000_0000_0000,
        pow256(7) == 0x100_0000_0000_0000,
        pow256(8) == 0x1_0000_0000_0000_0000,
        pow256(9) == 0x100_0000_0000_0000_0000,
        pow256(10) == 0x1_0000_0000_0000_0000_0000,
        pow256(11) == 0x100_0000_0000_0000_0000_0000,
        pow256(12) == 0x1_0000_0000_0000_0000_0000_0000,
        pow256(13) == 0x100_0000_0000_0000_0000_0000_0000,
        pow256(14) == 0x1_0000_0000_0000_0000_0000_0000_0000,
        pow256(15) == 0x100_0000_0000_0000_0000_0000_0000_0000,
{
    reveal_with_fuel(pow256, 16);
}

/// Big-endian bytes of a 64-bit integer.
pub fn u64_be_bytes(x: u64) -> (r: Vec<u8>)
    ensures
        r@ == be_bytes_u64(x),
{
    proof {
        lemma_pow256_values();
    }
    let mut out: Vec<u8> = Vec::new();
    let mut d: u64 = 0x100_0000_0000_0000;
    let mut i: usize = 0;
    while i < 8
        invariant
            i <= 8,
            out@.len() == i,
            i < 8 ==> d == pow256(7 - i),
            forall|k: int| 0 <= k < i ==> out@[k] == be_bytes_u64(x)[k],
        decreases 8 - i,
    {
        proof {
            lemma_pow256_values();
        }
        out.push(((x / d) % 256) as u8);
        if i < 7 {
            assert(pow256(7 - i) == 256 * pow256(6 - i));
            d = d / 256;
        }
        i = i + 1;
    }
    assert(out@ =~= be_bytes_u64(x));
    out
}

/// Big-endian bytes of a 128-bit integer.
pub fn u128_be_bytes(x: u128) -> (r: Vec<u8>)
    ensures
        r@ == be_bytes_u128(x),
{
    proof {
        lemma_pow256_values();
    }
    let mut out: Vec<u8> = Vec::new();
    let mut d: u128 = 0x100_0000_0000_0000_0000_0000_0000_0000;
    let mut i: usize = 0;
    while i < 16
        invariant
            i <= 16,
            out@.len() == i,
            i < 16 ==> d == pow256(15 - i),
            forall|k: int| 0 <= k < i ==> out@[k] == be_bytes_u128(x)[k],
        decreases 16 - i,
    {
        proof {
            lemma_pow256_values();
        }
        out.push(((x / d) % 256) as u8);
        if i < 15 {
            assert(pow256(15 - i) == 256 * pow256(14 - i));
            d = d / 256;
        }
        i = i + 1;
    }
    assert(out@ =~= be_bytes_u128(x));
    out
}

/// Subaccount of the deposit addresses of a caller: SHA3-256 of its
/// principal's bytes.
pub fn principal_to_subaccount(principal: &Vec<u8>) -> (r: Vec<u8>)
    ensures
        r@ == sha3_256_of(principal@),
        r@.len() == 32,
{
    sha3_256(principal)
}

/// What the subaccount of a pool hashes: its id and creation time, big-endian,
/// then the service's own principal.
pub open spec fn pool_subaccount_preimage(pool_id: u128, created_at: u64, service: Seq<u8>) -> Seq<u8> {
    be_bytes_u128(pool_id) + be_bytes_u64(created_at) + service
}

/// Subaccount of the deposit addresses of a pool.
pub fn generate_subaccount_for_pool(pool_id: u128, created_at: u64, service: &Vec<u8>) -> (r: Vec<u8>)
    ensures
        r@ == sha3_256_of(pool_subaccount_preimage(pool_id, created_at, service@)),
        r@.len() == 32,
{
    let mut data = u128_be_bytes(pool_id);
    let t = u64_be_bytes(created_at);
    extend_bytes(&mut data, &t);
    extend_bytes(&mut data, service);
    sha3_256(&data)
}

/// Version byte of a P2PKH address on `network`.
pub open spec fn p2pkh_prefix(network: BitcoinNetwork) -> u8 {
    match network {
        BitcoinNetwork::Mainnet => 0x00,
        _ => 0x6f,
    }
}

/// The P2PKH address of public key `pubkey` on `network`: base58 of the
/// version byte and HASH160 of the key, followed by the first four bytes of
/// the double SHA-256 of both.
pub open spec fn p2pkh_address_of(network: BitcoinNetwork, pubkey: Seq<u8>) -> Seq<char> {
    let payload = seq![p2pkh_prefix(network)] + ripemd160_of(sha256_of(pubkey));
    base58_of(payload + sha256_of(sha256_of(payload)).subrange(0, 4))
}

/// The P2PKH address of public key `pubkey` on `network`.
pub fn account_to_p2pkh_address(network: BitcoinNetwork, pubkey: &Vec<u8>) -> (r: String)
    ensures
        r@ == p2pkh_address_of(network, pubkey@),
{
    let prefix: u8 = match network {
        BitcoinNetwork::Mainnet => 0x00,
        _ => 0x6f,
    };
    let h = ripemd160(&sha256(pubkey));
    let mut payload: Vec<u8> = Vec::new();
    payload.push(prefix);
    extend_bytes(&mut payload, &h);
    let check = sha256(&sha256(&payload));
    let mut raw: Vec<u8> = Vec::new();
    extend_bytes(&mut raw, &payload);
    let mut i: usize = 0;
    while i < 4
        invariant
            i <= 4,
            check@.len() == 32,
            raw@ == payload@ + check@.subrange(0, i as int),
        decreases 4 - i,
    {
        raw.push(check[i]);
        i = i + 1;
        assert(raw@ =~= payload@ + check@.subrange(0, i as int));
    }
    proof {
        assert(payload@ =~= seq![p2pkh_prefix(network)] + ripemd160_of(sha256_of(pubkey@)));
    }
    base58(&raw)
}

/// Derivation path of the key that controls the deposit addresses of
/// `(owner, subaccount)`: the owner's bytes, then the subaccount.
pub open spec fn derivation_path_of(owner: Seq<u8>, subaccount: Seq<u8>) -> Seq<Seq<u8>> {
    seq![owner, subaccount]
}

/// Derivation path of the key that controls the deposit addresses of
/// `(owner, subaccount)`.
pub fn account_to_derivation_path(owner: &Vec<u8>, subaccount: &Vec<u8>) -> (r: Vec<Vec<u8>>)
    ensures
        r@.len() == 2,
        r@[0]@ == owner@,
        r@[1]@ == subaccount@,
{
    let mut path: Vec<Vec<u8>> = Vec::new();
    path.push(owner.clone());
    path.push(subaccount.clone());
    path
}

/// Different accounts are given different derivation paths.
pub proof fn lemma_derivation_path_injective(o1: Seq<u8>, s1: Seq<u8>, o2: Seq<u8>, s2: Seq<u8>)
    requires
        derivation_path_of(o1, s1) == derivation_path_of(o2, s2),
    ensures
        o1 == o2 && s1 == s2,
{
    assert(derivation_path_of(o1, s1)[0] == derivation_path_of(o2, s2)[0]);
    assert(derivation_path_of(o1, s1)[1] == derivation_path_of(o2, s2)[1]);
}

/// The P2PKH address derived for a subaccount is a function of the network,
/// the key the service derives for it, and nothing else: two derivations
/// that agree on both give the same address.
pub proof fn lemma_address_determinism(n1: BitcoinNetwork, k1: Seq<u8>, n2: BitcoinNetwork, k2: Seq<u8>)
    requires
        n1 == n2,
        k1 == k2,
    ensures
        p2pkh_address_of(n1, k1) == p2pkh_address_of(n2, k2),
{
}

/// Name of the threshold-ECDSA key used on `network`.
pub fn keyname(network: BitcoinNetwork) -> (r: String)
    ensures
        r@ == match network {
            BitcoinNetwork::Mainnet => "key_1"@,
            BitcoinNetwork::Testnet => "test_key_1"@,
            BitcoinNetwork::Regtest => "dfx_test_key"@,
        },
{
    match network {
        BitcoinNetwork::Mainnet => String::from_str("key_1"),
        BitcoinNetwork::Testnet => String::from_str("test_key_1"),
        BitcoinNetwork::Regtest => String::from_str("dfx_test_key"),
    }
}

} // verus!
