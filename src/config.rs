//! Service settings and the fee-rate choice.

use vstd::prelude::*;

use crate::address::{keyname, BitcoinNetwork};

verus! {

/// Fee rate used when the network reports no percentiles: 2 sat/vbyte.
pub const DEFAULT_FEE_PER_VBYTE: u64 = 2000;

/// The fee rate to pay, in millisatoshi per virtual byte: the 50th
/// percentile of recent fees, or the default when none are reported.
pub fn fee_rate_from_percentiles(percentiles: &Vec<u64>) -> (r: u64)
    requires
        percentiles@.len() == 0 || percentiles@.len() > 50,
    ensures
        r == if percentiles@.len() == 0 { DEFAULT_FEE_PER_VBYTE } else { percentiles@[50] },
{
    if percentiles.len() == 0 {
        DEFAULT_FEE_PER_VBYTE
    } else {
        percentiles[50]
    }
}

/// Persistent settings of the service.
pub struct Config {
    pub bitcoin_network: Option<BitcoinNetwork>,
    pub keyname: Option<String>,
    pub ecdsa_public_key: Option<Vec<u8>>,
    pub commission_receiver_principal: Option<Vec<u8>>,
}

impl Config {
    /// Settings before initialisation.
    pub fn new() -> (r: Config)
        ensures
            r.bitcoin_network.is_none(),
            r.keyname.is_none(),
            r.ecdsa_public_key.is_none(),
            r.commission_receiver_principal.is_none(),
    {
        Config { bitcoin_network: None, keyname: None, ecdsa_public_key: None, commission_receiver_principal: None }
    }

    /// Initialises the network and the name of the signing key that goes
    /// with it.
    pub fn init(&mut self, network: BitcoinNetwork)
        ensures
            final(self).bitcoin_network == Some(network),
            final(self).keyname matches Some(k) && k@ == match network {
                BitcoinNetwork::Mainnet => "key_1"@,
                BitcoinNetwork::Testnet => "test_key_1"@,
                BitcoinNetwork::Regtest => "dfx_test_key"@,
            },
            final(self).ecdsa_public_key == old(self).ecdsa_public_key,
            final(self).commission_receiver_principal == old(self).commission_receiver_principal,
    {
        self.bitcoin_network = Some(network);
        self.keyname = Some(keyname(network));
    }

    pub fn bitcoin_network(&self) -> (r: BitcoinNetwork)
        requires
            self.bitcoin_network.is_some(),
        ensures
            Some(r) == self.bitcoin_network,
    {
        self.bitcoin_network.unwrap()
    }

    pub fn ecdsa_public_key(&self) -> (r: &Vec<u8>)
        requires
            self.ecdsa_public_key.is_some(),
        ensures
            Some(*r) == self.ecdsa_public_key,
    {
        self.ecdsa_public_key.as_ref().unwrap()
    }
}

} // verus!
