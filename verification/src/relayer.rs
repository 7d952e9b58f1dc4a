//! The relayer's settings: where it reads the concentration index from, and
//! which oracle contract on which network it writes it to.
use vstd::prelude::*;
use vstd::string::*;
use crate::network::SupportedNetwork;
use crate::principal::{anonymous_principal, parse_principal, principal_bytes};

verus! {

/// Seconds between two relays of the index.
pub const TASK_INTERVAL_SECS: u64 = 3600;

/// How many of the largest holders the relayed index covers.
pub const TOP_N_FOR_HHI: u64 = 100;

/// The lowercase hex digit of `d` (below 16).
pub open spec fn hex_digit(d: int) -> char {
    if d < 10 {
        (d + 48) as char
    } else {
        (d + 87) as char
    }
}

/// Two lowercase hex digits per byte, high digit first.
pub open spec fn hex_text(b: Seq<u8>) -> Seq<char> {
    Seq::new(
        2 * b.len(),
        |i: int|
            if i % 2 == 0 {
                hex_digit(b[i / 2] as int / 16)
            } else {
                hex_digit(b[i / 2] as int % 16)
            },
    )
}

/// `hex::encode`: lowercase hex, two digits per byte.
#[verifier::external_body]
fn hex_encode(bytes: &Vec<u8>) -> (r: String)
    ensures
        r@ == hex_text(bytes@),
{
    hex::encode(bytes)
}

/// What the relayer reports as its Ethereum address: the derived address
/// as `0x`-prefixed lowercase hex, or the message of the failure.
pub fn ethereum_address_text(derived: Result<Vec<u8>, String>) -> (r: String)
    ensures
        r@ == match derived {
            Ok(v) => seq!['0', 'x'] + hex_text(v@),
            Err(msg) => msg@,
        },
{
    match derived {
        Ok(v) => {
            let digits = hex_encode(&v);
            let mut text = String::from_str("0x");
            text.append(digits.as_str());
            proof {
                reveal_strlit("0x");
            }
            assert("0x"@ =~= seq!['0', 'x']);
            text
        },
        Err(msg) => msg,
    }
}

/// The relayer's settings.
pub struct RelayerStore {
    hhi_canister: Vec<u8>,
    mapper: String,
    oracle_address: String,
    network: SupportedNetwork,
}

impl RelayerStore {
    pub closed spec fn spec_hhi_canister(&self) -> Seq<u8> {
        self.hhi_canister@
    }

    pub closed spec fn spec_mapper(&self) -> Seq<char> {
        self.mapper@
    }

    pub closed spec fn spec_oracle_address(&self) -> Seq<char> {
        self.oracle_address@
    }

    pub closed spec fn spec_network(&self) -> SupportedNetwork {
        self.network
    }

    /// Settings before set-up: the anonymous principal, empty ids, mainnet.
    pub fn new() -> (r: Self)
        ensures
            r.spec_hhi_canister() == seq![4u8],
            r.spec_mapper() == Seq::<char>::empty(),
            r.spec_oracle_address() == Seq::<char>::empty(),
            r.spec_network() == SupportedNetwork::Mainnet,
    {
        RelayerStore {
            hhi_canister: anonymous_principal(),
            mapper: String::new(),
            oracle_address: String::new(),
            network: SupportedNetwork::Mainnet,
        }
    }

    /// The principal bytes of the index service.
    pub fn hhi_canister(&self) -> (r: Vec<u8>)
        ensures
            r@ == self.spec_hhi_canister(),
    {
        self.hhi_canister.clone()
    }

    /// Sets the index service from its principal in text form; other text
    /// is a caller error.
    pub fn set_hhi_canister(&mut self, hhi_canister_id: String)
        requires
            principal_bytes(hhi_canister_id@) is Some,
        ensures
            final(self).spec_hhi_canister() == principal_bytes(hhi_canister_id@)->Some_0,
            final(self).spec_mapper() == old(self).spec_mapper(),
            final(self).spec_oracle_address() == old(self).spec_oracle_address(),
            final(self).spec_network() == old(self).spec_network(),
    {
        match parse_principal(hhi_canister_id.as_str()) {
            Some(p) => {
                self.hhi_canister = p;
            },
            None => {},
        }
    }

    /// Like `set_hhi_canister`, but leaves the settings as they are and
    /// returns `false` when the text is no principal.
    pub fn try_set_hhi_canister(&mut self, hhi_canister_id: String) -> (ok: bool)
        ensures
            ok == (principal_bytes(hhi_canister_id@) is Some),
            final(self).spec_hhi_canister() == if ok {
                principal_bytes(hhi_canister_id@)->Some_0
            } else {
                old(self).spec_hhi_canister()
            },
            final(self).spec_mapper() == old(self).spec_mapper(),
            final(self).spec_oracle_address() == old(self).spec_oracle_address(),
            final(self).spec_network() == old(self).spec_network(),
    {
        if parse_principal(hhi_canister_id.as_str()).is_some() {
            self.set_hhi_canister(hhi_canister_id);
            true
        } else {
            false
        }
    }

    /// The mapping service's id.
    pub fn mapper(&self) -> (r: String)
        ensures
            r@ == self.spec_mapper(),
    {
        self.mapper.clone()
    }

    pub fn set_mapper(&mut self, mapper_canister_id: String)
        ensures
            final(self).spec_mapper() == mapper_canister_id@,
            final(self).spec_hhi_canister() == old(self).spec_hhi_canister(),
            final(self).spec_oracle_address() == old(self).spec_oracle_address(),
            final(self).spec_network() == old(self).spec_network(),
    {
        self.mapper = mapper_canister_id;
    }

    /// The oracle contract's address.
    pub fn oracle_address(&self) -> (r: String)
        ensures
            r@ == self.spec_oracle_address(),
    {
        self.oracle_address.clone()
    }

    pub fn set_oracle_address(&mut self, oracle_address: String)
        ensures
            final(self).spec_oracle_address() == oracle_address@,
            final(self).spec_hhi_canister() == old(self).spec_hhi_canister(),
            final(self).spec_mapper() == old(self).spec_mapper(),
            final(self).spec_network() == old(self).spec_network(),
    {
        self.oracle_address = oracle_address;
    }

    pub fn set_network(&mut self, nw: SupportedNetwork)
        ensures
            final(self).spec_network() == nw,
            final(self).spec_hhi_canister() == old(self).spec_hhi_canister(),
            final(self).spec_mapper() == old(self).spec_mapper(),
            final(self).spec_oracle_address() == old(self).spec_oracle_address(),
    {
        self.network = nw;
    }

    /// The network of the oracle contract.
    pub fn get_network(&self) -> (r: SupportedNetwork)
        ensures
            r == self.spec_network(),
    {
        self.network
    }

    /// Applies the relayer's set-up: index service, mapping service, network
    /// and oracle address. The index service must be a principal in text form.
    pub fn setup(
        &mut self,
        hhi_canister_id: String,
        mapper_canister_id: String,
        network: SupportedNetwork,
        oracle_addr: String,
    )
        requires
            principal_bytes(hhi_canister_id@) is Some,
        ensures
            final(self).spec_hhi_canister() == principal_bytes(hhi_canister_id@)->Some_0,
            final(self).spec_mapper() == mapper_canister_id@,
            final(self).spec_network() == network,
            final(self).spec_oracle_address() == oracle_addr@,
    {
        self.set_hhi_canister(hhi_canister_id);
        self.set_mapper(mapper_canister_id);
        self.set_network(network);
        self.set_oracle_address(oracle_addr);
    }

    /// Like `setup`, but leaves the settings as they are and returns `false`
    /// when `hhi_canister_id` is no principal.
    pub fn try_setup(
        &mut self,
        hhi_canister_id: String,
        mapper_canister_id: String,
        network: SupportedNetwork,
        oracle_addr: String,
    ) -> (ok: bool)
        ensures
            ok == (principal_bytes(hhi_canister_id@) is Some),
            ok ==> final(self).spec_hhi_canister() == principal_bytes(hhi_canister_id@)->Some_0
                && final(self).spec_mapper() == mapper_canister_id@ && final(self).spec_network()
                == network && final(self).spec_oracle_address() == oracle_addr@,
            !ok ==> final(self).spec_hhi_canister() == old(self).spec_hhi_canister()
                && final(self).spec_mapper() == old(self).spec_mapper() && final(self).spec_network()
                == old(self).spec_network() && final(self).spec_oracle_address()
                == old(self).spec_oracle_address(),
    {
        if parse_principal(hhi_canister_id.as_str()).is_some() {
            self.setup(hhi_canister_id, mapper_canister_id, network, oracle_addr);
            true
        } else {
            false
        }
    }
}

} // verus!
