//! A client: a key pair, and the node that its transactions go to.

use crate::crypto::{generate_rsa_keypair, random_uuid, RSA_KEY_BITS};
use crate::encoding::{encode_hex, hex_decoded, hex_encoded, hex_round_trip};
use crate::models::network::{generate_transaction, signed_transaction, SigningError};
use crate::node::{Transaction, TransactionView};
use vstd::prelude::*;

verus! {

/// A key pair, both keys as the hex string of their PEM text, and the port
/// of the node that the client talks to.
#[derive(Debug, PartialEq, Eq)]
pub struct Client {
    pub public_key: String,
    pub private_key: String,
    pub port: u16,
}

/// A client as a mathematical value.
pub struct ClientView {
    pub public_key: Seq<char>,
    pub private_key: Seq<char>,
    pub port: int,
}

impl View for Client {
    type V = ClientView;

    open spec fn view(&self) -> ClientView {
        ClientView {
            public_key: self.public_key@,
            private_key: self.private_key@,
            port: self.port as int,
        }
    }
}

impl Client {
    /// The client that holds the given key pair, each key as PEM text.
    pub fn from_keys(public_pem: &[u8], private_pem: &[u8], port: u16) -> (client: Client)
        ensures
            client@ == (ClientView {
                public_key: hex_encoded(public_pem@),
                private_key: hex_encoded(private_pem@),
                port: port as int,
            }),
    {
        Client { public_key: encode_hex(public_pem), private_key: encode_hex(private_pem), port }
    }

    /// The client that comes of an attempt to generate a key pair: where the
    /// attempt gave the PEM text of a public and of a private key, the client
    /// that holds them; where it gave nothing, none.
    pub fn from_generated(keys: Option<(Vec<u8>, Vec<u8>)>, port: u16) -> (made: Option<Client>)
        ensures
            (match keys {
                Some((public_pem, private_pem)) => made matches Some(client) && client@ == (
                ClientView {
                    public_key: hex_encoded(public_pem@),
                    private_key: hex_encoded(private_pem@),
                    port: port as int,
                }),
                None => made is None,
            }),
    {
        match keys {
            Some((public_pem, private_pem)) => Some(
                Client::from_keys(public_pem.as_slice(), private_pem.as_slice(), port),
            ),
            None => None,
        }
    }

    /// A client with a freshly generated key pair; `None` where no key pair
    /// could be generated. Both keys are hex strings.
    pub fn new(port: u16) -> (made: Option<Client>)
        ensures
            (made matches Some(client) ==> {
                &&& client@.port == port
                &&& hex_decoded(client@.public_key) is Some
                &&& hex_decoded(client@.private_key) is Some
            }),
    {
        let keys = match generate_rsa_keypair(RSA_KEY_BITS) {
            Ok(pair) => Some(pair),
            Err(_) => None,
        };
        proof {
            if keys is Some {
                let pair = keys->Some_0;
                hex_round_trip(pair.0@);
                hex_round_trip(pair.1@);
            }
        }
        Client::from_generated(keys, port)
    }

    /// Generate a transaction from this client to `receiver` at the time
    /// `timestamp`, under a random id, hashed and signed with the client's
    /// private key.
    pub fn generate_transaction(
        &self,
        receiver: String,
        amount: i32,
        fee: i32,
        timestamp: u32,
    ) -> (made: Result<Transaction, SigningError>)
        ensures
            (match made {
                Ok(t) => signed_transaction(
                    t@.id,
                    self@.public_key,
                    self@.private_key,
                    receiver@,
                    amount as int,
                    fee as int,
                    timestamp as int,
                ) == Ok::<TransactionView, SigningError>(t@),
                Err(e) => forall|id: Seq<char>|
                    #[trigger] signed_transaction(
                        id,
                        self@.public_key,
                        self@.private_key,
                        receiver@,
                        amount as int,
                        fee as int,
                        timestamp as int,
                    ) == Err::<TransactionView, SigningError>(e),
            }),
    {
        generate_transaction(
            random_uuid(),
            self.public_key.clone(),
            self.private_key.as_str(),
            receiver,
            amount,
            fee,
            timestamp,
        )
    }
}

} // verus!
