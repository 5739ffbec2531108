use vstd::prelude::*;
use vstd::string::*;

verus! {

/// Broad classification of a failure, used by callers that only care
/// whether an error came from local state, from input validation, from
/// the operator declining a prompt, from the transport, or from the
/// chain itself.
#[derive(Debug, Clone, Copy, PartialEq, Eq, Structural)]
pub enum ErrorKind {
    Config,
    Validation,
    Abort,
    Network,
    Chain,
}

/// Every failure the client can report.  Mirror-lookup and validation
/// errors are raised before any network interaction; `UserAbort` means a
/// confirmation prompt was declined; `Network` wraps a transport
/// failure; `ChainReverted` and `ChainStatusUnknown` classify a receipt
/// whose status field is a failure or uninterpretable.
#[derive(Debug, Clone, PartialEq, Eq)]
pub enum ClientError {
    InvalidConfigFormat,
    KeyNotFound(String),
    DuplicateKey(String),
    MissingNetwork,
    UnknownNetwork(String),
    InvalidAddress(String),
    InvalidHex(String),
    InvalidRole(String),
    InvalidField(String),
    InvalidPrivateKey(String),
    UserAbort,
    Network(String),
    ChainReverted,
    ChainStatusUnknown,
}

impl ClientError {
    /// Which part of the error taxonomy a value falls under.
    pub open spec fn kind_spec(&self) -> ErrorKind {
        match self {
            ClientError::InvalidConfigFormat => ErrorKind::Config,
            ClientError::KeyNotFound(_) => ErrorKind::Config,
            ClientError::DuplicateKey(_) => ErrorKind::Config,
            ClientError::MissingNetwork => ErrorKind::Config,
            ClientError::UnknownNetwork(_) => ErrorKind::Config,
            ClientError::InvalidAddress(_) => ErrorKind::Validation,
            ClientError::InvalidHex(_) => ErrorKind::Validation,
            ClientError::InvalidRole(_) => ErrorKind::Validation,
            ClientError::InvalidField(_) => ErrorKind::Validation,
            ClientError::InvalidPrivateKey(_) => ErrorKind::Validation,
            ClientError::UserAbort => ErrorKind::Abort,
            ClientError::Network(_) => ErrorKind::Network,
            ClientError::ChainReverted => ErrorKind::Chain,
            ClientError::ChainStatusUnknown => ErrorKind::Chain,
        }
    }

    pub fn kind(&self) -> (k: ErrorKind)
        ensures
            k == self.kind_spec(),
    {
        match self {
            ClientError::InvalidConfigFormat => ErrorKind::Config,
            ClientError::KeyNotFound(_) => ErrorKind::Config,
            ClientError::DuplicateKey(_) => ErrorKind::Config,
            ClientError::MissingNetwork => ErrorKind::Config,
            ClientError::UnknownNetwork(_) => ErrorKind::Config,
            ClientError::InvalidAddress(_) => ErrorKind::Validation,
            ClientError::InvalidHex(_) => ErrorKind::Validation,
            ClientError::InvalidRole(_) => ErrorKind::Validation,
            ClientError::InvalidField(_) => ErrorKind::Validation,
            ClientError::InvalidPrivateKey(_) => ErrorKind::Validation,
            ClientError::UserAbort => ErrorKind::Abort,
            ClientError::Network(_) => ErrorKind::Network,
            ClientError::ChainReverted => ErrorKind::Chain,
            ClientError::ChainStatusUnknown => ErrorKind::Chain,
        }
    }

    /// The text of the message shown for an error.
    pub open spec fn message_spec(&self) -> Seq<char> {
        match self {
            ClientError::InvalidConfigFormat => "invalid config format: expected an array of key entries"@,
            ClientError::KeyNotFound(id) => "key '"@ + id@ + "' not found in config"@,
            ClientError::DuplicateKey(id) => "key '"@ + id@ + "' already exists in config"@,
            ClientError::MissingNetwork => "either an rpc url or a network name must be given"@,
            ClientError::UnknownNetwork(n) => "unknown network name: "@ + n@,
            ClientError::InvalidAddress(a) => "invalid address: "@ + a@,
            ClientError::InvalidHex(d) => "invalid hex data: "@ + d@,
            ClientError::InvalidRole(r) => "invalid role: "@ + r@ + ". expected one of 'Owner', 'Writer', 'Reader', 'None'"@,
            ClientError::InvalidField(f) => "missing or malformed field: "@ + f@,
            ClientError::InvalidPrivateKey(p) => "invalid private key format from path: "@ + p@,
            ClientError::UserAbort => "transaction aborted by user"@,
            ClientError::Network(m) => "network error: "@ + m@,
            ClientError::ChainReverted => "transaction failed on-chain"@,
            ClientError::ChainStatusUnknown => "transaction status unknown: it might have been dropped or replaced"@,
        }
    }

    /// Render the message; the command layer prints this before exiting
    /// with a failure status.
    pub fn message(&self) -> (m: String)
        ensures
            m@ == self.message_spec(),
    {
        match self {
            ClientError::InvalidConfigFormat => String::from_str("invalid config format: expected an array of key entries"),
            ClientError::KeyNotFound(id) => {
                let mut m = String::from_str("key '");
                m.append(id.as_str());
                m.append("' not found in config");
                m
            },
            ClientError::DuplicateKey(id) => {
                let mut m = String::from_str("key '");
                m.append(id.as_str());
                m.append("' already exists in config");
                m
            },
            ClientError::MissingNetwork => String::from_str("either an rpc url or a network name must be given"),
            ClientError::UnknownNetwork(n) => {
                let mut m = String::from_str("unknown network name: ");
                m.append(n.as_str());
                m
            },
            ClientError::InvalidAddress(a) => {
                let mut m = String::from_str("invalid address: ");
                m.append(a.as_str());
                m
            },
            ClientError::InvalidHex(d) => {
                let mut m = String::from_str("invalid hex data: ");
                m.append(d.as_str());
                m
            },
            ClientError::InvalidRole(r) => {
                let mut m = String::from_str("invalid role: ");
                m.append(r.as_str());
                m.append(". expected one of 'Owner', 'Writer', 'Reader', 'None'");
                m
            },
            ClientError::InvalidField(f) => {
                let mut m = String::from_str("missing or malformed field: ");
                m.append(f.as_str());
                m
            },
            ClientError::InvalidPrivateKey(p) => {
                let mut m = String::from_str("invalid private key format from path: ");
                m.append(p.as_str());
                m
            },
            ClientError::UserAbort => String::from_str("transaction aborted by user"),
            ClientError::Network(msg) => {
                let mut m = String::from_str("network error: ");
                m.append(msg.as_str());
                m
            },
            ClientError::ChainReverted => String::from_str("transaction failed on-chain"),
            ClientError::ChainStatusUnknown => String::from_str("transaction status unknown: it might have been dropped or replaced"),
        }
    }
}

} // verus!
