use vstd::prelude::*;
use vstd::string::*;
use crate::errors::ClientError;
use crate::text::str_eq;

verus! {

/// Where a contract call connects: the resolved node endpoint, and the
/// network label it was derived from, if one was given.
#[derive(Debug, Clone, PartialEq, Eq)]
pub struct NetworkContext {
    pub rpc_url: String,
    pub network: Option<String>,
}

/// The connection choices a command is invoked with: an optional
/// network label and an optional explicit endpoint.
#[derive(Debug, Clone, PartialEq, Eq)]
pub struct NetworkArgs {
    pub network: Option<String>,
    pub rpc_url: Option<String>,
}

impl NetworkArgs {
    /// Resolves the invocation's connection choices into a context,
    /// under the same rules as `build_network_context`.
    pub fn resolve(&self) -> (r: Result<NetworkContext, ClientError>)
        ensures
            match r {
                Ok(ctx) => {
                    &&& self.rpc_url matches Some(u) ==> {
                        &&& ctx.rpc_url@ == u@
                        &&& match (ctx.network, self.network) {
                            (Some(n), Some(m)) => n@ == m@,
                            (None, None) => true,
                            _ => false,
                        }
                    }
                    &&& self.rpc_url is None ==> match (self.network, ctx.network) {
                        (Some(n), Some(m)) => m@ == n@ && rpc_url_of(n@) == Option::Some(
                            ctx.rpc_url@,
                        ),
                        _ => false,
                    }
                },
                Err(e) => match (self.rpc_url, self.network) {
                    (Option::None, Option::None) => e == ClientError::MissingNetwork,
                    (Option::None, Option::Some(n)) => {
                        &&& rpc_url_of(n@) is None
                        &&& e matches ClientError::UnknownNetwork(t) && t@ == n@
                    },
                    _ => false,
                },
            },
    {
        let rpc_url: Option<&str> = match &self.rpc_url {
            Option::Some(u) => Option::Some(u.as_str()),
            Option::None => Option::None,
        };
        let network: Option<&str> = match &self.network {
            Option::Some(n) => Option::Some(n.as_str()),
            Option::None => Option::None,
        };
        build_network_context(rpc_url, network)
    }
}

/// The node endpoint a known network name resolves to.
pub open spec fn rpc_url_of(network: Seq<char>) -> Option<Seq<char>> {
    if network == "mainnet"@ {
        Option::Some("https://mainnet.infura.io/v3/YOUR_PROJECT_ID"@)
    } else if network == "sepolia"@ {
        Option::Some("https://sepolia.infura.io/v3/YOUR_PROJECT_ID"@)
    } else if network == "goerli"@ {
        Option::Some("https://goerli.infura.io/v3/YOUR_PROJECT_ID"@)
    } else if network == "localhost"@ {
        Option::Some("http://localhost:8545"@)
    } else {
        Option::None
    }
}

/// Resolves a known network name to an RPC URL.
pub fn resolve_rpc_url(network: &str) -> (r: Option<String>)
    ensures
        match r {
            Some(u) => rpc_url_of(network@) == Option::Some(u@),
            None => rpc_url_of(network@) is None,
        },
{
    if str_eq(network, "mainnet") {
        Option::Some(String::from_str("https://mainnet.infura.io/v3/YOUR_PROJECT_ID"))
    } else if str_eq(network, "sepolia") {
        Option::Some(String::from_str("https://sepolia.infura.io/v3/YOUR_PROJECT_ID"))
    } else if str_eq(network, "goerli") {
        Option::Some(String::from_str("https://goerli.infura.io/v3/YOUR_PROJECT_ID"))
    } else if str_eq(network, "localhost") {
        Option::Some(String::from_str("http://localhost:8545"))
    } else {
        Option::None
    }
}

/// Builds the connection context for an operation.  An explicit
/// endpoint always wins; a network label alone must be a known name;
/// giving neither is an error.
pub fn build_network_context(rpc_url_opt: Option<&str>, network_opt: Option<&str>) -> (r: Result<
    NetworkContext,
    ClientError,
>)
    ensures
        match r {
            Ok(ctx) => {
                &&& rpc_url_opt matches Some(u) ==> {
                    &&& ctx.rpc_url@ == u@
                    &&& match (ctx.network, network_opt) {
                        (Some(n), Some(m)) => n@ == m@,
                        (None, None) => true,
                        _ => false,
                    }
                }
                &&& rpc_url_opt is None ==> match (network_opt, ctx.network) {
                    (Some(n), Some(m)) => m@ == n@ && rpc_url_of(n@) == Option::Some(ctx.rpc_url@),
                    _ => false,
                }
            },
            Err(e) => match (rpc_url_opt, network_opt) {
                (Option::None, Option::None) => e == ClientError::MissingNetwork,
                (Option::None, Option::Some(n)) => {
                    &&& rpc_url_of(n@) is None
                    &&& e matches ClientError::UnknownNetwork(t) && t@ == n@
                },
                _ => false,
            },
        },
{
    if let Option::Some(url) = rpc_url_opt {
        let network: Option<String> = match network_opt {
            Option::Some(n) => Option::Some(String::from_str(n)),
            Option::None => Option::None,
        };
        return Ok(NetworkContext { network, rpc_url: String::from_str(url) });
    }
    if let Option::Some(network) = network_opt {
        match resolve_rpc_url(network) {
            Option::Some(resolved) => Ok(
                NetworkContext {
                    network: Option::Some(String::from_str(network)),
                    rpc_url: resolved,
                },
            ),
            Option::None => Err(ClientError::UnknownNetwork(String::from_str(network))),
        }
    } else {
        Err(ClientError::MissingNetwork)
    }
}

} // verus!
