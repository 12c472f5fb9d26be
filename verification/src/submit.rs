//! Transaction submission routes, and the check that a private relay is
//! reached over an encrypted transport.

use vstd::prelude::*;
use vstd::std_specs::iter::IteratorSpec;
use vstd::string::*;

verus! {

broadcast use vstd::string::group_string_axioms;

/// How a signed transaction reaches the chain.
#[derive(Debug, Clone)]
pub enum SubmitRoute {
    /// Broadcast through the node's public mempool.
    Public,
    /// Submit to a private relay / RPC endpoint.
    Private { url: String },
}

/// `prefix` is a prefix of `s`.
pub open spec fn has_prefix(s: Seq<char>, prefix: Seq<char>) -> bool {
    prefix.len() <= s.len() && s.take(prefix.len() as int) == prefix
}

/// Whether `s` starts with `prefix`.
pub fn starts_with(s: &str, prefix: &str) -> (b: bool)
    ensures
        b == has_prefix(s@, prefix@),
{
    let mut chars = s.chars();
    let mut wanted = prefix.chars();
    let ghost mut k: int = 0;
    loop
        invariant
            0 <= k <= prefix@.len(),
            k <= s@.len(),
            chars.remaining() == s@.skip(k),
            wanted.remaining() == prefix@.skip(k),
            s@.take(k) == prefix@.take(k),
        decreases prefix@.len() - k,
    {
        match wanted.next() {
            None => {
                proof {
                    assert(prefix@.skip(k).len() == 0);
                    assert(prefix@.take(k) =~= prefix@);
                }
                return true;
            },
            Some(p) => {
                match chars.next() {
                    None => {
                        return false;
                    },
                    Some(c) => {
                        if c != p {
                            proof {
                                assert(s@[k] != prefix@[k]);
                                if has_prefix(s@, prefix@) {
                                    assert(s@.take(prefix@.len() as int)[k] == s@[k]);
                                }
                            }
                            return false;
                        }
                        proof {
                            assert(s@.take(k + 1) =~= s@.take(k).push(c));
                            assert(prefix@.take(k + 1) =~= prefix@.take(k).push(p));
                            assert(s@.skip(k).drop_first() =~= s@.skip(k + 1));
                            assert(prefix@.skip(k).drop_first() =~= prefix@.skip(k + 1));
                            k = k + 1;
                        }
                    },
                }
            },
        }
    }
}

/// A private endpoint that is not reached over `https://` or `wss://`.
#[derive(Debug, Clone)]
pub struct PlaintextEndpoint {
    pub url: String,
}

impl PlaintextEndpoint {
    /// The reason the endpoint was refused.
    pub fn message(&self) -> (m: String)
        ensures
            m@ == "private RPC must be https:// or wss://, got: "@ + self.url@,
    {
        let mut m = String::from_str("private RPC must be https:// or wss://, got: ");
        m.append(self.url.as_str());
        m
    }
}

/// Private endpoints must use an encrypted transport: a plaintext relay URL
/// would leak the bundle.
pub fn validate_private_endpoint(url: &str) -> (r: Result<(), PlaintextEndpoint>)
    ensures
        r is Ok <==> has_prefix(url@, "https://"@) || has_prefix(url@, "wss://"@),
        r matches Err(e) ==> e.url@ == url@,
{
    if starts_with(url, "https://") || starts_with(url, "wss://") {
        Ok(())
    } else {
        Err(PlaintextEndpoint { url: url.to_owned() })
    }
}

/// Submitter that signs and broadcasts through a wallet-backed provider.
pub struct ProviderSubmitter<P> {
    provider: P,
}

impl<P> ProviderSubmitter<P> {
    /// A submitter over `provider`.
    pub fn new(provider: P) -> (s: Self)
        ensures
            s.spec_provider() == provider,
    {
        ProviderSubmitter { provider }
    }

    /// The provider the submitter sends through.
    pub closed spec fn spec_provider(&self) -> P {
        self.provider
    }

    /// The provider the submitter sends through.
    pub fn provider(&self) -> (p: &P)
        ensures
            *p == self.spec_provider(),
    {
        &self.provider
    }
}

} // verus!
