//! The substrate resolver: use whatever inference server already serves. Probing an endpoint
//! (a TCP connect) is the wiring layer's; the candidate order and the choice over the probe
//! results stand here.

use vstd::prelude::*;
use crate::engine::{debug_list, debug_strings};
use crate::errors::KeelError;
use crate::text::{chars_of, push_str, str_eq, string_at, views};

verus! {

/// The canonical local probe order: LM Studio, Ollama, llama-server (base URLs, no path).
pub fn default_local_candidates() -> (r: Vec<String>)
    ensures
        views(r@) == seq!["http://127.0.0.1:1234"@, "http://127.0.0.1:11434"@, "http://127.0.0.1:8080"@],
{
    let mut r: Vec<String> = Vec::new();
    r.push(String::from_str("http://127.0.0.1:1234"));
    r.push(String::from_str("http://127.0.0.1:11434"));
    r.push(String::from_str("http://127.0.0.1:8080"));
    assert(views(r@) =~= seq!["http://127.0.0.1:1234"@, "http://127.0.0.1:11434"@, "http://127.0.0.1:8080"@]);
    r
}

/// `s` without its trailing `/` chars.
pub open spec fn trim_slashes(s: Seq<char>) -> Seq<char>
    decreases s.len(),
{
    if s.len() > 0 && s.last() == '/' {
        trim_slashes(s.drop_last())
    } else {
        s
    }
}

/// The first index whose probe found a live server.
pub open spec fn first_live(live: Seq<bool>, i: int) -> Option<int>
    decreases live.len() - i,
{
    if i < 0 || i >= live.len() {
        None
    } else if live[i] {
        Some(i)
    } else {
        first_live(live, i + 1)
    }
}

/// Resolve the first live endpoint among `candidates`, given each one's probe result in order
/// (`live[i]` for `candidates[i]`; a candidate after the first live one need not be probed): its
/// base URL without a trailing slash, or `SUBSTRATE_UNRESOLVED` naming the candidates when none
/// responds.
pub fn resolve_endpoint(candidates: &Vec<String>, live: &Vec<bool>) -> (r: Result<String, KeelError>)
    requires
        live@.len() == candidates@.len(),
    ensures
        match first_live(live@, 0) {
            Some(i) => r matches Ok(s) && s@ == trim_slashes(candidates@[i]@),
            None => r matches Err(KeelError::SubstrateUnresolved(m)) && m@
                == "no inference server reachable among "@ + debug_strings(views(candidates@)),
        },
{
    let mut i: usize = 0;
    while i < candidates.len()
        invariant
            i <= candidates@.len() == live@.len(),
            first_live(live@, 0) == first_live(live@, i as int),
        decreases candidates@.len() - i,
    {
        if live[i] {
            let v = chars_of(candidates[i].as_str());
            let mut j = v.len();
            assert(v@.subrange(0, v@.len() as int) =~= v@);
            while j > 0 && v[j - 1] == '/'
                invariant
                    j <= v@.len(),
                    trim_slashes(v@) == trim_slashes(v@.subrange(0, j as int)),
                decreases j,
            {
                assert(v@.subrange(0, j as int).drop_last() =~= v@.subrange(0, j - 1));
                j = j - 1;
            }
            assert(v@.subrange(0, v@.len() as int) =~= v@);
            return Ok(string_at(&v, 0, j));
        }
        i = i + 1;
    }
    let mut m = String::from_str("no inference server reachable among ");
    let d = debug_list(candidates);
    push_str(&mut m, d.as_str());
    Err(KeelError::SubstrateUnresolved(m))
}

} // verus!

verus! {

/// DeepSeek's public API base URL, used when a tier configures no endpoint.
pub const DEEPSEEK_ENDPOINT: &'static str = "https://api.deepseek.com";

/// Anthropic's public API base URL, used when a tier configures no endpoint.
pub const ANTHROPIC_ENDPOINT: &'static str = "https://api.anthropic.com";

/// How one configured tier is wired: the local server (at its configured endpoint, or one the
/// substrate resolver finds), or a cloud API at an endpoint with a key.
#[derive(Clone, Debug)]
pub enum TierWiring {
    Local { endpoint: Option<String> },
    DeepSeek { endpoint: String, key: String },
    Anthropic { endpoint: String, key: String },
}

/// The error for a cloud tier whose key variable is unset.
pub open spec fn missing_key_message(tier: Seq<char>, key_env: Option<Seq<char>>) -> Seq<char> {
    "tier '"@ + tier + "' needs env var "@ + match key_env {
        Some(e) => e,
        None => "?"@,
    }
}

/// The error for an adapter name no tier knows.
pub open spec fn unknown_adapter_message(tier: Seq<char>, adapter: Seq<char>) -> Seq<char> {
    "unknown adapter '"@ + adapter + "' for tier '"@ + tier + "'"@
}

/// The text of an optional string.
pub open spec fn opt_seq(o: Option<String>) -> Option<Seq<char>> {
    match o {
        Some(s) => Some(s@),
        None => None,
    }
}

fn endpoint_or(endpoint: Option<String>, default: &str) -> (r: String)
    ensures
        r@ == match endpoint {
            Some(e) => e@,
            None => default@,
        },
{
    match endpoint {
        Some(e) => e,
        None => String::from_str(default),
    }
}

/// Plan the wiring of a configured tier from its adapter name, configured endpoint and key (the
/// value of its key variable, when set): `local_llama` needs no key; `deepseek` and `anthropic`
/// need one and default to their public endpoints; any other adapter is refused.
pub fn plan_wiring(tier: &str, adapter: &str, endpoint: Option<String>, key: Option<String>, key_env: Option<String>) -> (r:
    Result<TierWiring, KeelError>)
    ensures
        adapter@ == "local_llama"@ ==> (r matches Ok(TierWiring::Local { endpoint: e }) && opt_seq(e) == opt_seq(endpoint)),
        adapter@ == "deepseek"@ || adapter@ == "anthropic"@ ==> match key {
            None => r matches Err(KeelError::Other(m)) && m@ == missing_key_message(tier@, opt_seq(key_env)),
            Some(k) => {
                let ep = match endpoint {
                    Some(e) => e@,
                    None => if adapter@ == "deepseek"@ { DEEPSEEK_ENDPOINT@ } else { ANTHROPIC_ENDPOINT@ },
                };
                if adapter@ == "deepseek"@ {
                    r matches Ok(TierWiring::DeepSeek { endpoint: e, key: kk }) && e@ == ep && kk@ == k@
                } else {
                    r matches Ok(TierWiring::Anthropic { endpoint: e, key: kk }) && e@ == ep && kk@ == k@
                }
            },
        },
        !(adapter@ == "local_llama"@ || adapter@ == "deepseek"@ || adapter@ == "anthropic"@) ==> (r matches Err(
            KeelError::Other(m),
        ) && m@ == unknown_adapter_message(tier@, adapter@)),
{
    let local = str_eq(adapter, "local_llama");
    let deepseek = str_eq(adapter, "deepseek");
    let anthropic = str_eq(adapter, "anthropic");
    if local {
        proof {
            reveal_strlit("local_llama");
            reveal_strlit("deepseek");
            reveal_strlit("anthropic");
            assert("local_llama"@.len() == 11);
            assert(adapter@ != "deepseek"@);
            assert(adapter@ != "anthropic"@);
        }
        return Ok(TierWiring::Local { endpoint });
    }
    if deepseek || anthropic {
        proof {
            reveal_strlit("deepseek");
            reveal_strlit("anthropic");
        }
        let k = match key {
            Some(k) => k,
            None => {
                let mut m = String::from_str("tier '");
                push_str(&mut m, tier);
                push_str(&mut m, "' needs env var ");
                match &key_env {
                    Some(e) => push_str(&mut m, e.as_str()),
                    None => push_str(&mut m, "?"),
                }
                return Err(KeelError::Other(m));
            },
        };
        if deepseek {
            return Ok(TierWiring::DeepSeek { endpoint: endpoint_or(endpoint, DEEPSEEK_ENDPOINT), key: k });
        }
        return Ok(TierWiring::Anthropic { endpoint: endpoint_or(endpoint, ANTHROPIC_ENDPOINT), key: k });
    }
    let mut m = String::from_str("unknown adapter '");
    push_str(&mut m, adapter);
    push_str(&mut m, "' for tier '");
    push_str(&mut m, tier);
    push_str(&mut m, "'");
    Err(KeelError::Other(m))
}

/// Whether the engine leaves a configured tier out: a cloud tier whose key is unset (the local
/// tier needs none).
pub fn tier_skipped(adapter: &str, has_key: bool) -> (r: bool)
    ensures
        r == (adapter@ != "local_llama"@ && !has_key),
{
    !str_eq(adapter, "local_llama") && !has_key
}

} // verus!
