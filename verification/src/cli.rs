//! Which chain and which providers to use.

use vstd::prelude::*;

use crate::primitives::{decimal, numbered};

verus! {

/// What the command line says of the provider. The URLs are given as text.
#[derive(Debug)]
pub struct ProviderArgs {
    pub chain_id: Option<u64>,
    pub basic_rpc_url: Option<String>,
    pub debug_rpc_url: Option<String>,
}

impl Clone for ProviderArgs {
    fn clone(&self) -> (r: Self)
        ensures
            r == *self,
    {
        ProviderArgs {
            chain_id: self.chain_id,
            basic_rpc_url: self.basic_rpc_url.clone(),
            debug_rpc_url: self.debug_rpc_url.clone(),
        }
    }
}

/// The chain, and the providers where they are known.
#[derive(Debug)]
pub struct ProviderConfig {
    pub chain_id: u64,
    pub basic_rpc_url: Option<String>,
    pub debug_rpc_url: Option<String>,
}

/// What is still missing for a configuration.
#[derive(Debug)]
pub enum ProviderStep {
    /// Nothing.
    Ready(ProviderConfig),
    /// The values of the environment variables that stand in for URLs that were not given.
    ReadEnv {
        chain_id: u64,
        basic_rpc_url: Option<String>,
        debug_rpc_url: Option<String>,
        basic_var: String,
        debug_var: String,
    },
    /// The chain ID that each of the two providers reports.
    AskChainId { basic_url: String, debug_url: String },
    /// The chain: neither its ID nor both URLs were given.
    Incomplete,
}

/// Why there is no configuration.
#[derive(Debug)]
pub enum ProviderError {
    /// The value of an environment variable is no URL.
    InvalidUrl(String),
    /// The providers report different chain IDs.
    DifferentChains(u64, u64),
}

/// A URL in its normal form, if the text is one.
pub uninterp spec fn parsed_url(text: Seq<char>) -> Option<Seq<char>>;

/// Calls `url::Url::parse`, and returns the URL as text. Whether it succeeds, and with which URL,
/// is a function of the text alone.
#[verifier::external_body]
fn parse_url(text: &str) -> (r: Option<String>)
    ensures
        match r {
            Some(url) => parsed_url(text@) == Some(url@),
            None => parsed_url(text@) is None,
        },
{
    url::Url::parse(text).ok().map(String::from)
}

impl ProviderArgs {
    /// Decides what is still missing. With a chain ID, a URL that is not given comes from the
    /// environment; without one, both URLs have to be given, and the providers tell the chain ID.
    pub fn into_provider(self) -> (r: ProviderStep)
        ensures
            match (self.chain_id, self.basic_rpc_url, self.debug_rpc_url) {
                (Some(chain_id), Some(basic), Some(debug)) => {
                    &&& r matches ProviderStep::Ready(config)
                    &&& config.chain_id == chain_id
                    &&& config.basic_rpc_url == Some(basic)
                    &&& config.debug_rpc_url == Some(debug)
                },
                (Some(chain_id), basic, debug) => {
                    &&& r matches ProviderStep::ReadEnv {
                        chain_id: id,
                        basic_rpc_url,
                        debug_rpc_url,
                        basic_var,
                        debug_var,
                    }
                    &&& id == chain_id
                    &&& basic_rpc_url == basic
                    &&& debug_rpc_url == debug
                    &&& basic_var@ == "BASIC_RPC_"@ + decimal(chain_id as nat)
                    &&& debug_var@ == "DEBUG_RPC_"@ + decimal(chain_id as nat)
                },
                (None, Some(basic), Some(debug)) => {
                    &&& r matches ProviderStep::AskChainId { basic_url, debug_url }
                    &&& basic_url == basic
                    &&& debug_url == debug
                },
                (None, _, _) => r is Incomplete,
            },
    {
        match (self.chain_id, self.basic_rpc_url, self.debug_rpc_url) {
            (Some(chain_id), Some(basic), Some(debug)) => ProviderStep::Ready(
                ProviderConfig {
                    chain_id,
                    basic_rpc_url: Some(basic),
                    debug_rpc_url: Some(debug),
                },
            ),
            (Some(chain_id), basic_rpc_url, debug_rpc_url) => {
                let basic_var: String = numbered("BASIC_RPC_", chain_id, "");
                let debug_var: String = numbered("DEBUG_RPC_", chain_id, "");
                proof {
                    reveal_strlit("");
                    assert(basic_var@ =~= "BASIC_RPC_"@ + decimal(chain_id as nat));
                    assert(debug_var@ =~= "DEBUG_RPC_"@ + decimal(chain_id as nat));
                }
                ProviderStep::ReadEnv {
                    chain_id,
                    basic_rpc_url,
                    debug_rpc_url,
                    basic_var,
                    debug_var,
                }
            },
            (None, Some(basic_url), Some(debug_url)) => ProviderStep::AskChainId {
                basic_url,
                debug_url,
            },
            (None, _, _) => ProviderStep::Incomplete,
        }
    }
}

/// The outcome of choosing a URL: the one that was given, or else the value of the environment
/// variable where it is set. A value that is used has to be a URL.
pub open spec fn chooses_url(
    given: Option<String>,
    env: Option<String>,
    chosen: Result<Option<String>, String>,
) -> bool {
    match (given, env) {
        (Some(url), _) => chosen == Ok::<Option<String>, String>(Some(url)),
        (None, Some(text)) => match parsed_url(text@) {
            Some(url) => chosen matches Ok(Some(parsed)) && parsed@ == url,
            None => chosen == Err::<Option<String>, String>(text),
        },
        (None, None) => chosen == Ok::<Option<String>, String>(None),
    }
}

/// A URL, where there is one: the one that was given, or else what parsing the value of the
/// environment variable gave, where it is set. A value that is no URL stands for itself.
pub open spec fn chosen_url(
    given: Option<String>,
    parsed: Option<Result<String, String>>,
) -> Result<Option<String>, String> {
    match (given, parsed) {
        (Some(url), _) => Ok(Some(url)),
        (None, Some(Ok(url))) => Ok(Some(url)),
        (None, Some(Err(text))) => Err(text),
        (None, None) => Ok(None),
    }
}

/// Chooses a URL: the one that was given, or else the one from the environment.
fn choose_url(given: Option<String>, parsed: Option<Result<String, String>>) -> (r: Result<
    Option<String>,
    String,
>)
    ensures
        r == chosen_url(given, parsed),
{
    match (given, parsed) {
        (Some(url), _) => Ok(Some(url)),
        (None, Some(Ok(url))) => Ok(Some(url)),
        (None, Some(Err(text))) => Err(text),
        (None, None) => Ok(None),
    }
}

/// Takes what parsing the values of the environment variables gave: for each that is set, the URL
/// or the value that is none. A value is used where no URL was given; the first one that is used
/// and is no URL is the error.
pub fn config_from_parsed(
    chain_id: u64,
    basic_rpc_url: Option<String>,
    debug_rpc_url: Option<String>,
    basic_parsed: Option<Result<String, String>>,
    debug_parsed: Option<Result<String, String>>,
) -> (r: Result<ProviderConfig, ProviderError>)
    ensures
        match (chosen_url(basic_rpc_url, basic_parsed), chosen_url(debug_rpc_url, debug_parsed)) {
            (Ok(basic), Ok(debug)) => r == Ok::<ProviderConfig, ProviderError>(
                ProviderConfig { chain_id, basic_rpc_url: basic, debug_rpc_url: debug },
            ),
            (Err(text), _) => r == Err::<ProviderConfig, ProviderError>(
                ProviderError::InvalidUrl(text),
            ),
            (Ok(_), Err(text)) => r == Err::<ProviderConfig, ProviderError>(
                ProviderError::InvalidUrl(text),
            ),
        },
{
    let basic: Option<String> = match choose_url(basic_rpc_url, basic_parsed) {
        Ok(url) => url,
        Err(text) => {
            return Err(ProviderError::InvalidUrl(text));
        },
    };
    let debug: Option<String> = match choose_url(debug_rpc_url, debug_parsed) {
        Ok(url) => url,
        Err(text) => {
            return Err(ProviderError::InvalidUrl(text));
        },
    };
    Ok(ProviderConfig { chain_id, basic_rpc_url: basic, debug_rpc_url: debug })
}

/// Parses the value of an environment variable, where it is set.
fn parse_env(env: Option<String>) -> (r: Option<Result<String, String>>)
    ensures
        forall|given: Option<String>| #[trigger]
            chooses_url(given, env, chosen_url(given, r)),
{
    match env {
        Some(text) => match parse_url(text.as_str()) {
            Some(url) => Some(Ok(url)),
            None => Some(Err(text)),
        },
        None => None,
    }
}

/// Takes the values of the environment variables for the URLs that were not given. Not having a
/// provider is fine, since the chain is known; but a value that is used has to be a URL.
pub fn config_from_env(
    chain_id: u64,
    basic_rpc_url: Option<String>,
    debug_rpc_url: Option<String>,
    basic_env: Option<String>,
    debug_env: Option<String>,
) -> (r: Result<ProviderConfig, ProviderError>)
    ensures
        match r {
            Ok(config) => {
                &&& config.chain_id == chain_id
                &&& chooses_url(
                    basic_rpc_url,
                    basic_env,
                    Ok::<Option<String>, String>(config.basic_rpc_url),
                )
                &&& chooses_url(
                    debug_rpc_url,
                    debug_env,
                    Ok::<Option<String>, String>(config.debug_rpc_url),
                )
            },
            Err(ProviderError::InvalidUrl(text)) => {
                let failed = Err::<Option<String>, String>(text);
                if basic_rpc_url is None && basic_env is Some && parsed_url(basic_env->0@) is None {
                    chooses_url(basic_rpc_url, basic_env, failed)
                } else {
                    chooses_url(debug_rpc_url, debug_env, failed)
                }
            },
            Err(_) => false,
        },
{
    let basic_parsed: Option<Result<String, String>> = parse_env(basic_env);
    let debug_parsed: Option<Result<String, String>> = parse_env(debug_env);
    proof {
        assert(chooses_url(basic_rpc_url, basic_env, chosen_url(basic_rpc_url, basic_parsed)));
        assert(chooses_url(debug_rpc_url, debug_env, chosen_url(debug_rpc_url, debug_parsed)));
    }
    config_from_parsed(chain_id, basic_rpc_url, debug_rpc_url, basic_parsed, debug_parsed)
}

/// Takes the chain IDs that the providers report, which have to be the same.
pub fn config_from_chain_ids(
    basic_rpc_url: String,
    debug_rpc_url: String,
    basic_chain_id: u64,
    debug_chain_id: u64,
) -> (r: Result<ProviderConfig, ProviderError>)
    ensures
        match r {
            Ok(config) => {
                &&& basic_chain_id == debug_chain_id
                &&& config.chain_id == basic_chain_id
                &&& config.basic_rpc_url == Some(basic_rpc_url)
                &&& config.debug_rpc_url == Some(debug_rpc_url)
            },
            Err(ProviderError::DifferentChains(basic, debug)) => {
                &&& basic == basic_chain_id
                &&& debug == debug_chain_id
                &&& basic != debug
            },
            Err(_) => false,
        },
{
    if basic_chain_id != debug_chain_id {
        return Err(ProviderError::DifferentChains(basic_chain_id, debug_chain_id));
    }
    Ok(
        ProviderConfig {
            chain_id: basic_chain_id,
            basic_rpc_url: Some(basic_rpc_url),
            debug_rpc_url: Some(debug_rpc_url),
        },
    )
}

/// A URL that was given is the one to use, whatever the environment says. Otherwise it is the one
/// from the environment, where there is one; a value that is no URL is an error.
pub proof fn law_given_url_comes_first(
    given: String,
    parsed: Option<Result<String, String>>,
    url: String,
)
    ensures
        chosen_url(Some(given), parsed) == Ok::<Option<String>, String>(Some(given)),
        chosen_url(None, Some(Ok(url))) == Ok::<Option<String>, String>(Some(url)),
        chosen_url(None, Some(Err(url))) == Err::<Option<String>, String>(url),
        chosen_url(None, None) == Ok::<Option<String>, String>(None),
{
}

/// The environment is used exactly where no URL was given, and what is used from it is the URL that
/// its value parses to.
pub proof fn law_environment_stands_in(
    given: Option<String>,
    env: Option<String>,
    chosen: Result<Option<String>, String>,
)
    requires
        chooses_url(given, env, chosen),
    ensures
        given is Some ==> chosen == Ok::<Option<String>, String>(given),
        given is None && env is None ==> chosen == Ok::<Option<String>, String>(None),
        given is None && env is Some && parsed_url(env->0@) is Some ==> chosen is Ok
            && chosen->Ok_0 is Some && chosen->Ok_0->0@ == parsed_url(env->0@)->0,
        given is None && env is Some && parsed_url(env->0@) is None ==> chosen == Err::<
            Option<String>,
            String,
        >(env->0),
{
}

} // verus!
