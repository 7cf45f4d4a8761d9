//! Application configuration, taken from environment variables with defaults.
use vstd::prelude::*;

use crate::text::{bounded_digits, chars_of, decimal, is_digit, lemma_decimal_digits, parse_bounded_digits};

verus! {

/// Application configuration.
pub struct Config {
    /// Server listen port (default: 3000)
    pub port: u16,
    /// Redis connection URL
    pub redis_url: String,
    /// OpenAI-compatible API base URL
    pub ai_base_url: String,
    /// API key for the AI service (sent as Bearer token when present)
    pub ai_api_key: Option<String>,
    /// Chat model name
    pub ai_model: String,
    /// Qdrant base URL
    pub qdrant_url: String,
    /// Neo4j bolt URI
    pub neo4j_uri: String,
    /// Neo4j user name
    pub neo4j_user: String,
    /// Neo4j password
    pub neo4j_password: String,
    /// Embedding API base URL
    pub embedding_api_url: String,
    /// Value of the embedding API's `Authorization` header
    pub embedding_api_password: String,
    /// Embedding model name
    pub embedding_model: String,
}

/// The raw values of the configuration variables, `None` where a variable is unset.
pub struct ConfigVars {
    pub port: Option<String>,
    pub redis_url: Option<String>,
    pub ai_base_url: Option<String>,
    pub ai_api_key: Option<String>,
    pub ai_model: Option<String>,
    pub qdrant_url: Option<String>,
    pub neo4j_uri: Option<String>,
    pub neo4j_user: Option<String>,
    pub neo4j_password: Option<String>,
    pub embedding_api_url: Option<String>,
    pub embedding_api_password: Option<String>,
    pub embedding_model: Option<String>,
}

/// Why a configuration was refused.
pub enum ConfigError {
    /// `PORT` is not a decimal number from 0 to 65535.
    InvalidPort(String),
}

/// `u16`'s `FromStr`: an optional `+`, then one or more ASCII digits whose
/// value is at most 65535.
pub open spec fn parse_u16_spec(s: Seq<char>) -> Option<nat> {
    if s.len() > 0 && s[0] == '+' {
        bounded_digits(s, 1, s.len() as int, 65535)
    } else {
        bounded_digits(s, 0, s.len() as int, 65535)
    }
}

/// Parses a port number as `str::parse::<u16>` does.
pub fn parse_port(s: &str) -> (r: Option<u16>)
    ensures
        r matches Some(p) ==> parse_u16_spec(s@) == Some(p as nat),
        r is None ==> parse_u16_spec(s@) is None,
{
    let v = chars_of(s);
    let lo: usize = if v.len() > 0 && v[0] == '+' { 1 } else { 0 };
    match parse_bounded_digits(&v, lo, v.len(), 65535) {
        Some(p) => Some(p as u16),
        None => None,
    }
}

/// A port written in decimal (as `format!` writes a `u16`) reads back as itself.
pub proof fn law_port_decimal_round_trip(p: u16)
    ensures
        parse_u16_spec(decimal(p as nat)) == Some(p as nat),
{
    lemma_decimal_digits(p as nat);
    let d = decimal(p as nat);
    assert(is_digit(d[0]));
    assert(d.subrange(0, d.len() as int) =~= d);
}

/// The variable's value, or the default when it is unset.
pub open spec fn or_default(v: Option<String>, d: Seq<char>) -> Seq<char> {
    match v {
        Some(s) => s@,
        None => d,
    }
}

fn value_or(v: Option<String>, d: &str) -> (r: String)
    ensures
        r@ == or_default(v, d@),
{
    match v {
        Some(s) => s,
        None => String::from_str(d),
    }
}

pub open spec fn port_text(vars: ConfigVars) -> Seq<char> {
    or_default(vars.port, "3000"@)
}

impl Config {
    /// Builds the configuration from the variables' values, each unset
    /// variable taking its default. Fails when the port is not a valid `u16`.
    pub fn from_vars(vars: ConfigVars) -> (r: Result<Config, ConfigError>)
        ensures
            r is Err <==> parse_u16_spec(port_text(vars)) is None,
            r matches Err(ConfigError::InvalidPort(p)) ==> p@ == port_text(vars),
            r matches Ok(c) ==> {
                &&& parse_u16_spec(port_text(vars)) == Some(c.port as nat)
                &&& c.redis_url@ == or_default(vars.redis_url, "redis://127.0.0.1:6379"@)
                &&& c.ai_base_url@ == or_default(vars.ai_base_url, "http://localhost:8080/v1"@)
                &&& c.ai_api_key == vars.ai_api_key
                &&& c.ai_model@ == or_default(vars.ai_model, "gpt-4o-mini"@)
                &&& c.qdrant_url@ == or_default(vars.qdrant_url, "http://localhost:6333"@)
                &&& c.neo4j_uri@ == or_default(vars.neo4j_uri, "bolt://localhost:7687"@)
                &&& c.neo4j_user@ == or_default(vars.neo4j_user, "neo4j"@)
                &&& c.neo4j_password@ == or_default(vars.neo4j_password, "password"@)
                &&& c.embedding_api_url@ == or_default(vars.embedding_api_url, "https://aisvr221.aikb.kyutech.ac.jp/api"@)
                &&& c.embedding_api_password@ == or_default(vars.embedding_api_password, "password"@)
                &&& c.embedding_model@ == or_default(vars.embedding_model, "jeffh/intfloat-multilingual-e5-large:f32"@)
            },
    {
        let ghost spec_vars = vars;
        let ConfigVars {
            port,
            redis_url,
            ai_base_url,
            ai_api_key,
            ai_model,
            qdrant_url,
            neo4j_uri,
            neo4j_user,
            neo4j_password,
            embedding_api_url,
            embedding_api_password,
            embedding_model,
        } = vars;
        let port_text = value_or(port, "3000");
        let port = match parse_port(port_text.as_str()) {
            Some(p) => p,
            None => {
                return Err(ConfigError::InvalidPort(port_text));
            },
        };
        Ok(Config {
            port,
            redis_url: value_or(redis_url, "redis://127.0.0.1:6379"),
            ai_base_url: value_or(ai_base_url, "http://localhost:8080/v1"),
            ai_api_key,
            ai_model: value_or(ai_model, "gpt-4o-mini"),
            qdrant_url: value_or(qdrant_url, "http://localhost:6333"),
            neo4j_uri: value_or(neo4j_uri, "bolt://localhost:7687"),
            neo4j_user: value_or(neo4j_user, "neo4j"),
            neo4j_password: value_or(neo4j_password, "password"),
            embedding_api_url: value_or(embedding_api_url, "https://aisvr221.aikb.kyutech.ac.jp/api"),
            embedding_api_password: value_or(embedding_api_password, "password"),
            embedding_model: value_or(embedding_model, "jeffh/intfloat-multilingual-e5-large:f32"),
        })
    }
}

} // verus!
