//! Settings: where the Ollama server is and which models to use.
use vstd::prelude::*;

use crate::text::{chars_of, push_range};

verus! {

/// The embedding model used when none is configured.
pub const DEFAULT_EMBEDDING_MODEL: &'static str = "nomic-embed-text";

/// The chat model used when none is configured.
pub const DEFAULT_CHAT_MODEL: &'static str = "llama3.2";

/// The resolved settings.
#[derive(Debug)]
pub struct Config {
    pub ollama_url: String,
    pub embedding_model: String,
    pub chat_model: String,
}

/// Why no configuration could be formed.
#[derive(Debug)]
pub enum ConfigError {
    /// The Ollama server URL was not given.
    MissingOllamaUrl,
}

/// `s` without trailing `c` characters (`str::trim_end_matches` with a
/// character).
pub open spec fn strip_trailing(s: Seq<char>, c: char) -> Seq<char>
    decreases s.len(),
{
    if s.len() > 0 && s.last() == c {
        strip_trailing(s.drop_last(), c)
    } else {
        s
    }
}

/// `url` without trailing slashes, so paths can be appended with a single
/// `/`.
pub fn trim_trailing_slashes(url: &str) -> (r: String)
    ensures
        r@ == strip_trailing(url@, '/'),
{
    let v = chars_of(url);
    let mut end = v.len();
    proof {
        assert(v@.subrange(0, end as int) =~= v@);
    }
    while end > 0 && v[end - 1] == '/'
        invariant
            end <= v@.len(),
            strip_trailing(v@.subrange(0, end as int), '/') == strip_trailing(v@, '/'),
        decreases end,
    {
        proof {
            assert(v@.subrange(0, end as int).drop_last() =~= v@.subrange(0, end - 1));
        }
        end = end - 1;
    }
    let mut r = String::new();
    push_range(&mut r, &v, 0, end);
    proof {
        assert(Seq::<char>::empty() + v@.subrange(0, end as int) =~= v@.subrange(0, end as int));
    }
    r
}

/// The settings made of the values given for `OLLAMA_URL`,
/// `OLLAMA_EMBEDDING_MODEL` and `OLLAMA_CHAT_MODEL`.
pub open spec fn config_of(
    ollama_url: Seq<char>,
    embedding_model: Option<Seq<char>>,
    chat_model: Option<Seq<char>>,
) -> (Seq<char>, Seq<char>, Seq<char>) {
    (
        strip_trailing(ollama_url, '/'),
        match embedding_model {
            Some(m) => m,
            None => DEFAULT_EMBEDDING_MODEL@,
        },
        match chat_model {
            Some(m) => m,
            None => DEFAULT_CHAT_MODEL@,
        },
    )
}

impl Config {
    /// Forms the settings from the configured values: the server URL is
    /// required and loses its trailing slashes; missing model names fall back
    /// to the defaults.
    pub fn from_values(
        ollama_url: Option<&str>,
        embedding_model: Option<String>,
        chat_model: Option<String>,
    ) -> (r: Result<Config, ConfigError>)
        ensures
            ollama_url is None <==> r is Err,
            r matches Ok(c) ==> ollama_url matches Some(u) && config_of(
                u@,
                match embedding_model {
                    Some(m) => Some(m@),
                    None => None,
                },
                match chat_model {
                    Some(m) => Some(m@),
                    None => None,
                },
            ) == (c.ollama_url@, c.embedding_model@, c.chat_model@),
    {
        let url = match ollama_url {
            Some(u) => u,
            None => return Err(ConfigError::MissingOllamaUrl),
        };
        let embedding_model = match embedding_model {
            Some(m) => m,
            None => DEFAULT_EMBEDDING_MODEL.to_string(),
        };
        let chat_model = match chat_model {
            Some(m) => m,
            None => DEFAULT_CHAT_MODEL.to_string(),
        };
        Ok(Config { ollama_url: trim_trailing_slashes(url), embedding_model, chat_model })
    }
}

} // verus!
