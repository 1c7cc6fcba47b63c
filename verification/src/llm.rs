//! Answer generation, and the text around talking to an Ollama server:
//! endpoints and error messages.
use vstd::prelude::*;

use crate::config::{strip_trailing, trim_trailing_slashes};
use crate::text::{decimal, push_decimal, push_str};

verus! {

/// Text-generation backend used to answer questions. The default
/// implementation talks to Ollama; alternative backends only need to
/// implement this trait.
pub trait ChatProvider {
    /// Generates an answer from a system prompt and a user prompt, or says
    /// why it could not.
    fn chat(&self, system: &str, user: &str) -> Result<String, String>;
}

/// The URL of an endpoint of the server at `base_url` (trailing slashes of
/// the base dropped).
pub open spec fn endpoint_url(base_url: Seq<char>, path: Seq<char>) -> Seq<char> {
    strip_trailing(base_url, '/') + path
}

/// The URL of the chat endpoint.
pub fn chat_url(base_url: &str) -> (r: String)
    ensures
        r@ == endpoint_url(base_url@, "/api/chat"@),
{
    let mut r = trim_trailing_slashes(base_url);
    push_str(&mut r, "/api/chat");
    r
}

/// The URL of the embedding endpoint.
pub fn embed_url(base_url: &str) -> (r: String)
    ensures
        r@ == endpoint_url(base_url@, "/api/embed"@),
{
    let mut r = trim_trailing_slashes(base_url);
    push_str(&mut r, "/api/embed");
    r
}

/// What an unsuccessful reply from Ollama is reported as: the status, the
/// model, the server's `error` field if its body carried one (else the body
/// itself), and a hint to pull the model.
pub open spec fn failure_message(
    status: Seq<char>,
    model: Seq<char>,
    body: Seq<char>,
    error_field: Option<Seq<char>>,
) -> Seq<char> {
    let detail = match error_field {
        Some(e) => e,
        None => body,
    };
    "Ollama returned "@ + status + " for model '"@ + model + "': "@ + detail
        + "\nHint: pull the model first with `ollama pull "@ + model + "`"@
}

/// The message for an unsuccessful reply from Ollama.
pub fn ollama_failure(status: &str, model: &str, body: &str, error_field: Option<&str>) -> (r: String)
    ensures
        r@ == failure_message(
            status@,
            model@,
            body@,
            match error_field {
                Some(e) => Some(e@),
                None => None,
            },
        ),
{
    let detail = match error_field {
        Some(e) => e,
        None => body,
    };
    let mut r = String::new();
    push_str(&mut r, "Ollama returned ");
    push_str(&mut r, status);
    push_str(&mut r, " for model '");
    push_str(&mut r, model);
    push_str(&mut r, "': ");
    push_str(&mut r, detail);
    push_str(&mut r, "\nHint: pull the model first with `ollama pull ");
    push_str(&mut r, model);
    push_str(&mut r, "`");
    proof {
        assert(r@ =~= "Ollama returned "@ + status@ + " for model '"@ + model@ + "': "@ + detail@
            + "\nHint: pull the model first with `ollama pull "@ + model@ + "`"@);
    }
    r
}

/// The message for a reply with the wrong number of embeddings.
pub open spec fn count_mismatch_message(got: nat, expected: nat) -> Seq<char> {
    "Ollama returned "@ + decimal(got) + " embeddings for "@ + decimal(expected) + " inputs"@
}

/// Checks that a reply holds one embedding per input text.
pub fn check_embedding_count(got: usize, expected: usize) -> (r: Result<(), String>)
    ensures
        got == expected <==> r is Ok,
        r matches Err(m) ==> m@ == count_mismatch_message(got as nat, expected as nat),
{
    if got == expected {
        return Ok(());
    }
    let mut m = String::new();
    push_str(&mut m, "Ollama returned ");
    push_decimal(&mut m, got as u64);
    push_str(&mut m, " embeddings for ");
    push_decimal(&mut m, expected as u64);
    push_str(&mut m, " inputs");
    proof {
        assert(m@ =~= "Ollama returned "@ + decimal(got as nat) + " embeddings for "@ + decimal(
            expected as nat,
        ) + " inputs"@);
    }
    Err(m)
}

} // verus!
