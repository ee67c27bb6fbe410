//! The rules of the System One, Noul, Choice and Score modules: which
//! configuration they accept, which defaults they fill in, and which client
//! they use.

use vstd::prelude::*;

use crate::client::{cache_key, get_cached_client, is_client_for, is_build_error, ClientCache, TypeSafeClient};
use crate::error::{Error, ErrorView};
use crate::text::{concat2, decimal, is_blank, push_decimal, trim};

verus! {

/// The API base URL used when none is configured.
pub const DEFAULT_API_BASE: &'static str = "https://api.typesafe.ai";

/// The model asked when none is configured.
pub const DEFAULT_MODEL: &'static str = "jev-latest";

/// The name under which a single-question module submits its question.
pub const SINGLE_QUESTION: &'static str = "answer";

/// Fewest entries of a Score scale.
pub const MIN_SCORE_ENTRIES: usize = 2;

/// Most entries of a Score scale.
pub const MAX_SCORE_ENTRIES: usize = 10;

/// The configured model, or `DEFAULT_MODEL` when it is empty.
pub open spec fn spec_model_or_default(model: Seq<char>) -> Seq<char> {
    if model.len() == 0 {
        DEFAULT_MODEL@
    } else {
        model
    }
}

/// The model to ask: `model`, or `DEFAULT_MODEL` when `model` is empty.
pub fn model_or_default(model: String) -> (r: String)
    ensures
        r@ == spec_model_or_default(model@),
{
    if model.as_str().is_empty() {
        DEFAULT_MODEL.to_owned()
    } else {
        model
    }
}

/// The instructions to send: none for a blank text, else the text as is.
pub fn instructions_from(text: String) -> (r: Option<String>)
    ensures
        trim(text@).len() == 0 ==> r is None,
        trim(text@).len() != 0 ==> (r matches Some(t) && t@ == text@),
{
    if is_blank(text.as_str()) {
        None
    } else {
        Some(text)
    }
}

/// The error for an API key that is nowhere configured.
pub open spec fn missing_key_error() -> ErrorView {
    ErrorView::InvalidConfig("TypeSafe API key is not set (global config or TYPESAFE_API_KEY)"@)
}

/// The API key to use: the global configuration's when it is set and not
/// empty, else the `TYPESAFE_API_KEY` environment variable's.
pub open spec fn spec_api_key(global: Option<Seq<char>>, env: Option<Seq<char>>) -> Result<
    Seq<char>,
    ErrorView,
> {
    match global {
        Some(k) if k.len() != 0 => Ok(k),
        _ => match env {
            Some(k) => Ok(k),
            None => Err(missing_key_error()),
        },
    }
}

/// The view of an optional string.
pub open spec fn opt_view(s: Option<String>) -> Option<Seq<char>> {
    match s {
        Some(t) => Some(t@),
        None => None,
    }
}

/// The API key to use, from the global configuration (`global`) or else the
/// environment (`env`, absent when unset or not Unicode).
pub fn resolve_api_key(global: Option<String>, env: Option<String>) -> (r: Result<String, Error>)
    ensures
        match r {
            Ok(k) => spec_api_key(opt_view(global), opt_view(env)) == Ok::<Seq<char>, ErrorView>(k@),
            Err(e) => spec_api_key(opt_view(global), opt_view(env)) == Err::<Seq<char>, ErrorView>(e@),
        },
{
    match global {
        Some(k) => {
            if !k.as_str().is_empty() {
                return Ok(k);
            }
        },
        None => {},
    }
    match env {
        Some(k) => Ok(k),
        None => Err(
            Error::InvalidConfig(
                "TypeSafe API key is not set (global config or TYPESAFE_API_KEY)".to_owned(),
            ),
        ),
    }
}

/// The API base URL to use: the global configuration's when it is set and
/// not empty, else `DEFAULT_API_BASE`.
pub open spec fn spec_api_base(global: Option<Seq<char>>) -> Seq<char> {
    match global {
        Some(b) if b.len() != 0 => b,
        _ => DEFAULT_API_BASE@,
    }
}

/// The API base URL to use (see `spec_api_base`).
pub fn resolve_api_base(global: Option<String>) -> (r: String)
    ensures
        r@ == spec_api_base(opt_view(global)),
{
    match global {
        Some(b) => {
            if !b.as_str().is_empty() {
                return b;
            }
        },
        None => {},
    }
    DEFAULT_API_BASE.to_owned()
}

/// The client for the configured key and base URL, shared through `cache`.
pub fn build_client(
    cache: &mut ClientCache,
    global_key: Option<String>,
    env_key: Option<String>,
    global_base: Option<String>,
) -> (r: Result<TypeSafeClient, Error>)
    ensures
        ({
            let key = spec_api_key(opt_view(global_key), opt_view(env_key));
            let base = spec_api_base(opt_view(global_base));
            match key {
                Err(e) => {
                    &&& r matches Err(e2)
                    &&& e2@ == e
                    &&& final(cache).view() == old(cache).view()
                },
                Ok(k) => {
                    let ck = cache_key(base, k);
                    if old(cache).view().dom().contains(ck) {
                        &&& r matches Ok(c)
                        &&& c@ == old(cache).view()[ck]
                        &&& final(cache).view() == old(cache).view()
                    } else {
                        match r {
                            Ok(c) => {
                                &&& is_client_for(c@, base, k)
                                &&& final(cache).view() == old(cache).view().insert(ck, c@)
                            },
                            Err(e) => {
                                &&& is_build_error(e@)
                                &&& final(cache).view() == old(cache).view()
                            },
                        }
                    }
                },
            }
        }),
{
    let api_key = resolve_api_key(global_key, env_key)?;
    let base_url = resolve_api_base(global_base);
    get_cached_client(cache, base_url.as_str(), api_key.as_str())
}

/// The System One module needs at least one question.
pub fn check_questions(count: usize) -> (r: Result<(), Error>)
    ensures
        count == 0 ==> (r matches Err(e) && e@ == ErrorView::InvalidConfig("questions is empty"@)),
        count != 0 ==> r is Ok,
{
    if count == 0 {
        Err(Error::InvalidConfig("questions is empty".to_owned()))
    } else {
        Ok(())
    }
}

/// The error for a `questions` configuration that does not decode.
pub fn invalid_questions_error(detail: &str) -> (e: Error)
    ensures
        e@ == ErrorView::InvalidConfig("Invalid questions: "@ + detail@),
{
    Error::InvalidConfig(concat2("Invalid questions: ", detail))
}

/// Noul sends its criteria only when they describe at least one side.
pub fn noul_criteria_included(count: usize) -> (b: bool)
    ensures
        b == (count != 0),
{
    count != 0
}

/// Choice needs at least one label.
pub fn check_choice_criteria(count: usize) -> (r: Result<(), Error>)
    ensures
        count == 0 ==> (r matches Err(e) && e@ == ErrorView::InvalidConfig(
            "criteria must list at least one label"@,
        )),
        count != 0 ==> r is Ok,
{
    if count == 0 {
        Err(Error::InvalidConfig("criteria must list at least one label".to_owned()))
    } else {
        Ok(())
    }
}

/// The error for a Score scale of `count` entries.
pub open spec fn score_criteria_error(count: nat) -> ErrorView {
    ErrorView::InvalidConfig("criteria must have 2 to 10 entries, got "@ + decimal(count))
}

/// Score needs a scale of `MIN_SCORE_ENTRIES` to `MAX_SCORE_ENTRIES` entries.
pub fn check_score_criteria(count: usize) -> (r: Result<(), Error>)
    ensures
        MIN_SCORE_ENTRIES <= count <= MAX_SCORE_ENTRIES ==> r is Ok,
        !(MIN_SCORE_ENTRIES <= count <= MAX_SCORE_ENTRIES) ==> (r matches Err(e) && e@
            == score_criteria_error(count as nat)),
{
    if MIN_SCORE_ENTRIES <= count && count <= MAX_SCORE_ENTRIES {
        Ok(())
    } else {
        let mut m = "criteria must have 2 to 10 entries, got ".to_owned();
        push_decimal(&mut m, count as u64);
        Err(Error::InvalidConfig(m))
    }
}

/// The error for a response without the single question's answer.
pub open spec fn missing_answer_error() -> ErrorView {
    ErrorView::IoError("System One response has no \"answer\" answer"@)
}

/// The answer to the single question, which the response must hold.
pub fn single_answer<A>(found: Option<A>) -> (r: Result<A, Error>)
    ensures
        match found {
            Some(a) => r == Ok::<A, Error>(a),
            None => (r matches Err(e) && e@ == missing_answer_error()),
        },
{
    match found {
        Some(a) => Ok(a),
        None => Err(Error::IoError("System One response has no \"answer\" answer".to_owned())),
    }
}

/// The error for an answer that cannot be handed on as a value.
pub fn convert_error(detail: &str) -> (e: Error)
    ensures
        e@ == ErrorView::IoError("Failed to convert answer: "@ + detail@),
{
    Error::IoError(concat2("Failed to convert answer: ", detail))
}

/// The model asked is never empty.
pub proof fn lemma_model_never_empty(model: Seq<char>)
    ensures
        spec_model_or_default(model).len() > 0,
{
    reveal_strlit("jev-latest");
}

/// A non-empty global key wins; otherwise the environment's key is used; a
/// key that is in neither place is a configuration error.
pub proof fn lemma_api_key_fallback(global: Option<Seq<char>>, env: Option<Seq<char>>)
    ensures
        global matches Some(k) && k.len() != 0 ==> spec_api_key(global, env) == Ok::<
            Seq<char>,
            ErrorView,
        >(global->0),
        !(global matches Some(k) && k.len() != 0) ==> spec_api_key(global, env) == match env {
            Some(k) => Ok::<Seq<char>, ErrorView>(k),
            None => Err(missing_key_error()),
        },
{
}

/// A configured model is asked exactly as configured; only an empty one is
/// replaced, by `jev-latest`.
pub proof fn lemma_model_kept(model: Seq<char>)
    ensures
        model.len() > 0 ==> spec_model_or_default(model) == model,
        model.len() == 0 ==> spec_model_or_default(model) == "jev-latest"@,
{
}

/// A configured base URL is used exactly as configured; a missing or empty
/// one is replaced by `https://api.typesafe.ai`.
pub proof fn lemma_api_base_kept(base: Seq<char>)
    ensures
        base.len() > 0 ==> spec_api_base(Some(base)) == base,
        base.len() == 0 ==> spec_api_base(Some(base)) == "https://api.typesafe.ai"@,
        spec_api_base(None) == "https://api.typesafe.ai"@,
{
}

} // verus!
