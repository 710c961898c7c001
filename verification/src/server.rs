//! The decisions of the HTTP service: which requests are refused, which API
//! key is used, the request defaults, and what each line of a model pull
//! becomes. Routing, the HTTP exchange and the event stream are the caller's.
use vstd::prelude::*;

use crate::model::openai_compat::{opt_str, opt_string};
use crate::pipeline::{provider_spec, Provider};
use crate::text::{from_chars, seq_eq, to_chars};

verus! {

/// The provider a request names when it names none.
pub fn default_provider() -> (s: String)
    ensures
        s@ == "ollama"@,
{
    from_chars(&to_chars("ollama"))
}

/// The model a request names when it names none.
pub fn default_model() -> (s: String)
    ensures
        s@ == "qwen2.5:1.5b"@,
{
    from_chars(&to_chars("qwen2.5:1.5b"))
}

/// The server's own DeepSeek key: the one given on the command line when it
/// is not empty, else the environment's when that is not empty.
pub open spec fn configured_key_spec(arg_key: Seq<char>, env_key: Option<Seq<char>>) -> Option<
    Seq<char>,
> {
    if arg_key.len() > 0 {
        Some(arg_key)
    } else {
        match env_key {
            Some(k) => if k.len() > 0 { Some(k) } else { None },
            None => None,
        }
    }
}

/// The server's own DeepSeek key (see `configured_key_spec`); `env_key` is
/// the value of `DEEPSEEK_API_KEY`, if set.
pub fn configured_key(arg_key: &str, env_key: Option<&str>) -> (r: Option<String>)
    ensures
        opt_string(r) == configured_key_spec(arg_key@, opt_str(env_key)),
{
    let a = to_chars(arg_key);
    if a.len() > 0 {
        Some(from_chars(&a))
    } else {
        match env_key {
            Some(k) => {
                let kv = to_chars(k);
                if kv.len() > 0 {
                    Some(from_chars(&kv))
                } else {
                    None
                }
            },
            None => None,
        }
    }
}

/// Why a compression request is refused.
#[derive(PartialEq, Eq, Structural, Clone, Copy)]
pub enum RequestError {
    /// DeepSeek and custom services need an API key.
    MissingApiKey,
    /// A custom service needs a base URL.
    MissingBaseUrl,
}

/// The key a request is served with: its own, else the server's.
pub open spec fn request_key_spec(req_key: Option<Seq<char>>, server_key: Option<Seq<char>>) -> Option<
    Seq<char>,
> {
    match req_key {
        Some(k) => Some(k),
        None => server_key,
    }
}

/// A request for DeepSeek or a custom service without any key is refused;
/// then a custom service without a base URL (absent or empty) is refused;
/// otherwise the request is served with its key.
pub open spec fn check_request_spec(
    provider: Seq<char>,
    req_key: Option<Seq<char>>,
    server_key: Option<Seq<char>>,
    base_url: Option<Seq<char>>,
) -> Result<Option<Seq<char>>, RequestError> {
    let key = request_key_spec(req_key, server_key);
    let p = provider_spec(provider);
    if (p == Provider::DeepSeek || p == Provider::Custom) && key is None {
        Err(RequestError::MissingApiKey)
    } else if p == Provider::Custom && (base_url is None || base_url->0.len() == 0) {
        Err(RequestError::MissingBaseUrl)
    } else {
        Ok(key)
    }
}

/// Checks a compression request and picks its API key (see
/// `check_request_spec`).
pub fn check_request(
    provider: &str,
    req_key: Option<&str>,
    server_key: Option<&str>,
    base_url: Option<&str>,
) -> (r: Result<Option<String>, RequestError>)
    ensures
        match (r, check_request_spec(
            provider@,
            opt_str(req_key),
            opt_str(server_key),
            opt_str(base_url),
        )) {
            (Ok(k), Ok(s)) => opt_string(k) == s,
            (Err(e), Err(s)) => e == s,
            _ => false,
        },
{
    let key: Option<&str> = match req_key {
        Some(k) => Some(k),
        None => server_key,
    };
    let p = crate::pipeline::provider_of(provider);
    if (p == Provider::DeepSeek || p == Provider::Custom) && key.is_none() {
        return Err(RequestError::MissingApiKey);
    }
    if p == Provider::Custom {
        let empty = match base_url {
            Some(b) => to_chars(b).len() == 0,
            None => true,
        };
        if empty {
            return Err(RequestError::MissingBaseUrl);
        }
    }
    match key {
        Some(k) => Ok(Some(from_chars(&to_chars(k)))),
        None => Ok(None),
    }
}

// ==================== model pull ====================

/// Progress of a model pull, as pushed to the client.
pub enum PullEvent {
    PullStart { name: String, t: u64 },
    PullProgress {
        status: String,
        completed: Option<u64>,
        total: Option<u64>,
        digest: Option<String>,
        t: u64,
    },
    PullDone { name: String, t: u64 },
    PullError { msg: String, t: u64 },
}

/// The fields of one NDJSON line of a pull answer.
pub struct PullLine {
    pub status: Option<String>,
    pub error: Option<String>,
    pub completed: Option<u64>,
    pub total: Option<u64>,
    pub digest: Option<String>,
}

/// The plain content of a pull event: kind (0 start, 1 progress, 2 done,
/// 3 error), text, counts, digest and time.
pub open spec fn pull_view(e: PullEvent) -> (u8, Seq<char>, Option<u64>, Option<u64>, Option<
    Seq<char>,
>, u64) {
    match e {
        PullEvent::PullStart { name, t } => (0, name@, None, None, None, t),
        PullEvent::PullProgress { status, completed, total, digest, t } => (
            1,
            status@,
            completed,
            total,
            opt_string(digest),
            t,
        ),
        PullEvent::PullDone { name, t } => (2, name@, None, None, None, t),
        PullEvent::PullError { msg, t } => (3, msg@, None, None, None, t),
    }
}

/// What a line of the pull answer becomes, and whether the pull ends with
/// it: an error field ends it with that error; the status `success` ends it
/// as done; any other line reports progress (a missing status read as empty).
pub open spec fn pull_line_spec(name: Seq<char>, line: PullLine, t: u64) -> ((u8, Seq<char>, Option<
    u64,
>, Option<u64>, Option<Seq<char>>, u64), bool) {
    let status = match opt_string(line.status) {
        Some(s) => s,
        None => Seq::empty(),
    };
    match opt_string(line.error) {
        Some(msg) => ((3u8, msg, None, None, None, t), true),
        None => if status == "success"@ {
            ((2u8, name, None, None, None, t), true)
        } else {
            ((1u8, status, line.completed, line.total, opt_string(line.digest), t), false)
        },
    }
}

/// The event for one line of the pull answer, and whether the pull ends.
pub fn pull_line_event(name: &str, line: &PullLine, t: u64) -> (r: (PullEvent, bool))
    ensures
        (pull_view(r.0), r.1) == pull_line_spec(name@, *line, t),
{
    match &line.error {
        Some(msg) => {
            return (PullEvent::PullError { msg: from_chars(&to_chars(msg.as_str())), t }, true);
        },
        None => {},
    }
    let status = match &line.status {
        Some(s) => to_chars(s.as_str()),
        None => Vec::new(),
    };
    if seq_eq(&status, &to_chars("success")) {
        (PullEvent::PullDone { name: from_chars(&to_chars(name)), t }, true)
    } else {
        let digest = match &line.digest {
            Some(d) => Some(from_chars(&to_chars(d.as_str()))),
            None => None,
        };
        (
            PullEvent::PullProgress {
                status: from_chars(&status),
                completed: line.completed,
                total: line.total,
                digest,
                t,
            },
            false,
        )
    }
}

} // verus!
