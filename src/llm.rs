use vstd::prelude::*;
use crate::text::{chars_of, contains_str, same_text, trim, trim_chars, has_infix, lower_of, lowercase};

verus! {

/// Token counters a backend may report for one completion.
#[derive(Clone, Copy, Debug, PartialEq, Eq, Structural)]
pub struct Usage {
    pub prompt_tokens: Option<u32>,
    pub completion_tokens: Option<u32>,
    pub total_tokens: Option<u32>,
}

/// One chat turn as sent to a backend: a role and its text.
#[derive(Debug)]
pub struct ChatMessage {
    pub role: String,
    pub content: String,
}

impl View for ChatMessage {
    /// (role, content)
    type V = (Seq<char>, Seq<char>);

    open spec fn view(&self) -> (Seq<char>, Seq<char>) {
        (self.role@, self.content@)
    }
}

impl ChatMessage {
    /// Builds a message from a role and a text.
    pub fn new(role: &str, content: &str) -> (r: ChatMessage)
        ensures
            r@ == (role@, content@),
    {
        ChatMessage { role: role.to_owned(), content: content.to_owned() }
    }

    /// A copy of this message.
    pub fn duplicate(&self) -> (r: ChatMessage)
        ensures
            r@ == self@,
    {
        ChatMessage { role: self.role.clone(), content: self.content.clone() }
    }
}

/// The views of a list of messages.
pub open spec fn messages_view(v: Seq<ChatMessage>) -> Seq<(Seq<char>, Seq<char>)> {
    v.map_values(|m: ChatMessage| m@)
}


/// A normalized chat request.
#[derive(Debug)]
pub struct LlmRequest {
    pub model: String,
    pub messages: Vec<ChatMessage>,
    pub stream: bool,
    pub api_base: Option<String>,
}

/// A complete, non-streaming answer.
#[derive(Debug)]
pub struct LlmResponse {
    pub content: String,
    pub usage: Option<Usage>,
}

/// Failures of the gateway.
#[derive(Debug)]
pub enum LlmError {
    /// The endpoint needs a bearer credential and none was found.
    MissingCredential { base_url: String, env_var: String },
    /// No adapter is registered under this name.
    UnsupportedProvider { name: String },
    /// The adapter is registered but not wired to a backend.
    NotImplemented { provider: String },
    /// The backend answered with a non-success status.
    ProviderError { status: u16, body: String },
    /// Connection, DNS or timeout failure.
    NetworkError { message: String },
    /// A malformed streaming payload.
    DecodeError { message: String },
    /// The bounded retries ran out; holds the last failure.
    RetriesExhausted { last: Box<LlmError> },
}

/// Backends that the typed client knows.
#[derive(Debug, Clone, Copy, PartialEq, Eq, Structural)]
pub enum Provider {
    OpenAi,
}

impl Provider {
    /// Parses a provider name, ignoring case.
    pub fn from_str(s: &str) -> (r: Option<Provider>)
        ensures
            r == (if lower_of(s@) == "openai"@ { Some(Provider::OpenAi) } else { None::<Provider> }),
    {
        let lower = lowercase(s);
        if same_text(lower.as_str(), "openai") {
            Some(Provider::OpenAi)
        } else {
            None
        }
    }
}


/// The endpoint used when a request names none.
pub open spec fn default_base() -> Seq<char> {
    "https://api.openai.com/v1"@
}

/// The base URL a request goes to.
pub open spec fn effective_base(api_base: Option<Seq<char>>) -> Seq<char> {
    match api_base {
        Some(b) => b,
        None => default_base(),
    }
}

/// The endpoint is a local inference server (a loopback address).
pub open spec fn is_local_base(base: Seq<char>) -> bool {
    has_infix(base, "127.0.0.1"@) || has_infix(base, "localhost"@)
}

/// The endpoint is the hosted Groq service.
pub open spec fn is_groq_base(base: Seq<char>) -> bool {
    has_infix(base, "api.groq.com"@)
}

/// The environment variable that holds the credential for an endpoint.
pub open spec fn key_var_for(base: Seq<char>) -> Seq<char> {
    if is_local_base(base) {
        "LMSTUDIO_API_KEY"@
    } else if is_groq_base(base) {
        "GROQ_API_KEY"@
    } else {
        "OPENAI_API_KEY"@
    }
}

/// Whether an endpoint refuses requests without a bearer credential: every
/// endpoint but a local inference server.
pub open spec fn key_required(base: Seq<char>) -> bool {
    !is_local_base(base)
}

/// Where a call goes and with which credential.
#[derive(Debug)]
pub struct CredentialContext {
    pub base_url: String,
    pub credential: Option<String>,
    pub credential_required: bool,
}

/// The base URL for an optional override.
pub fn effective_base_url(api_base: &Option<String>) -> (r: String)
    ensures
        r@ == effective_base(opt_view(api_base)),
{
    match api_base {
        Some(b) => b.clone(),
        None => "https://api.openai.com/v1".to_owned(),
    }
}

/// The view of an optional string.
pub open spec fn opt_view(o: &Option<String>) -> Option<Seq<char>> {
    match o {
        Some(s) => Some(s@),
        None => None,
    }
}

/// The name of the environment variable to read for an endpoint.
pub fn credential_env_var(base: &str) -> (r: String)
    ensures
        r@ == key_var_for(base@),
{
    if contains_str(base, "127.0.0.1") || contains_str(base, "localhost") {
        "LMSTUDIO_API_KEY".to_owned()
    } else if contains_str(base, "api.groq.com") {
        "GROQ_API_KEY".to_owned()
    } else {
        "OPENAI_API_KEY".to_owned()
    }
}

/// Resolves where a request goes and with which credential. `key` is the
/// value of the variable that `credential_env_var` names for that endpoint,
/// read fresh for every call. Fails with `MissingCredential` exactly when
/// the endpoint needs a credential and none is given.
pub fn resolve_credentials(api_base: &Option<String>, key: Option<String>) -> (r: Result<
    CredentialContext,
    LlmError,
>)
    ensures
        ({
            let base = effective_base(opt_view(api_base));
            match r {
                Ok(ctx) => {
                    &&& !(key_required(base) && key is None)
                    &&& ctx.base_url@ == base
                    &&& ctx.credential == key
                    &&& ctx.credential_required == key_required(base)
                },
                Err(e) => {
                    &&& key_required(base) && key is None
                    &&& e matches LlmError::MissingCredential { base_url, env_var } && base_url@
                        == base && env_var@ == key_var_for(base)
                },
            }
        }),
        // a loopback endpoint never needs a credential, a hosted one always does
        is_local_base(effective_base(opt_view(api_base))) ==> (r matches Ok(ctx)
            && !ctx.credential_required),
        !is_local_base(effective_base(opt_view(api_base))) && key is None ==> r matches Err(
            LlmError::MissingCredential { .. },
        ),
{
    let base = effective_base_url(api_base);
    let required = !(contains_str(base.as_str(), "127.0.0.1") || contains_str(
        base.as_str(),
        "localhost",
    ));
    if required && key.is_none() {
        let env_var = credential_env_var(base.as_str());
        return Err(LlmError::MissingCredential { base_url: base, env_var });
    }
    Ok(CredentialContext { base_url: base, credential: key, credential_required: required })
}

/// A lower-case hex digit.
pub open spec fn hex_digit(d: nat) -> char {
    seq!['0', '1', '2', '3', '4', '5', '6', '7', '8', '9', 'a', 'b', 'c', 'd', 'e', 'f'][d as int]
}

/// How a JSON string literal writes one character: quote and backslash
/// escaped, the five control characters with short escapes as such, the
/// other control characters as `\u00XX`, everything else as it is.
pub open spec fn json_char(c: char) -> Seq<char> {
    if c == '"' {
        seq!['\\', '"']
    } else if c == '\\' {
        seq!['\\', '\\']
    } else if c == '\x08' {
        seq!['\\', 'b']
    } else if c == '\t' {
        seq!['\\', 't']
    } else if c == '\n' {
        seq!['\\', 'n']
    } else if c == '\x0c' {
        seq!['\\', 'f']
    } else if c == '\r' {
        seq!['\\', 'r']
    } else if (c as u32) < 0x20 {
        seq!['\\', 'u', '0', '0', hex_digit((c as u32 / 16) as nat), hex_digit((c as u32 % 16) as nat)]
    } else {
        seq![c]
    }
}

/// The escaped characters of a text.
pub open spec fn json_escaped(s: Seq<char>) -> Seq<char>
    decreases s.len(),
{
    if s.len() == 0 {
        Seq::empty()
    } else {
        json_escaped(s.drop_last()) + json_char(s.last())
    }
}

/// What `serde_json::to_string` writes for a string: the escaped text
/// between double quotes.
pub open spec fn json_quoted(s: Seq<char>) -> Seq<char> {
    seq!['"'] + json_escaped(s) + seq!['"']
}

/// Relies on `serde_json::to_string` for a `str`: the text between double
/// quotes, escaped by its table (quote, backslash, `\b \t \n \f \r`, and
/// `\u00xx` in lower-case hex for the other characters below 0x20). Writing
/// a `str` into memory cannot fail, so the error arm is never taken.
#[verifier::external_body]
pub(crate) fn json_string(s: &str) -> (r: String)
    ensures
        r@ == json_quoted(s@),
{
    serde_json::to_string(s).unwrap_or_default()
}

/// The JSON object for one message.
pub open spec fn message_json(m: (Seq<char>, Seq<char>)) -> Seq<char> {
    "{\"role\":"@ + json_quoted(m.0) + ",\"content\":"@ + json_quoted(m.1) + "}"@
}

/// The comma-separated JSON objects for a list of messages.
pub open spec fn messages_json(ms: Seq<(Seq<char>, Seq<char>)>) -> Seq<char>
    decreases ms.len(),
{
    if ms.len() == 0 {
        Seq::empty()
    } else if ms.len() == 1 {
        message_json(ms[0])
    } else {
        messages_json(ms.drop_last()) + ","@ + message_json(ms.last())
    }
}

/// The body of a chat-completions call.
pub open spec fn request_json(model: Seq<char>, ms: Seq<(Seq<char>, Seq<char>)>, stream: bool) -> Seq<char> {
    "{\"model\":"@ + json_quoted(model) + ",\"messages\":["@ + messages_json(ms) + "],\"stream\":"@ + (
    if stream {
        "true"@
    } else {
        "false"@
    }) + "}"@
}

/// Serializes the body of a chat-completions call.
pub fn chat_request_body(model: &str, messages: &[ChatMessage], stream: bool) -> (r: String)
    ensures
        r@ == request_json(model@, messages_view(messages@), stream),
{
    let mut body = "{\"model\":".to_owned();
    let qm = json_string(model);
    body.append(qm.as_str());
    body.append(",\"messages\":[");
    let mut i: usize = 0;
    let ghost prefix = body@;
    while i < messages.len()
        invariant
            i <= messages@.len(),
            body@ == prefix + messages_json(messages_view(messages@).take(i as int)),
        decreases messages@.len() - i,
    {
        let ghost before = body@;
        if i > 0 {
            body.append(",");
        }
        body.append("{\"role\":");
        let qr = json_string(messages[i].role.as_str());
        body.append(qr.as_str());
        body.append(",\"content\":");
        let qc = json_string(messages[i].content.as_str());
        body.append(qc.as_str());
        body.append("}");
        proof {
            let ms = messages_view(messages@);
            let t = ms.take(i + 1);
            assert(t.drop_last() =~= ms.take(i as int));
            assert(t.last() == messages@[i as int]@);
            if i == 0 {
                assert(body@ =~= prefix + messages_json(t));
            } else {
                assert(body@ =~= prefix + messages_json(t));
            }
        }
        i = i + 1;
    }
    body.append("],\"stream\":");
    if stream {
        body.append("true");
    } else {
        body.append("false");
    }
    body.append("}");
    proof {
        assert(messages_view(messages@).take(messages@.len() as int) =~= messages_view(messages@));
        assert(body@ =~= request_json(model@, messages_view(messages@), stream));
    }
    body
}

/// Turns a backend status into a failure unless it is 200 OK.
pub fn check_status(status: u16, body: String) -> (r: Result<(), LlmError>)
    ensures
        status == 200 ==> r is Ok,
        status != 200 ==> r == Err::<(), LlmError>(LlmError::ProviderError { status, body }),
{
    if status == 200 {
        Ok(())
    } else {
        Err(LlmError::ProviderError { status, body })
    }
}

/// The answer of a non-streaming call: the text of the first choice (empty
/// when there is none) and the usage counters.
pub fn response_from_choices(choices: Vec<Option<String>>, usage: Option<Usage>) -> (r: LlmResponse)
    ensures
        choices@.len() > 0 && choices@[0] is Some ==> r.content@ == choices@[0]->0@,
        !(choices@.len() > 0 && choices@[0] is Some) ==> r.content@ == Seq::<char>::empty(),
        r.usage == usage,
{
    let content = if choices.len() > 0 {
        match &choices[0] {
            Some(c) => c.clone(),
            None => String::new(),
        }
    } else {
        String::new()
    };
    LlmResponse { content, usage }
}


/// A backend adapter: the one wired to the chat-completions wire protocol,
/// or a placeholder for a backend that is known but not wired up.
#[derive(Debug)]
pub enum ProviderAdapter {
    OpenAi,
    NotImplemented(NotImplementedAdapter),
}

/// The adapter of a backend that is known but not wired up: every call
/// fails at once.
#[derive(Debug)]
pub struct NotImplementedAdapter {
    pub name: String,
}

impl NotImplementedAdapter {
    /// A placeholder for the backend `name`.
    pub fn new(name: &str) -> (r: NotImplementedAdapter)
        ensures
            r.name@ == name@,
    {
        NotImplementedAdapter { name: name.to_owned() }
    }
}

/// Everything the transport needs for one chat-completions call.
#[derive(Debug)]
pub struct PreparedCall {
    pub url: String,
    pub body: String,
    pub bearer: Option<String>,
}

impl ProviderAdapter {
    /// Prepares a call for `req`. `key` is the credential read for the
    /// variable that `credential_env_var` names for the request's endpoint.
    /// A placeholder adapter fails at once with `NotImplemented`; the wired
    /// adapter fails only for a missing credential.
    pub fn prepare(&self, req: &LlmRequest, key: Option<String>, stream: bool) -> (r: Result<
        PreparedCall,
        LlmError,
    >)
        ensures
            ({
                let base = effective_base(opt_view(&req.api_base));
                match self {
                    ProviderAdapter::NotImplemented(a) => r matches Err(
                        LlmError::NotImplemented { provider },
                    ) && provider@ == a.name@,
                    ProviderAdapter::OpenAi => match r {
                        Ok(call) => {
                            &&& !(key_required(base) && key is None)
                            &&& call.url@ == base + "/chat/completions"@
                            &&& call.body@ == request_json(
                                req.model@,
                                messages_view(req.messages@),
                                stream,
                            )
                            &&& call.bearer == key
                        },
                        Err(e) => key_required(base) && key is None
                            && e is MissingCredential,
                    },
                }
            }),
    {
        match self {
            ProviderAdapter::NotImplemented(a) => {
                Err(LlmError::NotImplemented { provider: a.name.clone() })
            },
            ProviderAdapter::OpenAi => {
                let ctx = resolve_credentials(&req.api_base, key)?;
                let mut url = ctx.base_url;
                url.append("/chat/completions");
                let body = chat_request_body(req.model.as_str(), req.messages.as_slice(), stream);
                Ok(PreparedCall { url, body, bearer: ctx.credential })
            },
        }
    }
}

/// The provider names a registry knows, in order of registration.
pub open spec fn known_providers() -> Seq<Seq<char>> {
    seq![
        "openai"@,
        "anthropic"@,
        "grok"@,
        "xai"@,
        "groq"@,
        "gemini"@,
        "ollama"@,
        "lmstudio"@,
    ]
}

/// Name to adapter lookup, built once per invocation.
pub struct ProviderRegistry {
    names: Vec<String>,
    adapters: Vec<ProviderAdapter>,
}

impl ProviderRegistry {
    /// The registry holds one adapter for each known name: the wired one
    /// under "openai", a placeholder named after its key for the others.
    pub closed spec fn wf(&self) -> bool {
        &&& self.names@.len() == known_providers().len()
        &&& self.adapters@.len() == known_providers().len()
        &&& forall|i: int| 0 <= i < known_providers().len() ==> #[trigger] self.names@[i]@ == known_providers()[i]
        &&& self.adapters@[0] is OpenAi
        &&& forall|i: int|
            1 <= i < known_providers().len() ==> (#[trigger] self.adapters@[i] matches ProviderAdapter::NotImplemented(a) && a.name@ == known_providers()[i])
    }

    /// Builds the registry of all known providers.
    pub fn new() -> (r: ProviderRegistry)
        ensures
            r.wf(),
    {
        let names: Vec<String> = vec![
            "openai".to_owned(),
            "anthropic".to_owned(),
            "grok".to_owned(),
            "xai".to_owned(),
            "groq".to_owned(),
            "gemini".to_owned(),
            "ollama".to_owned(),
            "lmstudio".to_owned(),
        ];
        let adapters: Vec<ProviderAdapter> = vec![
            ProviderAdapter::OpenAi,
            ProviderAdapter::NotImplemented(NotImplementedAdapter::new("anthropic")),
            ProviderAdapter::NotImplemented(NotImplementedAdapter::new("grok")),
            ProviderAdapter::NotImplemented(NotImplementedAdapter::new("xai")),
            ProviderAdapter::NotImplemented(NotImplementedAdapter::new("groq")),
            ProviderAdapter::NotImplemented(NotImplementedAdapter::new("gemini")),
            ProviderAdapter::NotImplemented(NotImplementedAdapter::new("ollama")),
            ProviderAdapter::NotImplemented(NotImplementedAdapter::new("lmstudio")),
        ];
        ProviderRegistry { names, adapters }
    }

    /// Looks a provider up by name, ignoring case.
    pub fn get(&self, name: &str) -> (r: Option<&ProviderAdapter>)
        requires
            self.wf(),
        ensures
            r is Some <==> known_providers().contains(lower_of(name@)),
            r matches Some(a) ==> (a is OpenAi <==> lower_of(name@) == "openai"@),
            r matches Some(a) ==> (a matches ProviderAdapter::NotImplemented(p) ==> p.name@
                == lower_of(name@)),
    {
        let key = lowercase(name);
        let mut i: usize = 0;
        while i < self.names.len()
            invariant
                self.wf(),
                key@ == lower_of(name@),
                i <= self.names@.len(),
                forall|j: int| 0 <= j < i ==> known_providers()[j] != key@,
            decreases self.names@.len() - i,
        {
            if same_text(self.names[i].as_str(), key.as_str()) {
                proof {
                    assert(known_providers()[i as int] == key@);
                    if i != 0 {
                        assert(known_providers()[0] != known_providers()[i as int]) by {
                            reveal_strlit("openai");
                            reveal_strlit("anthropic");
                            reveal_strlit("grok");
                            reveal_strlit("xai");
                            reveal_strlit("groq");
                            reveal_strlit("gemini");
                            reveal_strlit("ollama");
                            reveal_strlit("lmstudio");
                        }
                    }
                }
                return Some(&self.adapters[i]);
            }
            i = i + 1;
        }
        None
    }

    /// Looks a provider up by name, ignoring case; an unknown name is an
    /// `UnsupportedProvider` failure.
    pub fn lookup(&self, name: &str) -> (r: Result<&ProviderAdapter, LlmError>)
        requires
            self.wf(),
        ensures
            r is Ok <==> known_providers().contains(lower_of(name@)),
            r matches Ok(a) ==> (a is OpenAi <==> lower_of(name@) == "openai"@),
            r matches Err(e) ==> (e matches LlmError::UnsupportedProvider { name: n } && n@ == name@),
    {
        match self.get(name) {
            Some(a) => Ok(a),
            None => Err(LlmError::UnsupportedProvider { name: name.to_owned() }),
        }
    }
}


/// The environment variable that holds the key of a provider, by name
/// (ignoring case); empty for a provider that has none.
pub open spec fn provider_key_var(provider: Seq<char>) -> Seq<char> {
    let p = lower_of(provider);
    if p == "openai"@ {
        "OPENAI_API_KEY"@
    } else if p == "groq"@ {
        "GROQ_API_KEY"@
    } else {
        Seq::empty()
    }
}

/// Names the environment variable that holds a provider's key.
pub fn provider_key_env(provider: &str) -> (r: String)
    ensures
        r@ == provider_key_var(provider@),
{
    let p = lowercase(provider);
    if same_text(p.as_str(), "openai") {
        "OPENAI_API_KEY".to_owned()
    } else if same_text(p.as_str(), "groq") {
        "GROQ_API_KEY".to_owned()
    } else {
        String::new()
    }
}

/// A request that checks a credential against an endpoint's model list.
#[derive(Debug)]
pub struct CredentialCheck {
    pub url: String,
    pub bearer: Option<String>,
}

/// Prepares the check of a provider's credential. `api_key` is a key given
/// explicitly; `env_key` is the value of the variable `provider_key_env`
/// names. A local inference server needs no key; elsewhere a provider that
/// has a key variable needs a key that is not blank, given explicitly or
/// read from the variable.
pub fn prepare_credential_check(
    provider: &str,
    api_key: Option<String>,
    env_key: Option<String>,
    api_base: &Option<String>,
) -> (r: Result<CredentialCheck, LlmError>)
    ensures
        ({
            let var = provider_key_var(provider@);
            let base = effective_base(opt_view(api_base));
            let key: Seq<char> = match api_key {
                Some(k) => k@,
                None => if var.len() > 0 {
                    match env_key {
                        Some(k) => k@,
                        None => Seq::empty(),
                    }
                } else {
                    Seq::empty()
                },
            };
            let blank = !is_local_base(base) && var.len() > 0 && trim(key).len() == 0;
            &&& r is Err <==> blank
            &&& is_local_base(base) ==> r is Ok
            &&& r matches Ok(c) ==> c.url@ == base + "/models"@ && (trim(key).len() > 0 <==> c.bearer is Some)
                && (c.bearer matches Some(b) ==> b@ == key)
            &&& r matches Err(e) ==> (e matches LlmError::MissingCredential { base_url, env_var }
                && base_url@ == base && env_var@ == var)
        }),
{
    let var = provider_key_env(provider);
    let base = effective_base_url(api_base);
    let has_var = var.as_str().unicode_len() > 0;
    let key: String = match api_key {
        Some(k) => k,
        None => {
            if !has_var {
                String::new()
            } else {
                match env_key {
                    Some(k) => k,
                    None => String::new(),
                }
            }
        },
    };
    let local = contains_str(base.as_str(), "127.0.0.1") || contains_str(base.as_str(), "localhost");
    let kc = chars_of(key.as_str());
    let trimmed = trim_chars(kc.as_slice());
    if !local && has_var && trimmed.len() == 0 {
        return Err(LlmError::MissingCredential { base_url: base, env_var: var });
    }
    let mut url = base;
    url.append("/models");
    let bearer = if trimmed.len() > 0 {
        Some(key)
    } else {
        None
    };
    Ok(CredentialCheck { url, bearer })
}


/// The endpoint a provider name selects: Groq's hosted endpoint, a local
/// LM Studio server (at `lmstudio_base` when configured), or the default.
pub open spec fn provider_base(provider: Seq<char>, lmstudio_base: Option<Seq<char>>) -> Option<Seq<char>> {
    let p = lower_of(provider);
    if p == "groq"@ {
        Some("https://api.groq.com/openai/v1"@)
    } else if p == "lmstudio"@ {
        match lmstudio_base {
            Some(b) => Some(b),
            None => Some("http://127.0.0.1:1234/v1"@),
        }
    } else {
        None
    }
}

/// The endpoint override for a provider. `lmstudio_base` is the configured
/// address of a local LM Studio server, if any.
pub fn resolve_api_base_for_provider(provider: &str, lmstudio_base: Option<String>) -> (r: Option<String>)
    ensures
        opt_view(&r) == provider_base(provider@, match lmstudio_base {
            Some(b) => Some(b@),
            None => None,
        }),
{
    let p = lowercase(provider);
    if same_text(p.as_str(), "groq") {
        Some("https://api.groq.com/openai/v1".to_owned())
    } else if same_text(p.as_str(), "lmstudio") {
        match lmstudio_base {
            Some(b) => Some(b),
            None => Some("http://127.0.0.1:1234/v1".to_owned()),
        }
    } else {
        None
    }
}

} // verus!
