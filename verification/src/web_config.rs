//! `[tools.web_search]` configuration: the provider builder and `${NAME}` interpolation.
use vstd::prelude::*;

use crate::template::{prepend, Context};
use crate::text::{chars_of, str_eq, string_of};

verus! {

/// A fully resolved search provider with the credentials it needs.
#[derive(Clone, Debug, PartialEq, Eq)]
pub enum ResolvedProvider {
    Google { api_key: String, cx: String },
    Brave { api_key: String },
    DuckDuckGo,
    SearxNG { endpoint: String },
    SerpApi { api_key: String },
    Exa { api_key: String },
    Tavily { api_key: String },
    Arxiv,
}

/// [`ResolvedProvider`] with its strings taken as character sequences.
pub enum ProviderView {
    Google { api_key: Seq<char>, cx: Seq<char> },
    Brave { api_key: Seq<char> },
    DuckDuckGo,
    SearxNG { endpoint: Seq<char> },
    SerpApi { api_key: Seq<char> },
    Exa { api_key: Seq<char> },
    Tavily { api_key: Seq<char> },
    Arxiv,
}

impl View for ResolvedProvider {
    type V = ProviderView;

    open spec fn view(&self) -> ProviderView {
        match self {
            ResolvedProvider::Google { api_key, cx } => ProviderView::Google {
                api_key: api_key@,
                cx: cx@,
            },
            ResolvedProvider::Brave { api_key } => ProviderView::Brave { api_key: api_key@ },
            ResolvedProvider::DuckDuckGo => ProviderView::DuckDuckGo,
            ResolvedProvider::SearxNG { endpoint } => ProviderView::SearxNG {
                endpoint: endpoint@,
            },
            ResolvedProvider::SerpApi { api_key } => ProviderView::SerpApi { api_key: api_key@ },
            ResolvedProvider::Exa { api_key } => ProviderView::Exa { api_key: api_key@ },
            ResolvedProvider::Tavily { api_key } => ProviderView::Tavily { api_key: api_key@ },
            ResolvedProvider::Arxiv => ProviderView::Arxiv,
        }
    }
}

/// A configured web search backend.
#[derive(Debug)]
pub struct WebsearchBackend {
    pub provider: ResolvedProvider,
}

/// Why a web search configuration was rejected.
#[derive(Debug, Clone, PartialEq, Eq)]
pub enum WebsearchConfigError {
    MissingProvider,
    UnknownProvider { provider: String },
    MissingApiKey { provider: String },
    MissingCx { provider: String },
    MissingEndpoint { provider: String },
    UndefinedEnvVar { name: String },
    InvalidToml { message: String },
}

/// [`WebsearchConfigError`] with its strings taken as character sequences.
pub enum ConfigErrorView {
    MissingProvider,
    UnknownProvider { provider: Seq<char> },
    MissingApiKey { provider: Seq<char> },
    MissingCx { provider: Seq<char> },
    MissingEndpoint { provider: Seq<char> },
    UndefinedEnvVar { name: Seq<char> },
    InvalidToml { message: Seq<char> },
}

impl View for WebsearchConfigError {
    type V = ConfigErrorView;

    open spec fn view(&self) -> ConfigErrorView {
        match self {
            WebsearchConfigError::MissingProvider => ConfigErrorView::MissingProvider,
            WebsearchConfigError::UnknownProvider { provider } => ConfigErrorView::UnknownProvider {
                provider: provider@,
            },
            WebsearchConfigError::MissingApiKey { provider } => ConfigErrorView::MissingApiKey {
                provider: provider@,
            },
            WebsearchConfigError::MissingCx { provider } => ConfigErrorView::MissingCx {
                provider: provider@,
            },
            WebsearchConfigError::MissingEndpoint { provider } => ConfigErrorView::MissingEndpoint {
                provider: provider@,
            },
            WebsearchConfigError::UndefinedEnvVar { name } => ConfigErrorView::UndefinedEnvVar {
                name: name@,
            },
            WebsearchConfigError::InvalidToml { message } => ConfigErrorView::InvalidToml {
                message: message@,
            },
        }
    }
}

/// The view of an optional string.
pub open spec fn opt_view(o: Option<String>) -> Option<Seq<char>> {
    match o {
        Some(s) => Some(s@),
        None => None,
    }
}

/// Collects the provider name and credentials before resolving them.
#[derive(Default, Debug, Clone)]
pub struct WebsearchBackendBuilder {
    pub provider: Option<String>,
    pub api_key: Option<String>,
    pub cx: Option<String>,
    pub endpoint: Option<String>,
}

/// What [`WebsearchBackendBuilder::build`] resolves from the collected fields.
pub open spec fn spec_build(
    provider: Option<Seq<char>>,
    api_key: Option<Seq<char>>,
    cx: Option<Seq<char>>,
    endpoint: Option<Seq<char>>,
) -> Result<ProviderView, ConfigErrorView> {
    match provider {
        None => Err(ConfigErrorView::MissingProvider),
        Some(p) => if p == "google"@ {
            match (api_key, cx) {
                (None, _) => Err(ConfigErrorView::MissingApiKey { provider: p }),
                (Some(_), None) => Err(ConfigErrorView::MissingCx { provider: p }),
                (Some(k), Some(c)) => Ok(ProviderView::Google { api_key: k, cx: c }),
            }
        } else if p == "brave"@ || p == "serpapi"@ || p == "tavily"@ || p == "exa"@ {
            match api_key {
                None => Err(ConfigErrorView::MissingApiKey { provider: p }),
                Some(k) => Ok(
                    if p == "brave"@ {
                        ProviderView::Brave { api_key: k }
                    } else if p == "serpapi"@ {
                        ProviderView::SerpApi { api_key: k }
                    } else if p == "tavily"@ {
                        ProviderView::Tavily { api_key: k }
                    } else {
                        ProviderView::Exa { api_key: k }
                    },
                ),
            }
        } else if p == "searxng"@ {
            match endpoint {
                None => Err(ConfigErrorView::MissingEndpoint { provider: p }),
                Some(e) => Ok(ProviderView::SearxNG { endpoint: e }),
            }
        } else if p == "duckduckgo"@ {
            Ok(ProviderView::DuckDuckGo)
        } else if p == "arxiv"@ {
            Ok(ProviderView::Arxiv)
        } else {
            Err(ConfigErrorView::UnknownProvider { provider: p })
        },
    }
}

fn clone_opt(o: &Option<String>) -> (r: Option<String>)
    ensures
        opt_view(r) == opt_view(*o),
{
    match o {
        Some(s) => Some(s.clone()),
        None => None,
    }
}

impl WebsearchBackendBuilder {
    /// A builder with no field set.
    pub fn new() -> (b: Self)
        ensures
            b.provider is None,
            b.api_key is None,
            b.cx is None,
            b.endpoint is None,
    {
        WebsearchBackendBuilder { provider: None, api_key: None, cx: None, endpoint: None }
    }

    /// Sets the provider name.
    pub fn provider(self, value: &str) -> (b: Self)
        ensures
            opt_view(b.provider) == Some(value@),
            b.api_key == self.api_key,
            b.cx == self.cx,
            b.endpoint == self.endpoint,
    {
        WebsearchBackendBuilder { provider: Some(value.to_owned()), ..self }
    }

    /// Sets the API key.
    pub fn api_key(self, value: &str) -> (b: Self)
        ensures
            opt_view(b.api_key) == Some(value@),
            b.provider == self.provider,
            b.cx == self.cx,
            b.endpoint == self.endpoint,
    {
        WebsearchBackendBuilder { api_key: Some(value.to_owned()), ..self }
    }

    /// Sets the Google custom search engine id.
    pub fn cx(self, value: &str) -> (b: Self)
        ensures
            opt_view(b.cx) == Some(value@),
            b.provider == self.provider,
            b.api_key == self.api_key,
            b.endpoint == self.endpoint,
    {
        WebsearchBackendBuilder { cx: Some(value.to_owned()), ..self }
    }

    /// Sets the SearxNG endpoint.
    pub fn endpoint(self, value: &str) -> (b: Self)
        ensures
            opt_view(b.endpoint) == Some(value@),
            b.provider == self.provider,
            b.api_key == self.api_key,
            b.cx == self.cx,
    {
        WebsearchBackendBuilder { endpoint: Some(value.to_owned()), ..self }
    }

    /// Resolves the provider and checks that it has the credentials it needs.
    pub fn build(self) -> (r: Result<WebsearchBackend, WebsearchConfigError>)
        ensures
            match spec_build(
                opt_view(self.provider),
                opt_view(self.api_key),
                opt_view(self.cx),
                opt_view(self.endpoint),
            ) {
                Ok(p) => r matches Ok(b) && b.provider@ == p,
                Err(e) => r matches Err(x) && x@ == e,
            },
    {
        let provider = match &self.provider {
            Some(p) => p.as_str(),
            None => return Err(WebsearchConfigError::MissingProvider),
        };
        let resolved = if str_eq(provider, "google") {
            let api_key = match clone_opt(&self.api_key) {
                Some(k) => k,
                None => return Err(
                    WebsearchConfigError::MissingApiKey { provider: provider.to_owned() },
                ),
            };
            let cx = match clone_opt(&self.cx) {
                Some(c) => c,
                None => return Err(WebsearchConfigError::MissingCx { provider: provider.to_owned() }),
            };
            ResolvedProvider::Google { api_key, cx }
        } else if str_eq(provider, "brave") {
            ResolvedProvider::Brave { api_key: self.require_api_key(provider)? }
        } else if str_eq(provider, "serpapi") {
            ResolvedProvider::SerpApi { api_key: self.require_api_key(provider)? }
        } else if str_eq(provider, "tavily") {
            ResolvedProvider::Tavily { api_key: self.require_api_key(provider)? }
        } else if str_eq(provider, "exa") {
            ResolvedProvider::Exa { api_key: self.require_api_key(provider)? }
        } else if str_eq(provider, "searxng") {
            let endpoint = match clone_opt(&self.endpoint) {
                Some(e) => e,
                None => return Err(
                    WebsearchConfigError::MissingEndpoint { provider: provider.to_owned() },
                ),
            };
            ResolvedProvider::SearxNG { endpoint }
        } else if str_eq(provider, "duckduckgo") {
            ResolvedProvider::DuckDuckGo
        } else if str_eq(provider, "arxiv") {
            ResolvedProvider::Arxiv
        } else {
            return Err(WebsearchConfigError::UnknownProvider { provider: provider.to_owned() });
        };
        Ok(WebsearchBackend { provider: resolved })
    }

    fn require_api_key(&self, provider: &str) -> (r: Result<String, WebsearchConfigError>)
        ensures
            match self.api_key {
                Some(k) => r matches Ok(s) && s@ == k@,
                None => r matches Err(e) && e@ == (ConfigErrorView::MissingApiKey {
                    provider: provider@,
                }),
            },
    {
        match &self.api_key {
            Some(k) => Ok(k.clone()),
            None => Err(WebsearchConfigError::MissingApiKey { provider: provider.to_owned() }),
        }
    }
}


/// First index `e >= from` at which `t` holds `}`.
pub open spec fn find_brace(t: Seq<char>, from: int) -> Option<int>
    decreases t.len() - from,
{
    if from < 0 || from >= t.len() {
        None
    } else if t[from] == '}' {
        Some(from)
    } else {
        find_brace(t, from + 1)
    }
}

pub proof fn lemma_find_brace_bounds(t: Seq<char>, from: int)
    ensures
        find_brace(t, from) matches Some(e) ==> from <= e < t.len() && t[e] == '}',
    decreases t.len() - from,
{
    if !(from < 0 || from >= t.len()) && t[from] != '}' {
        lemma_find_brace_bounds(t, from + 1);
    }
}

/// Single-pass `${NAME}` substitution of `t[i..]` against `env`: `Err` names the
/// first variable that `env` does not define; an unterminated `${` is kept
/// verbatim together with everything after it.
pub open spec fn interp_from(t: Seq<char>, i: int, env: Map<Seq<char>, Seq<char>>) -> Result<
    Seq<char>,
    Seq<char>,
>
    decreases t.len() - i,
{
    if i < 0 || i >= t.len() {
        Ok(Seq::empty())
    } else if i + 1 < t.len() && t[i] == '$' && t[i + 1] == '{' {
        match find_brace(t, i + 2) {
            Some(e) => {
                let name = t.subrange(i + 2, e);
                if env.contains_key(name) {
                    proof {
                        lemma_find_brace_bounds(t, i + 2);
                    }
                    prepend(env[name], interp_from(t, e + 1, env))
                } else {
                    Err(name)
                }
            },
            None => Ok(t.subrange(i, t.len() as int)),
        }
    } else {
        prepend(seq![t[i]], interp_from(t, i + 1, env))
    }
}

proof fn lemma_prepend_assoc(a: Seq<char>, b: Seq<char>, r: Result<Seq<char>, Seq<char>>)
    ensures
        prepend(a, prepend(b, r)) == prepend(a + b, r),
{
    if let Ok(x) = r {
        assert(a + (b + x) =~= (a + b) + x);
    }
}

/// Replaces each `${NAME}` in `input` with the value `env` binds to `NAME`.
///
/// An unbound name is [`WebsearchConfigError::UndefinedEnvVar`]. The
/// substitution is single-pass: a resolved value is not re-scanned. An
/// unterminated `${` is kept as a literal tail.
pub fn interpolate_env(input: &str, env: &Context) -> (r: Result<String, WebsearchConfigError>)
    ensures
        match interp_from(input@, 0, env.view()) {
            Ok(out) => r matches Ok(s) && s@ == out,
            Err(name) => r matches Err(e) && e@ == (ConfigErrorView::UndefinedEnvVar {
                name,
            }),
        },
{
    let t = chars_of(input);
    let n = t.len();
    let mut out = String::new();
    let mut i: usize = 0;
    while i < n
        invariant
            n == t@.len(),
            i <= n,
            t@ == input@,
            interp_from(input@, 0, env.view()) == prepend(out@, interp_from(t@, i as int, env.view())),
        decreases n - i,
    {
        let ghost old_out = out@;
        if i + 1 < n && t[i] == '$' && t[i + 1] == '{' {
            let mut e = i + 2;
            while e < n && t[e] != '}'
                invariant
                    i + 2 <= e <= n,
                    n == t@.len(),
                    find_brace(t@, (i + 2) as int) == find_brace(t@, e as int),
                decreases n - e,
            {
                e += 1;
            }
            if e < n {
                proof {
                    lemma_find_brace_bounds(t@, (i + 2) as int);
                }
                let name = &t.as_slice()[i + 2..e];
                assert(name@ =~= t@.subrange(i + 2, e as int));
                match env.get_chars(name) {
                    Some(value) => {
                        let vchars = chars_of(value);
                        let mut m: usize = 0;
                        while m < vchars.len()
                            invariant
                                m <= vchars@.len(),
                                vchars@ == value@,
                                out@ == old_out + vchars@.take(m as int),
                            decreases vchars.len() - m,
                        {
                            out.push(vchars[m]);
                            m += 1;
                            assert(vchars@.take(m as int) =~= vchars@.take(m - 1).push(
                                vchars@[m - 1],
                            ));
                        }
                        proof {
                            assert(vchars@.take(vchars@.len() as int) =~= vchars@);
                            lemma_prepend_assoc(
                                old_out,
                                value@,
                                interp_from(t@, e + 1, env.view()),
                            );
                        }
                        i = e + 1;
                        continue;
                    },
                    None => {
                        return Err(WebsearchConfigError::UndefinedEnvVar { name: string_of(name) });
                    },
                }
            } else {
                let mut k = i;
                while k < n
                    invariant
                        i <= k <= n,
                        n == t@.len(),
                        out@ == old_out + t@.subrange(i as int, k as int),
                    decreases n - k,
                {
                    out.push(t[k]);
                    k += 1;
                    assert(t@.subrange(i as int, k as int) =~= t@.subrange(i as int, k - 1).push(
                        t@[k - 1],
                    ));
                }
                return Ok(out);
            }
        }
        proof {
            lemma_prepend_assoc(old_out, seq![t@[i as int]], interp_from(t@, i + 1, env.view()));
            assert(old_out + seq![t@[i as int]] =~= old_out.push(t@[i as int]));
        }
        out.push(t[i]);
        i += 1;
    }
    proof {
        assert(out@ + Seq::<char>::empty() =~= out@);
    }
    Ok(out)
}

/// The string fields of a `[tools.web_search]` table (a field that is absent
/// or not a string is `None`).
#[derive(Default, Debug, Clone)]
pub struct WebSearchTable {
    pub provider: Option<String>,
    pub api_key: Option<String>,
    pub cx: Option<String>,
    pub endpoint: Option<String>,
}

/// The web tools section of a project configuration.
#[derive(Default, Debug, Clone)]
pub struct WebToolsConfig {
    pub web_search: Option<WebsearchBackendBuilder>,
}

/// `o` interpolated against `env` when present.
pub open spec fn interp_opt(o: Option<Seq<char>>, env: Map<Seq<char>, Seq<char>>) -> Result<
    Option<Seq<char>>,
    Seq<char>,
> {
    match o {
        None => Ok(None),
        Some(s) => match interp_from(s, 0, env) {
            Ok(v) => Ok(Some(v)),
            Err(name) => Err(name),
        },
    }
}

fn interpolate_opt(o: &Option<String>, env: &Context) -> (r: Result<
    Option<String>,
    WebsearchConfigError,
>)
    ensures
        match interp_opt(opt_view(*o), env.view()) {
            Ok(v) => r matches Ok(x) && opt_view(x) == v,
            Err(name) => r matches Err(e) && e@ == (ConfigErrorView::UndefinedEnvVar { name }),
        },
{
    match o {
        None => Ok(None),
        Some(s) => match interpolate_env(s.as_str(), env) {
            Ok(v) => Ok(Some(v)),
            Err(e) => Err(e),
        },
    }
}

impl WebToolsConfig {
    /// Reads a `[tools.web_search]` table, if there is one, into a builder,
    /// resolving `${NAME}` references in its fields against `env`.
    ///
    /// No table gives a configuration without web search. A table without a
    /// string `provider` is [`WebsearchConfigError::MissingProvider`]. Fields
    /// are interpolated in the order provider, `api_key`, `cx`, `endpoint`;
    /// the first unbound name is the error.
    pub fn from_table(table: Option<&WebSearchTable>, env: &Context) -> (r: Result<
        WebToolsConfig,
        WebsearchConfigError,
    >)
        ensures
            table is None ==> (r matches Ok(c) && c.web_search is None),
            table matches Some(t) ==> match opt_view(t.provider) {
                None => r matches Err(e) && e@ == ConfigErrorView::MissingProvider,
                Some(p) => match (
                    interp_opt(Some(p), env.view()),
                    interp_opt(opt_view(t.api_key), env.view()),
                    interp_opt(opt_view(t.cx), env.view()),
                    interp_opt(opt_view(t.endpoint), env.view()),
                ) {
                    (Err(n), _, _, _) => r matches Err(e) && e@ == (
                    ConfigErrorView::UndefinedEnvVar { name: n }),
                    (Ok(_), Err(n), _, _) => r matches Err(e) && e@ == (
                    ConfigErrorView::UndefinedEnvVar { name: n }),
                    (Ok(_), Ok(_), Err(n), _) => r matches Err(e) && e@ == (
                    ConfigErrorView::UndefinedEnvVar { name: n }),
                    (Ok(_), Ok(_), Ok(_), Err(n)) => r matches Err(e) && e@ == (
                    ConfigErrorView::UndefinedEnvVar { name: n }),
                    (Ok(pv), Ok(k), Ok(c), Ok(ep)) => r matches Ok(cfg) && cfg.web_search matches Some(
                        b,
                    ) && opt_view(b.provider) == pv && opt_view(b.api_key) == k && opt_view(b.cx)
                        == c && opt_view(b.endpoint) == ep,
                },
            },
    {
        let t = match table {
            None => return Ok(WebToolsConfig { web_search: None }),
            Some(t) => t,
        };
        let provider = match &t.provider {
            None => return Err(WebsearchConfigError::MissingProvider),
            Some(p) => interpolate_env(p.as_str(), env)?,
        };
        let api_key = interpolate_opt(&t.api_key, env)?;
        let cx = interpolate_opt(&t.cx, env)?;
        let endpoint = interpolate_opt(&t.endpoint, env)?;
        Ok(
            WebToolsConfig {
                web_search: Some(
                    WebsearchBackendBuilder { provider: Some(provider), api_key, cx, endpoint },
                ),
            },
        )
    }
}

} // verus!
