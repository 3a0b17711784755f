use vstd::prelude::*;
use crate::host::{is_local_host, is_private_or_local_host};
use crate::security::{AutonomyLevel, SecurityPolicy, record_step};
use crate::text::{
    any_ws, chars_of, ends_with, eq_chars, find_char, find_from, has_prefix, has_suffix, has_ws,
    lower_chars, lower_seq, slice_of, strip_trailing_dots, trailing_dots_start, starts_with, string_of, trim, trim_bounds, trim_chars, views,
};
use crate::tool::ToolResult;

verus! {

/// Why a URL was refused, as a value.
pub enum UrlFault {
    Empty,
    Whitespace,
    NotHttps,
    NoAllowlist,
    MissingHost,
    UserInfo,
    PrivateHost(Seq<char>),
    NotAllowed(Seq<char>),
}

/// Why a URL was refused.
pub enum UrlError {
    /// Nothing but whitespace.
    Empty,
    /// Whitespace inside the URL.
    Whitespace,
    /// The scheme is not `https://`.
    NotHttps,
    /// The allowlist is empty.
    NoAllowlist,
    /// No host could be read from the URL.
    MissingHost,
    /// The URL carries `user@` before its host.
    UserInfo,
    /// The host names this machine or a private network.
    PrivateHost(String),
    /// The host matches no allowlist entry.
    NotAllowed(String),
}

impl View for UrlError {
    type V = UrlFault;

    open spec fn view(&self) -> UrlFault {
        match self {
            UrlError::Empty => UrlFault::Empty,
            UrlError::Whitespace => UrlFault::Whitespace,
            UrlError::NotHttps => UrlFault::NotHttps,
            UrlError::NoAllowlist => UrlFault::NoAllowlist,
            UrlError::MissingHost => UrlFault::MissingHost,
            UrlError::UserInfo => UrlFault::UserInfo,
            UrlError::PrivateHost(h) => UrlFault::PrivateHost(h@),
            UrlError::NotAllowed(h) => UrlFault::NotAllowed(h@),
        }
    }
}

pub open spec fn https_scheme() -> Seq<char> {
    seq!['h', 't', 't', 'p', 's', ':', '/', '/']
}

pub open spec fn wildcard() -> Seq<char> {
    seq!['*']
}

pub open spec fn min3(a: int, b: int, c: int) -> int {
    if a <= b && a <= c {
        a
    } else if b <= c {
        b
    } else {
        c
    }
}

/// The authority of an `https://` URL: what follows the scheme, up to the
/// first `/`, backslash, `?` or `#` (browsers read a backslash as a slash).
pub open spec fn authority(u: Seq<char>) -> Seq<char> {
    let rest = u.subrange(8, u.len() as int);
    let e = min3(find_from(rest, 0, '/'), find_from(rest, 0, '?'), find_from(rest, 0, '#'));
    let b = find_from(rest, 0, '\\');
    rest.subrange(
        0,
        if b < e {
            b
        } else {
            e
        },
    )
}

/// A host as it is checked: in lower case, without trailing dots (`localhost.`
/// names the same machine as `localhost`).
pub open spec fn finish_host(raw: Seq<char>) -> Result<Seq<char>, UrlFault> {
    let h = strip_trailing_dots(lower_seq(raw));
    if h.len() == 0 {
        Err(UrlFault::MissingHost)
    } else {
        Ok(h)
    }
}

/// The host of an `https://` URL, without port or IPv6 brackets, as
/// `finish_host` gives it.
pub open spec fn host_of(u: Seq<char>) -> Result<Seq<char>, UrlFault> {
    let a = authority(u);
    if a.len() == 0 {
        Err(UrlFault::MissingHost)
    } else if find_from(a, 0, '@') < a.len() {
        Err(UrlFault::UserInfo)
    } else if a[0] == '[' {
        let c = find_from(a, 0, ']');
        if c >= a.len() || c <= 1 {
            Err(UrlFault::MissingHost)
        } else {
            finish_host(a.subrange(1, c))
        }
    } else {
        let c = find_from(a, 0, ':');
        if c == 0 {
            Err(UrlFault::MissingHost)
        } else {
            finish_host(a.subrange(0, c))
        }
    }
}

/// The allowlist entry `d` admits host `h`: it is the wildcard, the host
/// itself, or a domain of which the host is a subdomain.
pub open spec fn entry_admits(h: Seq<char>, d: Seq<char>) -> bool {
    d == wildcard() || h == d || ends_with(h, seq!['.'] + d)
}

pub open spec fn host_allowed(h: Seq<char>, ds: Seq<Seq<char>>) -> bool {
    exists|i: int| 0 <= i < ds.len() && entry_admits(h, #[trigger] ds[i])
}

/// The verdict on `raw` against the allowlist `ds`: the trimmed URL, or the
/// first rule it breaks.
pub open spec fn url_verdict(raw: Seq<char>, ds: Seq<Seq<char>>) -> Result<Seq<char>, UrlFault> {
    let u = trim(raw);
    if u.len() == 0 {
        Err(UrlFault::Empty)
    } else if has_ws(u) {
        Err(UrlFault::Whitespace)
    } else if !starts_with(u, https_scheme()) {
        Err(UrlFault::NotHttps)
    } else if ds.len() == 0 {
        Err(UrlFault::NoAllowlist)
    } else {
        match host_of(u) {
            Err(e) => Err(e),
            Ok(h) => if is_local_host(h) {
                Err(UrlFault::PrivateHost(h))
            } else if !host_allowed(h, ds) {
                Err(UrlFault::NotAllowed(h))
            } else {
                Ok(u)
            },
        }
    }
}

/// An allowlist entry as it is stored: trimmed and in lower case.
pub open spec fn normalize_domain(d: Seq<char>) -> Seq<char> {
    lower_seq(trim(d))
}

/// The stored allowlist: each entry normalized, empty ones dropped, order
/// kept.
pub open spec fn normalized_domains(ds: Seq<Seq<char>>) -> Seq<Seq<char>>
    decreases ds.len(),
{
    if ds.len() == 0 {
        Seq::empty()
    } else {
        let p = normalized_domains(ds.drop_last());
        let d = normalize_domain(ds.last());
        if d.len() > 0 {
            p.push(d)
        } else {
            p
        }
    }
}

/// The allowlist of `raw`, normalized.
pub fn normalize_allowed_domains(raw: Vec<String>) -> (r: Vec<String>)
    ensures
        views(r@) == normalized_domains(views(raw@)),
{
    let mut out: Vec<String> = Vec::new();
    let mut i: usize = 0;
    while i < raw.len()
        invariant
            i <= raw@.len(),
            views(out@) == normalized_domains(views(raw@).subrange(0, i as int)),
        decreases raw@.len() - i,
    {
        let d = lower_chars(trim_chars(chars_of(raw[i].as_str()).as_slice()).as_slice());
        assert(views(raw@).subrange(0, i + 1).drop_last() =~= views(raw@).subrange(0, i as int));
        if d.len() > 0 {
            let s = string_of(d.as_slice());
            out.push(s);
            assert(views(out@) =~= views(out@).drop_last().push(s@));
        }
        i = i + 1;
    }
    assert(views(raw@).subrange(0, raw@.len() as int) =~= views(raw@));
    out
}

fn finish_host_exec(raw: &[char]) -> (r: Result<Vec<char>, UrlError>)
    ensures
        match r {
            Ok(h) => finish_host(raw@) == Ok::<Seq<char>, UrlFault>(h@),
            Err(e) => finish_host(raw@) == Err::<Seq<char>, UrlFault>(e@),
        },
{
    let l = lower_chars(raw);
    let end = trailing_dots_start(l.as_slice());
    if end == 0 {
        return Err(UrlError::MissingHost);
    }
    Ok(slice_of(l.as_slice(), 0, end))
}

/// Reads the host out of a trimmed `https://` URL.
pub fn extract_host(u: &[char]) -> (r: Result<Vec<char>, UrlError>)
    requires
        starts_with(u@, https_scheme()),
    ensures
        match r {
            Ok(h) => host_of(u@) == Ok::<Seq<char>, UrlFault>(h@),
            Err(e) => host_of(u@) == Err::<Seq<char>, UrlFault>(e@),
        },
{
    let rest = slice_of(u, 8, u.len());
    let e1 = find_char(rest.as_slice(), 0, '/');
    let e2 = find_char(rest.as_slice(), 0, '?');
    let e3 = find_char(rest.as_slice(), 0, '#');
    let e4 = find_char(rest.as_slice(), 0, '\\');
    let e = if e1 <= e2 && e1 <= e3 {
        e1
    } else if e2 <= e3 {
        e2
    } else {
        e3
    };
    let end = if e4 < e {
        e4
    } else {
        e
    };
    let a = slice_of(rest.as_slice(), 0, end);
    assert(a@ == authority(u@));
    if a.len() == 0 {
        return Err(UrlError::MissingHost);
    }
    let at = find_char(a.as_slice(), 0, '@');
    if at < a.len() {
        return Err(UrlError::UserInfo);
    }
    if a[0] == '[' {
        let c = find_char(a.as_slice(), 0, ']');
        if c >= a.len() || c <= 1 {
            return Err(UrlError::MissingHost);
        }
        finish_host_exec(slice_of(a.as_slice(), 1, c).as_slice())
    } else {
        let c = find_char(a.as_slice(), 0, ':');
        if c == 0 {
            return Err(UrlError::MissingHost);
        }
        finish_host_exec(slice_of(a.as_slice(), 0, c).as_slice())
    }
}

fn entry_admits_exec(h: &[char], d: &[char]) -> (r: bool)
    ensures
        r == entry_admits(h@, d@),
{
    if d.len() == 1 && d[0] == '*' {
        assert(d@ =~= wildcard());
        return true;
    }
    assert(d@ != wildcard()) by {
        if d@ == wildcard() {
            assert(d@[0] == '*');
        }
    }
    if eq_chars(h, d) {
        return true;
    }
    let mut dotted: Vec<char> = vec!['.'];
    let mut i: usize = 0;
    while i < d.len()
        invariant
            i <= d@.len(),
            dotted@ == seq!['.'] + d@.subrange(0, i as int),
        decreases d@.len() - i,
    {
        dotted.push(d[i]);
        i = i + 1;
    }
    assert(d@.subrange(0, d@.len() as int) =~= d@);
    has_suffix(h, dotted.as_slice())
}

/// Whether some entry of `domains` admits host `h`.
pub fn host_matches_allowlist(h: &[char], domains: &Vec<String>) -> (r: bool)
    ensures
        r == host_allowed(h@, views(domains@)),
{
    let mut i: usize = 0;
    while i < domains.len()
        invariant
            i <= domains@.len(),
            forall|k: int| 0 <= k < i ==> !entry_admits(h@, #[trigger] views(domains@)[k]),
        decreases domains@.len() - i,
    {
        let d = chars_of(domains[i].as_str());
        if entry_admits_exec(h, d.as_slice()) {
            assert(entry_admits(h@, views(domains@)[i as int]));
            return true;
        }
        i = i + 1;
    }
    false
}

/// Checks `raw` against the allowlist `domains` (already normalized) and
/// returns the trimmed URL.
pub fn validate_url_against(raw: &str, domains: &Vec<String>) -> (r: Result<String, UrlError>)
    ensures
        match r {
            Ok(s) => url_verdict(raw@, views(domains@)) == Ok::<Seq<char>, UrlFault>(s@),
            Err(e) => url_verdict(raw@, views(domains@)) == Err::<Seq<char>, UrlFault>(e@),
        },
{
    let all = chars_of(raw);
    let (a, b) = trim_bounds(all.as_slice());
    let u = slice_of(all.as_slice(), a, b);
    if u.len() == 0 {
        return Err(UrlError::Empty);
    }
    if any_ws(u.as_slice()) {
        return Err(UrlError::Whitespace);
    }
    let scheme: Vec<char> = vec!['h', 't', 't', 'p', 's', ':', '/', '/'];
    assert(scheme@ =~= https_scheme());
    if !has_prefix(u.as_slice(), scheme.as_slice()) {
        return Err(UrlError::NotHttps);
    }
    if domains.len() == 0 {
        return Err(UrlError::NoAllowlist);
    }
    let host = match extract_host(u.as_slice()) {
        Ok(h) => h,
        Err(e) => {
            return Err(e);
        },
    };
    if is_private_or_local_host(host.as_slice()) {
        return Err(UrlError::PrivateHost(string_of(host.as_slice())));
    }
    if !host_matches_allowlist(host.as_slice(), domains) {
        return Err(UrlError::NotAllowed(string_of(host.as_slice())));
    }
    Ok(string_of(u.as_slice()))
}


/// The text of each refusal.
pub open spec fn fault_message(f: UrlFault) -> Seq<char> {
    match f {
        UrlFault::Empty => "URL cannot be empty"@,
        UrlFault::Whitespace => "URL cannot contain whitespace"@,
        UrlFault::NotHttps => "Only https:// URLs are allowed"@,
        UrlFault::NoAllowlist => "Browser tool is enabled but no allowed_domains are configured. Add [browser].allowed_domains in config.toml"@,
        UrlFault::MissingHost => "URL must include a host"@,
        UrlFault::UserInfo => "URL userinfo is not allowed"@,
        UrlFault::PrivateHost(h) => "Blocked local/private host: "@ + h,
        UrlFault::NotAllowed(h) => "Host '"@ + h + "' is not in browser.allowed_domains"@,
    }
}

/// `r` is a failed outcome whose error is `msg`.
pub open spec fn refused_with(r: Result<String, ToolResult>, msg: Seq<char>) -> bool {
    match r {
        Err(t) => !t.success && t.output@.len() == 0 && t.error is Some && t.error->0@ == msg,
        Ok(_) => false,
    }
}

/// `r` is the URL `v`, to be opened.
pub open spec fn opens(r: Result<String, ToolResult>, v: Seq<char>) -> bool {
    match r {
        Ok(s) => s@ == v,
        Err(_) => false,
    }
}

impl UrlError {
    /// The refusal as text.
    pub fn message(&self) -> (r: String)
        ensures
            r@ == fault_message(self@),
    {
        match self {
            UrlError::Empty => String::from_str("URL cannot be empty"),
            UrlError::Whitespace => String::from_str("URL cannot contain whitespace"),
            UrlError::NotHttps => String::from_str("Only https:// URLs are allowed"),
            UrlError::NoAllowlist => String::from_str(
                "Browser tool is enabled but no allowed_domains are configured. Add [browser].allowed_domains in config.toml",
            ),
            UrlError::MissingHost => String::from_str("URL must include a host"),
            UrlError::UserInfo => String::from_str("URL userinfo is not allowed"),
            UrlError::PrivateHost(h) => {
                let mut m = String::from_str("Blocked local/private host: ");
                m.append(h.as_str());
                m
            },
            UrlError::NotAllowed(h) => {
                let mut m = String::from_str("Host '");
                m.append(h.as_str());
                m.append("' is not in browser.allowed_domains");
                m
            },
        }
    }
}

/// Opens approved HTTPS URLs in the system browser, behind the security
/// policy and the domain allowlist.
///
/// The tool holds no policy of its own: each opening is counted against the
/// session's policy, which the caller lends to `prepare_open`.
pub struct BrowserOpenTool {
    allowed_domains: Vec<String>,
}

impl BrowserOpenTool {
    /// The stored allowlist.
    pub closed spec fn domains(&self) -> Seq<Seq<char>> {
        views(self.allowed_domains@)
    }

    pub fn new(allowed_domains: Vec<String>) -> (r: Self)
        ensures
            r.domains() == normalized_domains(views(allowed_domains@)),
    {
        BrowserOpenTool { allowed_domains: normalize_allowed_domains(allowed_domains) }
    }

    pub fn name(&self) -> (r: &'static str)
        ensures
            r@ == "browser_open"@,
    {
        "browser_open"
    }

    pub fn description(&self) -> (r: &'static str)
        ensures
            r@ == "Open an approved HTTPS URL in the system browser. Security constraints: allowlist-only domains, no local/private hosts, no scraping."@,
    {
        "Open an approved HTTPS URL in the system browser. Security constraints: allowlist-only domains, no local/private hosts, no scraping."
    }

    /// Checks `raw_url` against the allowlist: the trimmed URL, or the first
    /// rule it breaks.
    pub fn validate_url(&self, raw_url: &str) -> (r: Result<String, UrlError>)
        ensures
            match r {
                Ok(s) => url_verdict(raw_url@, self.domains()) == Ok::<Seq<char>, UrlFault>(s@),
                Err(e) => url_verdict(raw_url@, self.domains()) == Err::<Seq<char>, UrlFault>(e@),
            },
    {
        validate_url_against(raw_url, &self.allowed_domains)
    }

    /// Everything an opening decides before the browser is launched, at time
    /// `now` (seconds): the argument is present, the session's `policy`
    /// allows acting, one action is recorded against it, and the URL passes.
    /// `Ok` holds the URL to open; `Err` the failed outcome to report.
    pub fn prepare_open(&self, policy: &mut SecurityPolicy, url: Option<&str>, now: u64) -> (r:
        Result<String, ToolResult>)
        ensures
            url is None ==> *final(policy) == *old(policy) && refused_with(
                r,
                "Missing 'url' parameter"@,
            ),
            url is Some && old(policy).autonomy == AutonomyLevel::ReadOnly ==> *final(policy)
                == *old(policy) && refused_with(r, "Action blocked: autonomy is read-only"@),
            url is Some && old(policy).autonomy != AutonomyLevel::ReadOnly ==> *final(policy)
                == record_step(*old(policy), now).0,
            url is Some && old(policy).autonomy != AutonomyLevel::ReadOnly && !record_step(
                *old(policy),
                now,
            ).1 ==> refused_with(r, "Action blocked: rate limit exceeded"@),
            url is Some && old(policy).autonomy != AutonomyLevel::ReadOnly && record_step(
                *old(policy),
                now,
            ).1 ==> match url_verdict(url->0@, self.domains()) {
                Ok(v) => opens(r, v),
                Err(f) => refused_with(r, fault_message(f)),
            },
    {
        let u = match url {
            Some(u) => u,
            None => {
                return Err(ToolResult::failure(String::from_str("Missing 'url' parameter")));
            },
        };
        if !policy.can_act() {
            return Err(
                ToolResult::failure(String::from_str("Action blocked: autonomy is read-only")),
            );
        }
        if !policy.record_action(now) {
            return Err(
                ToolResult::failure(String::from_str("Action blocked: rate limit exceeded")),
            );
        }
        match self.validate_url(u) {
            Ok(v) => Ok(v),
            Err(e) => Err(ToolResult::failure(e.message())),
        }
    }

    /// The outcome of launching the browser on `url`; `launch` is the
    /// launcher's result, its error as text.
    pub fn opened(url: &str, launch: Result<(), String>) -> (r: ToolResult)
        ensures
            launch is Ok ==> r.success && r.error is None && r.output@
                == "Opened in system browser: "@ + url@,
            launch is Err ==> !r.success && r.output@.len() == 0 && r.error is Some
                && r.error->0@ == "Failed to open system browser: "@ + launch->Err_0@,
    {
        match launch {
            Ok(()) => {
                let mut m = String::from_str("Opened in system browser: ");
                m.append(url);
                ToolResult::ok(m)
            },
            Err(e) => {
                let mut m = String::from_str("Failed to open system browser: ");
                m.append(e.as_str());
                ToolResult::failure(m)
            },
        }
    }
}

/// Whatever the allowlist holds, a URL is refused when, once trimmed, it does
/// not start with `https://`, holds whitespace, or has a host that names
/// this machine or a private network.
pub proof fn lemma_unsafe_urls_refused(raw: Seq<char>, ds: Seq<Seq<char>>)
    ensures
        !starts_with(trim(raw), https_scheme()) ==> url_verdict(raw, ds) is Err,
        has_ws(trim(raw)) ==> url_verdict(raw, ds) is Err,
        host_of(trim(raw)) is Ok && is_local_host(host_of(trim(raw))->Ok_0) ==> url_verdict(
            raw,
            ds,
        ) is Err,
        url_verdict(raw, ds) is Ok ==> url_verdict(raw, ds)->Ok_0 == trim(raw) && starts_with(
            trim(raw),
            https_scheme(),
        ) && !has_ws(trim(raw)) && host_of(trim(raw)) is Ok && !is_local_host(
            host_of(trim(raw))->Ok_0,
        ),
{
    if trim(raw).len() == 0 {
        assert(!starts_with(trim(raw), https_scheme()));
    }
}

/// A wildcard entry admits every host that is not local or private, and
/// admits no local or private one.
pub proof fn lemma_wildcard_keeps_host_rule(raw: Seq<char>, ds: Seq<Seq<char>>)
    requires
        ds.contains(wildcard()),
    ensures
        forall|h: Seq<char>| host_allowed(h, ds),
        url_verdict(raw, ds) is Ok <==> (trim(raw).len() > 0 && !has_ws(trim(raw)) && starts_with(
            trim(raw),
            https_scheme(),
        ) && host_of(trim(raw)) is Ok && !is_local_host(host_of(trim(raw))->Ok_0)),
{
    let i = choose|i: int| 0 <= i < ds.len() && ds[i] == wildcard();
    assert forall|h: Seq<char>| host_allowed(h, ds) by {
        assert(entry_admits(h, ds[i]));
    }
}

/// A domain entry admits its strict subdomains, and no host that merely ends
/// with the same letters: `p + d` is admitted by entry `d` exactly when the
/// non-empty prefix `p` ends with a dot.
pub proof fn lemma_subdomain_boundary(p: Seq<char>, d: Seq<char>)
    requires
        d != wildcard(),
        p.len() > 0,
    ensures
        entry_admits(p + d, d) <==> p.last() == '.',
{
    let h = p + d;
    let dd = seq!['.'] + d;
    assert(h != d) by {
        assert(h.len() != d.len());
    }
    if p.last() == '.' {
        assert(h.subrange(h.len() - dd.len(), h.len() as int) =~= dd);
    }
    if ends_with(h, dd) {
        assert(h.subrange(h.len() - dd.len(), h.len() as int)[0] == dd[0]);
        assert(h[h.len() - dd.len()] == p.last());
    }
}

} // verus!
