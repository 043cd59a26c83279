//! Classifying a configuration change and planning the reload.
use vstd::prelude::*;
use crate::text::str_eq;

verus! {

/// How far a configuration change reaches.
#[derive(Debug, PartialEq)]
pub enum ConfigChangeKind {
    RuntimeOnly,
    UpgradeRequired,
    /// A zero-drop upgrade cannot apply these settings, so the reload is rejected.
    RestartRequired { settings: Vec<&'static str> },
}

/// Why a reload is rejected.
#[derive(Debug, Clone, Copy, PartialEq)]
pub enum RejectReason {
    /// A setting changed that even a zero-drop upgrade cannot apply.
    RestartRequired,
    /// The change needs a zero-drop upgrade, and this platform cannot perform one.
    UpgradeUnsupported,
}

pub open spec fn reject_reason_name(r: RejectReason) -> Seq<char> {
    match r {
        RejectReason::RestartRequired => "restart_required"@,
        RejectReason::UpgradeUnsupported => "upgrade_unsupported"@,
    }
}

impl RejectReason {
    pub fn as_str(self) -> (s: &'static str)
        ensures
            s@ == reject_reason_name(self),
    {
        match self {
            RejectReason::RestartRequired => "restart_required",
            RejectReason::UpgradeUnsupported => "upgrade_unsupported",
        }
    }
}

/// What the reload loop does with a classified change.
#[derive(Debug, PartialEq)]
pub enum ReloadPlan {
    ApplyInPlace,
    Upgrade,
    Reject { reason: RejectReason, settings: Vec<&'static str> },
}

/// The views of a list of setting names.
pub open spec fn names_view(v: Seq<&'static str>) -> Seq<Seq<char>> {
    v.map_values(|s: &'static str| s@)
}

/// Decides how to handle a classified change. A runtime-only change is
/// applied in place; one that needs an upgrade is upgraded where upgrades
/// are supported and rejected as unsupported elsewhere; one that needs a
/// restart is rejected everywhere, naming its settings.
pub fn plan_reload(change: ConfigChangeKind, upgrade_supported: bool) -> (p: ReloadPlan)
    ensures
        match change {
            ConfigChangeKind::RuntimeOnly => p is ApplyInPlace,
            ConfigChangeKind::UpgradeRequired => if upgrade_supported {
                p is Upgrade
            } else {
                p matches ReloadPlan::Reject { reason, settings }
                    && reason == RejectReason::UpgradeUnsupported && settings@.len() == 0
            },
            ConfigChangeKind::RestartRequired { settings: s } =>
                p matches ReloadPlan::Reject { reason, settings }
                    && reason == RejectReason::RestartRequired && settings@ == s@,
        },
{
    match change {
        ConfigChangeKind::RuntimeOnly => ReloadPlan::ApplyInPlace,
        ConfigChangeKind::UpgradeRequired => {
            if upgrade_supported {
                ReloadPlan::Upgrade
            } else {
                ReloadPlan::Reject { reason: RejectReason::UpgradeUnsupported, settings: Vec::new() }
            }
        },
        ConfigChangeKind::RestartRequired { settings } => ReloadPlan::Reject {
            reason: RejectReason::RestartRequired,
            settings,
        },
    }
}

/// The admin authentication of a listener, as far as a reload compares it:
/// the token file of its bearer scheme, if it has one.
#[derive(Debug, Clone)]
pub struct AdminAuthFacts {
    pub bearer_token_file: Option<String>,
}

/// A listener as a reload compares it. Nested settings (TLS termination,
/// HTTP/2 tuning, redirect, connection filters) are given by the caller as
/// canonical texts, so two equal settings have equal texts.
#[derive(Debug, Clone)]
pub struct ListenerFacts {
    pub name: String,
    pub addr: String,
    pub tls_termination: Option<String>,
    pub enable_http2: bool,
    pub http2: Option<String>,
    pub enable_admin: bool,
    pub admin_auth: Option<AdminAuthFacts>,
    pub redirect: Option<String>,
    pub connection_filter: Option<String>,
    pub connection_rate_limiting_filter: Option<String>,
}

/// The server settings a reload looks at. Durations are in milliseconds;
/// nested settings (source addresses, observability, TLS automation) are
/// given by the caller as canonical texts, so two equal settings have equal
/// texts.
#[derive(Debug, Clone)]
pub struct ServerFacts {
    pub pid_file: String,
    pub upgrade_sock: Option<String>,
    pub upgrade_max_retries: Option<u64>,
    pub threads: Option<u64>,
    pub work_stealing: bool,
    pub parallel_accepts_per_listener: Option<u64>,
    pub shutdown_drain_seconds: Option<u64>,
    pub shutdown_force_timeout_seconds: Option<u64>,
    pub upstream_connection_pool_size: Option<u64>,
    pub upstream_connection_timeout_ms: Option<u64>,
    pub upstream_read_timeout_ms: Option<u64>,
    pub upstream_source_addresses: Option<String>,
    pub ca_file: Option<String>,
    pub dns_refresh_interval_seconds: u64,
    pub observability: Option<String>,
    pub tls_automation: Option<String>,
}

/// The parts of a configuration that decide how a change to it reloads:
/// the server settings and the listeners. The services are listed by name;
/// a reload applies any change to them at runtime.
#[derive(Debug, Clone)]
pub struct ConfigFacts {
    pub server: ServerFacts,
    pub listeners: Vec<ListenerFacts>,
    pub services: Vec<String>,
}

/// The start-time server settings are alike: threads, performance,
/// shutdown, upstream settings, CA file, DNS refresh interval,
/// observability and TLS automation.
pub open spec fn server_same(a: ServerFacts, b: ServerFacts) -> bool {
    &&& a.threads == b.threads
    &&& a.work_stealing == b.work_stealing
    &&& a.parallel_accepts_per_listener == b.parallel_accepts_per_listener
    &&& a.shutdown_drain_seconds == b.shutdown_drain_seconds
    &&& a.shutdown_force_timeout_seconds == b.shutdown_force_timeout_seconds
    &&& a.upstream_connection_pool_size == b.upstream_connection_pool_size
    &&& a.upstream_connection_timeout_ms == b.upstream_connection_timeout_ms
    &&& a.upstream_read_timeout_ms == b.upstream_read_timeout_ms
    &&& opt_text_same(a.upstream_source_addresses, b.upstream_source_addresses)
    &&& opt_text_same(a.ca_file, b.ca_file)
    &&& a.dns_refresh_interval_seconds == b.dns_refresh_interval_seconds
    &&& opt_text_same(a.observability, b.observability)
    &&& opt_text_same(a.tls_automation, b.tls_automation)
}

fn opt_u64_eq(a: Option<u64>, b: Option<u64>) -> (r: bool)
    ensures
        r == (a == b),
{
    match (a, b) {
        (None, None) => true,
        (Some(x), Some(y)) => x == y,
        _ => false,
    }
}

/// Two optional texts are equal.
pub open spec fn opt_text_same(a: Option<String>, b: Option<String>) -> bool {
    match (a, b) {
        (None, None) => true,
        (Some(x), Some(y)) => x@ == y@,
        _ => false,
    }
}

/// Two admin authentications are alike: both absent, or both present with
/// the same bearer token file (or both without one).
pub open spec fn admin_auth_same(a: Option<AdminAuthFacts>, b: Option<AdminAuthFacts>) -> bool {
    match (a, b) {
        (None, None) => true,
        (Some(x), Some(y)) => opt_text_same(x.bearer_token_file, y.bearer_token_file),
        _ => false,
    }
}

/// Two listeners are alike in every field a reload looks at.
pub open spec fn listener_same(a: ListenerFacts, b: ListenerFacts) -> bool {
    &&& a.name@ == b.name@
    &&& a.addr@ == b.addr@
    &&& opt_text_same(a.tls_termination, b.tls_termination)
    &&& a.enable_http2 == b.enable_http2
    &&& opt_text_same(a.http2, b.http2)
    &&& a.enable_admin == b.enable_admin
    &&& opt_text_same(a.redirect, b.redirect)
    &&& opt_text_same(a.connection_filter, b.connection_filter)
    &&& opt_text_same(a.connection_rate_limiting_filter, b.connection_rate_limiting_filter)
    &&& admin_auth_same(a.admin_auth, b.admin_auth)
}

/// The listener lists differ in length, or at some position.
pub open spec fn listeners_differ(old: Seq<ListenerFacts>, new: Seq<ListenerFacts>) -> bool {
    old.len() != new.len() || exists|i: int| 0 <= i < old.len() && !listener_same(#[trigger] old[i], new[i])
}

fn opt_str_eq(a: &Option<String>, b: &Option<String>) -> (r: bool)
    ensures
        r == opt_text_same(*a, *b),
{
    match (a, b) {
        (None, None) => true,
        (Some(x), Some(y)) => str_eq(x.as_str(), y.as_str()),
        _ => false,
    }
}

/// Whether two admin authentications are alike.
pub fn admin_auth_equivalent(a: &Option<AdminAuthFacts>, b: &Option<AdminAuthFacts>) -> (r: bool)
    ensures
        r == admin_auth_same(*a, *b),
{
    match (a, b) {
        (None, None) => true,
        (Some(x), Some(y)) => opt_str_eq(&x.bearer_token_file, &y.bearer_token_file),
        _ => false,
    }
}

/// Whether two listeners are alike in every field a reload looks at.
pub fn listener_equivalent(a: &ListenerFacts, b: &ListenerFacts) -> (r: bool)
    ensures
        r == listener_same(*a, *b),
{
    str_eq(a.name.as_str(), b.name.as_str())
        && str_eq(a.addr.as_str(), b.addr.as_str())
        && opt_str_eq(&a.tls_termination, &b.tls_termination)
        && a.enable_http2 == b.enable_http2
        && opt_str_eq(&a.http2, &b.http2)
        && a.enable_admin == b.enable_admin
        && opt_str_eq(&a.redirect, &b.redirect)
        && opt_str_eq(&a.connection_filter, &b.connection_filter)
        && opt_str_eq(&a.connection_rate_limiting_filter, &b.connection_rate_limiting_filter)
        && admin_auth_equivalent(&a.admin_auth, &b.admin_auth)
}

/// The characters of an optional text.
pub open spec fn opt_chars(o: Option<String>) -> Option<Seq<char>> {
    match o {
        Some(s) => Some(s@),
        None => None,
    }
}

/// The bearer token file of an optional admin authentication.
pub open spec fn auth_chars(o: Option<AdminAuthFacts>) -> Option<Option<Seq<char>>> {
    match o {
        Some(a) => Some(opt_chars(a.bearer_token_file)),
        None => None,
    }
}

/// Two listeners have equal values in each of their fields.
pub open spec fn listener_fields_equal(a: ListenerFacts, b: ListenerFacts) -> bool {
    &&& a.name@ == b.name@
    &&& a.addr@ == b.addr@
    &&& opt_chars(a.tls_termination) == opt_chars(b.tls_termination)
    &&& a.enable_http2 == b.enable_http2
    &&& opt_chars(a.http2) == opt_chars(b.http2)
    &&& a.enable_admin == b.enable_admin
    &&& auth_chars(a.admin_auth) == auth_chars(b.admin_auth)
    &&& opt_chars(a.redirect) == opt_chars(b.redirect)
    &&& opt_chars(a.connection_filter) == opt_chars(b.connection_filter)
    &&& opt_chars(a.connection_rate_limiting_filter) == opt_chars(b.connection_rate_limiting_filter)
}

/// Two listeners are alike exactly when every field is equal: name,
/// address, TLS termination, HTTP/2 switch and settings, admin switch and
/// authentication, redirect and both connection filters. A change to any
/// one of them is a listener change.
pub proof fn law_listener_equivalence_is_fieldwise(a: ListenerFacts, b: ListenerFacts)
    ensures
        listener_same(a, b) <==> listener_fields_equal(a, b),
{
}

/// With no restart setting changed, a change to any field of any listener
/// (its TLS termination among them) or to the number of listeners needs an
/// upgrade; when the server settings are alike and every listener keeps
/// every field, the change applies at runtime.
pub proof fn law_listener_change_needs_upgrade(old: ConfigFacts, new: ConfigFacts)
    ensures
        old.listeners@.len() != new.listeners@.len()
            || (exists|i: int| 0 <= i < old.listeners@.len() && !listener_fields_equal(#[trigger] old.listeners@[i], new.listeners@[i]))
            ==> listeners_differ(old.listeners@, new.listeners@),
        server_same(old.server, new.server) && old.listeners@.len() == new.listeners@.len()
            && (forall|i: int| 0 <= i < old.listeners@.len() ==> listener_fields_equal(#[trigger] old.listeners@[i], new.listeners@[i]))
            ==> !(!server_same(old.server, new.server) || listeners_differ(old.listeners@, new.listeners@)),
{
    if old.listeners@.len() == new.listeners@.len() {
        if exists|i: int| 0 <= i < old.listeners@.len() && !listener_fields_equal(#[trigger] old.listeners@[i], new.listeners@[i]) {
            let i = choose|i: int| 0 <= i < old.listeners@.len() && !listener_fields_equal(#[trigger] old.listeners@[i], new.listeners@[i]);
            law_listener_equivalence_is_fieldwise(old.listeners@[i], new.listeners@[i]);
        }
        if forall|i: int| 0 <= i < old.listeners@.len() ==> listener_fields_equal(#[trigger] old.listeners@[i], new.listeners@[i]) {
            assert forall|i: int| 0 <= i < old.listeners@.len() implies listener_same(#[trigger] old.listeners@[i], new.listeners@[i]) by {
                law_listener_equivalence_is_fieldwise(old.listeners@[i], new.listeners@[i]);
            }
        }
    }
}

/// The upgrade socket in effect: the configured one, or the proxy's default.
pub open spec fn effective_sock(c: ConfigFacts, default_sock: Seq<char>) -> Seq<char> {
    match c.server.upgrade_sock {
        Some(s) => s@,
        None => default_sock,
    }
}

/// The upgrade socket in effect, as a string.
pub fn effective_upgrade_sock(config: &ConfigFacts, default_sock: &str) -> (s: String)
    ensures
        s@ == effective_sock(*config, default_sock@),
{
    match &config.server.upgrade_sock {
        Some(s) => s.clone(),
        None => default_sock.to_owned(),
    }
}

/// The settings that only a restart can change, in the order they are
/// checked: the pid file, then the upgrade socket in effect.
pub open spec fn restart_settings_spec(old: ConfigFacts, new: ConfigFacts, default_sock: Seq<char>) -> Seq<Seq<char>> {
    let pid: Seq<Seq<char>> = if old.server.pid_file@ != new.server.pid_file@ { seq!["server.pid_file"@] } else { Seq::empty() };
    let sock: Seq<Seq<char>> = if effective_sock(old, default_sock) != effective_sock(new, default_sock) {
        seq!["server.upgrade.sock"@]
    } else {
        Seq::empty()
    };
    pid + sock
}

/// Names the changed settings that a zero-drop upgrade cannot apply.
pub fn restart_settings_changed(old: &ConfigFacts, new: &ConfigFacts, default_sock: &str) -> (v: Vec<&'static str>)
    ensures
        names_view(v@) == restart_settings_spec(*old, *new, default_sock@),
{
    let mut settings: Vec<&'static str> = Vec::new();
    let pid_changed = !str_eq(old.server.pid_file.as_str(), new.server.pid_file.as_str());
    if pid_changed {
        settings.push("server.pid_file");
    }
    let a = effective_upgrade_sock(old, default_sock);
    let b = effective_upgrade_sock(new, default_sock);
    let ghost before = names_view(settings@);
    if !str_eq(a.as_str(), b.as_str()) {
        settings.push("server.upgrade.sock");
    }
    assert(names_view(settings@) =~= restart_settings_spec(*old, *new, default_sock@));
    settings
}

/// Whether a start-time server setting changed.
pub fn server_fields_changed(old: &ConfigFacts, new: &ConfigFacts) -> (r: bool)
    ensures
        r == !server_same(old.server, new.server),
{
    let (a, b) = (&old.server, &new.server);
    !(opt_u64_eq(a.threads, b.threads)
        && a.work_stealing == b.work_stealing
        && opt_u64_eq(a.parallel_accepts_per_listener, b.parallel_accepts_per_listener)
        && opt_u64_eq(a.shutdown_drain_seconds, b.shutdown_drain_seconds)
        && opt_u64_eq(a.shutdown_force_timeout_seconds, b.shutdown_force_timeout_seconds)
        && opt_u64_eq(a.upstream_connection_pool_size, b.upstream_connection_pool_size)
        && opt_u64_eq(a.upstream_connection_timeout_ms, b.upstream_connection_timeout_ms)
        && opt_u64_eq(a.upstream_read_timeout_ms, b.upstream_read_timeout_ms)
        && opt_str_eq(&a.upstream_source_addresses, &b.upstream_source_addresses)
        && opt_str_eq(&a.ca_file, &b.ca_file)
        && a.dns_refresh_interval_seconds == b.dns_refresh_interval_seconds
        && opt_str_eq(&a.observability, &b.observability)
        && opt_str_eq(&a.tls_automation, &b.tls_automation))
}

/// Whether the listeners differ: in number, or in any listener at the same
/// position.
pub fn listeners_changed(old: &Vec<ListenerFacts>, new: &Vec<ListenerFacts>) -> (r: bool)
    ensures
        r == listeners_differ(old@, new@),
{
    if old.len() != new.len() {
        return true;
    }
    let mut i: usize = 0;
    while i < old.len()
        invariant
            i <= old.len(),
            old.len() == new.len(),
            forall|k: int| 0 <= k < i ==> listener_same(#[trigger] old@[k], new@[k]),
        decreases old.len() - i,
    {
        if !listener_equivalent(&old[i], &new[i]) {
            return true;
        }
        i = i + 1;
    }
    false
}

/// Classifies a change: a restart is required when a restart setting
/// changed; otherwise an upgrade when a start-time server setting or a
/// listener changed; otherwise it applies at runtime.
pub fn classify_config_change(old: &ConfigFacts, new: &ConfigFacts, default_sock: &str) -> (k: ConfigChangeKind)
    ensures
        restart_settings_spec(*old, *new, default_sock@).len() > 0 ==> (k matches ConfigChangeKind::RestartRequired { settings }
            && names_view(settings@) == restart_settings_spec(*old, *new, default_sock@)),
        restart_settings_spec(*old, *new, default_sock@).len() == 0 ==> (
            if !server_same(old.server, new.server)
                || listeners_differ(old.listeners@, new.listeners@) {
                k is UpgradeRequired
            } else {
                k is RuntimeOnly
            }),
        restart_settings_spec(*old, *new, default_sock@).len() == 0
            && (exists|i: int| 0 <= i < old.listeners@.len() && i < new.listeners@.len()
                && !listener_fields_equal(#[trigger] old.listeners@[i], new.listeners@[i]))
            ==> k is UpgradeRequired,
{
    proof {
        law_listener_change_needs_upgrade(*old, *new);
        if exists|i: int| 0 <= i < old.listeners@.len() && i < new.listeners@.len()
            && !listener_fields_equal(#[trigger] old.listeners@[i], new.listeners@[i]) {
            if old.listeners@.len() == new.listeners@.len() {
                let i = choose|i: int| 0 <= i < old.listeners@.len() && i < new.listeners@.len()
                    && !listener_fields_equal(#[trigger] old.listeners@[i], new.listeners@[i]);
                assert(!listener_fields_equal(old.listeners@[i], new.listeners@[i]));
            }
        }
    }
    let settings = restart_settings_changed(old, new, default_sock);
    if settings.len() > 0 {
        return ConfigChangeKind::RestartRequired { settings };
    }
    if server_fields_changed(old, new) || listeners_changed(&old.listeners, &new.listeners) {
        ConfigChangeKind::UpgradeRequired
    } else {
        ConfigChangeKind::RuntimeOnly
    }
}

} // verus!
