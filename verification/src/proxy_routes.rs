//! The request proxy: forwards a request to an outside URL and hands the response back as
//! `{status, headers, body}` with a base64 body.
//!
//! Every address is checked before a request goes out, again at every redirect. The rules
//! stand here as a machine from state and event to next state and action; the caller resolves
//! names, sends requests and reads bodies.

use vstd::prelude::*;

use crate::base64_text::{b64, b64_decoded, decode, encode, encode_groups, lemma_b64_concat};
use crate::json::{object_view, put, str_value, Json, JsonView};
use crate::net::{ip_of, is_private, octets_value, parse_ip, parse_v4, v4_of, value_of_octets, IpAddress, IpView};
use crate::reply::{fail, failure, Failure, FailureView};
use crate::text::{bytes_of, chars_of, char_texts, clone_list, decimal, find_char, first_at, in_list, items_of, list_items, law_first_place, law_numbers_are_read, lower, opt_str, opt_text, parse_uint, str_eq, strings_of, sub_chars, texts, uint_of, Text};

pub use crate::net::is_private_ip;

verus! {

/// The largest response body that is passed on: 50 MiB.
pub const MAX_RESPONSE_BYTES: u64 = 52_428_800;

/// The most redirects that are followed.
pub const MAX_REDIRECTS: usize = 5;

// ---- configuration ----

/// Which requests the proxy takes.
#[derive(Clone, Copy, PartialEq, Eq, Debug, Structural)]
pub enum ProxyMode {
    Any,
    Allowlist,
    Disabled,
}

/// Proxy configuration.
pub struct ProxyConfig {
    pub mode: ProxyMode,
    /// Exact addresses that are allowed even though private; none occurs twice.
    pub allow_private_exact: Vec<IpAddress>,
    /// IPv4 networks, as network and mask, that are allowed even though private.
    pub allow_private_cidr_v4: Vec<(u32, u32)>,
    /// The hosts that are allowed in mode `Allowlist`.
    pub allowlist_hosts: Vec<String>,
}

/// What a proxy configuration says.
pub struct ConfigView {
    pub mode: ProxyMode,
    pub exact: Set<IpView>,
    pub cidrs: Seq<(u32, u32)>,
    pub hosts: Seq<Text>,
}

/// The addresses of a list.
pub open spec fn ip_views(v: Seq<IpAddress>) -> Seq<IpView> {
    v.map_values(|ip: IpAddress| ip@)
}

/// The bits of an IPv4 address that a prefix of length `p` covers.
pub open spec fn prefix_mask(p: u32) -> u32 {
    if p == 0 {
        0
    } else {
        0xffff_ffffu32 << ((32 - p) as u32)
    }
}

/// An entry of the list of allowed private addresses.
pub enum AllowEntry {
    Exact(IpView),
    Network(u32, u32),
    Unusable,
}

/// What an entry means: `base/prefix` is an IPv4 network with a prefix of at most 32, another
/// entry is an address. Anything else is unusable.
pub open spec fn allow_entry(t: Text) -> AllowEntry {
    let i = first_at(t, '/') as int;
    if i < t.len() {
        match (parse_v4(t.take(i)), parse_uint(t.skip(i + 1), u32::MAX as nat)) {
            (Some(o), Some(p)) => if p <= 32 {
                AllowEntry::Network(
                    octets_value(o) as u32 & prefix_mask(p as u32),
                    prefix_mask(p as u32),
                )
            } else {
                AllowEntry::Unusable
            },
            _ => AllowEntry::Unusable,
        }
    } else {
        match parse_ip(t) {
            Some(ip) => AllowEntry::Exact(ip),
            None => AllowEntry::Unusable,
        }
    }
}

/// The addresses among the entries.
pub open spec fn exact_entries(entries: Seq<Text>) -> Set<IpView> {
    Set::new(
        |ip: IpView|
            exists|i: int|
                0 <= i < entries.len() && allow_entry(#[trigger] entries[i]) == AllowEntry::Exact(ip),
    )
}

/// The networks among the entries, in order.
pub open spec fn network_entries(entries: Seq<Text>) -> Seq<(u32, u32)>
    decreases entries.len(),
{
    if entries.len() == 0 {
        Seq::empty()
    } else {
        match allow_entry(entries.last()) {
            AllowEntry::Network(n, m) => network_entries(entries.drop_last()).push((n, m)),
            _ => network_entries(entries.drop_last()),
        }
    }
}

/// Whether an address is allowed although it may be private: it is listed, or an IPv4 address
/// in a listed network.
pub open spec fn listed(exact: Set<IpView>, cidrs: Seq<(u32, u32)>, ip: IpView) -> bool {
    ||| exact.contains(ip)
    ||| match ip {
        IpView::V4(o) => exists|i: int|
            0 <= i < cidrs.len() && octets_value(o) as u32 & (#[trigger] cidrs[i]).1 == cidrs[i].0,
        IpView::V6(_) => false,
    }
}

/// A public address passes; a private one passes only where it is listed.
pub open spec fn address_allowed(cfg: ConfigView, ip: IpView) -> bool {
    !is_private(ip) || listed(cfg.exact, cfg.cidrs, ip)
}

/// The mode that a text names: `disabled`, `allowlist`, and anything else is `any`.
pub open spec fn mode_named(t: Option<Text>) -> ProxyMode {
    if t == Some("disabled"@) {
        ProxyMode::Disabled
    } else if t == Some("allowlist"@) {
        ProxyMode::Allowlist
    } else {
        ProxyMode::Any
    }
}

/// A network entry covers exactly the addresses that agree with its base in the leading `p`
/// bits.
pub proof fn law_network_covers_its_prefix(base: u32, value: u32, p: u32)
    requires
        p <= 32,
    ensures
        p == 0 ==> value & prefix_mask(p) == base & prefix_mask(p),
        p > 0 ==> (value & prefix_mask(p) == base & prefix_mask(p) <==> value >> ((32 - p) as u32)
            == base >> ((32 - p) as u32)),
{
    if p == 0 {
        assert(value & 0 == base & 0) by (bit_vector);
    } else {
        let k = (32 - p) as u32;
        assert(value & (0xffff_ffffu32 << k) == base & (0xffff_ffffu32 << k) <==> value >> k == base
            >> k) by (bit_vector)
            requires
                k < 32,
        ;
    }
}

impl ProxyConfig {
    /// What the configuration says.
    pub open spec fn view(self) -> ConfigView {
        ConfigView {
            mode: self.mode,
            exact: ip_views(self.allow_private_exact@).to_set(),
            cidrs: self.allow_private_cidr_v4@,
            hosts: texts(self.allowlist_hosts@),
        }
    }

    /// Nothing occurs twice among the exact addresses.
    pub open spec fn wf(self) -> bool {
        ip_views(self.allow_private_exact@).no_duplicates()
    }

    /// The configuration that the environment asks for: `PROXY_MODE`,
    /// `PROXY_ALLOW_PRIVATE_HOSTS` and `PROXY_ALLOWLIST`, each where it is set.
    pub fn from_env(
        proxy_mode: Option<&str>,
        allow_private_hosts: Option<&str>,
        allowlist: Option<&str>,
    ) -> (r: ProxyConfig)
        ensures
            r.wf(),
            r@.mode == mode_named(opt_str(proxy_mode)),
            r@.exact == (match allow_private_hosts {
                Some(v) => exact_entries(list_items(v@, ',')),
                None => Set::<IpView>::empty(),
            }),
            r@.cidrs == (match allow_private_hosts {
                Some(v) => network_entries(list_items(v@, ',')),
                None => Seq::<(u32, u32)>::empty(),
            }),
            r@.hosts == (match allowlist {
                Some(v) => list_items(v@, ','),
                None => Seq::<Text>::empty(),
            }),
    {
        let mode = match proxy_mode {
            Some(m) => if str_eq(m, "disabled") {
                ProxyMode::Disabled
            } else if str_eq(m, "allowlist") {
                ProxyMode::Allowlist
            } else {
                ProxyMode::Any
            },
            None => ProxyMode::Any,
        };
        let mut cfg = ProxyConfig::default();
        cfg.mode = mode;
        if let Some(v) = allow_private_hosts {
            cfg.set_allow_private(v);
            assert(cfg@.exact =~= exact_entries(list_items(v@, ',')));
            assert(cfg@.cidrs =~= network_entries(list_items(v@, ',')));
        }
        if let Some(v) = allowlist {
            cfg.allowlist_hosts = strings_of(&items_of(&chars_of(v), ','));
        }
        cfg
    }

    /// Adds the addresses and IPv4 networks of a comma-separated list. Entries that are
    /// neither are passed over.
    pub fn set_allow_private(&mut self, entries: &str)
        ensures
            final(self)@.exact == old(self)@.exact.union(exact_entries(list_items(entries@, ','))),
            final(self)@.cidrs == old(self)@.cidrs + network_entries(list_items(entries@, ',')),
            final(self)@.mode == old(self)@.mode,
            final(self)@.hosts == old(self)@.hosts,
            old(self).wf() ==> final(self).wf(),
    {
        let items = items_of(&chars_of(entries), ',');
        let ghost all = list_items(entries@, ',');
        let ghost start = *self;
        assert(char_texts(items@).len() == items@.len());
        assert(all.take(0) =~= Seq::<Text>::empty());
        assert(self@.exact =~= start@.exact.union(exact_entries(all.take(0))));
        assert(self@.cidrs =~= start@.cidrs + network_entries(all.take(0)));
        for i in 0..items.len()
            invariant
                char_texts(items@) == all,
                items@.len() == all.len(),
                self@.exact == start@.exact.union(exact_entries(all.take(i as int))),
                self@.cidrs == start@.cidrs + network_entries(all.take(i as int)),
                self@.mode == start@.mode,
                self@.hosts == start@.hosts,
                start.wf() ==> self.wf(),
        {
            proof {
                assert(char_texts(items@)[i as int] == items@[i as int]@);
                assert(all.take(i as int + 1).drop_last() =~= all.take(i as int));
                lemma_exact_push(all.take(i as int), all[i as int]);
                assert(all.take(i as int + 1) =~= all.take(i as int).push(all[i as int]));
            }
            let ghost before = self@;
            self.allow_one(&items[i]);
            proof {
                match allow_entry(all[i as int]) {
                    AllowEntry::Exact(ip) => {
                        assert(self@.exact =~= start@.exact.union(
                            exact_entries(all.take(i as int + 1)),
                        ));
                    },
                    AllowEntry::Network(n, m) => {
                        assert(before.cidrs.push((n, m)) =~= start@.cidrs + network_entries(
                            all.take(i as int),
                        ).push((n, m)));
                    },
                    AllowEntry::Unusable => {},
                }
            }
        }
        assert(all.take(all.len() as int) =~= all);
    }

    /// Adds one entry.
    fn allow_one(&mut self, entry: &Vec<char>)
        ensures
            final(self)@.mode == old(self)@.mode,
            final(self)@.hosts == old(self)@.hosts,
            old(self).wf() ==> final(self).wf(),
            match allow_entry(entry@) {
                AllowEntry::Exact(ip) => final(self)@.exact == old(self)@.exact.insert(ip) && final(self)@.cidrs == old(self)@.cidrs,
                AllowEntry::Network(n, m) => final(self)@.exact == old(self)@.exact && final(self)@.cidrs == old(self)@.cidrs.push((n, m)),
                AllowEntry::Unusable => final(self)@.exact == old(self)@.exact && final(self)@.cidrs
                    == old(self)@.cidrs,
            },
    {
        let i = find_char(entry, '/');
        if i < entry.len() {
            let base = sub_chars(entry, 0, i);
            let prefix = sub_chars(entry, i + 1, entry.len());
            assert(base@ =~= entry@.take(i as int));
            assert(prefix@ =~= entry@.skip(i as int + 1));
            if let (Some(o), Some(p)) = (v4_of(&base), uint_of(&prefix, 4294967295)) {
                if p <= 32 {
                    let p: u32 = p as u32;
                    let mask: u32 = if p == 0 {
                        0
                    } else {
                        let k: u32 = 32 - p;
                        assert(0 <= k < 32);
                        0xffff_ffffu32 << k
                    };
                    let network = value_of_octets(&o) & mask;
                    self.allow_private_cidr_v4.push((network, mask));
                }
            }
        } else if let Some(ip) = ip_of(entry) {
            self.insert_exact(ip);
        }
    }

    /// Adds an exact address, unless it is there.
    fn insert_exact(&mut self, ip: IpAddress)
        ensures
            final(self)@.exact == old(self)@.exact.insert(ip@),
            final(self)@.cidrs == old(self)@.cidrs,
            final(self)@.mode == old(self)@.mode,
            final(self)@.hosts == old(self)@.hosts,
            old(self).wf() ==> final(self).wf(),
    {
        let ghost v = ip_views(self.allow_private_exact@);
        if self.has_exact(ip) {
            assert(self@.exact =~= self@.exact.insert(ip@));
        } else {
            self.allow_private_exact.push(ip);
            let ghost w = ip_views(self.allow_private_exact@);
            proof {
                assert(w =~= v.push(ip@));
                assert forall|x: IpView| w.to_set().contains(x) <==> v.to_set().insert(
                    ip@,
                ).contains(x) by {
                    if v.contains(x) {
                        let j = choose|j: int| 0 <= j < v.len() && v[j] == x;
                        assert(w[j] == x);
                    }
                    if x == ip@ {
                        assert(w[v.len() as int] == x);
                    }
                    if w.contains(x) {
                        let j = choose|j: int| 0 <= j < w.len() && w[j] == x;
                        if j < v.len() {
                            assert(v[j] == x);
                        }
                    }
                }
                assert(w.to_set() =~= v.to_set().insert(ip@));
                if v.no_duplicates() {
                    assert forall|a: int, b: int|
                        0 <= a < w.len() && 0 <= b < w.len() && a != b implies w[a] != w[b] by {
                        if a < v.len() {
                            assert(v[a] == w[a]);
                            assert(v.contains(w[a]));
                        }
                        if b < v.len() {
                            assert(v[b] == w[b]);
                            assert(v.contains(w[b]));
                        }
                    }
                }
            }
        }
    }

    /// Whether an address is among the exact ones.
    fn has_exact(&self, ip: IpAddress) -> (r: bool)
        ensures
            r == self@.exact.contains(ip@),
            r == ip_views(self.allow_private_exact@).contains(ip@),
    {
        let ghost v = ip_views(self.allow_private_exact@);
        for i in 0..self.allow_private_exact.len()
            invariant
                v == ip_views(self.allow_private_exact@),
                forall|j: int| 0 <= j < i ==> #[trigger] v[j] != ip@,
        {
            assert(v[i as int] == self.allow_private_exact@[i as int]@);
            if self.allow_private_exact[i].same(&ip) {
                assert(v.contains(v[i as int]));
                return true;
            }
        }
        false
    }

    /// Whether an address is listed as allowed although it may be private.
    pub fn allowlisted_addr(&self, ip: IpAddress) -> (r: bool)
        ensures
            r == listed(self@.exact, self@.cidrs, ip@),
    {
        if self.has_exact(ip) {
            return true;
        }
        if let IpAddress::V4(o) = ip {
            let value = value_of_octets(&o);
            for i in 0..self.allow_private_cidr_v4.len()
                invariant
                    value == octets_value(o@),
                    forall|j: int|
                        0 <= j < i ==> value & (#[trigger] self.allow_private_cidr_v4@[j]).1
                            != self.allow_private_cidr_v4@[j].0,
                    ip@ == IpView::V4(o@),
            {
                let (network, mask) = self.allow_private_cidr_v4[i];
                if value & mask == network {
                    assert(value & self.allow_private_cidr_v4@[i as int].1
                        == self.allow_private_cidr_v4@[i as int].0);
                    return true;
                }
            }
        }
        false
    }

    /// A public address passes; a private one passes only where it is listed.
    pub fn addr_allowed(&self, ip: IpAddress) -> (r: bool)
        ensures
            r == address_allowed(self@, ip@),
    {
        !is_private_ip(ip) || self.allowlisted_addr(ip)
    }
}

impl Clone for ProxyConfig {
    /// A configuration that says the same.
    fn clone(&self) -> (r: Self)
        ensures
            r@ == self@,
            self.wf() ==> r.wf(),
    {
        let mut networks: Vec<(u32, u32)> = Vec::new();
        for i in 0..self.allow_private_cidr_v4.len()
            invariant
                networks@ == self.allow_private_cidr_v4@.take(i as int),
        {
            networks.push(self.allow_private_cidr_v4[i]);
        }
        assert(networks@ =~= self.allow_private_cidr_v4@);
        let r = ProxyConfig {
            mode: self.mode,
            allow_private_exact: self.allow_private_exact.clone(),
            allow_private_cidr_v4: networks,
            allowlist_hosts: clone_list(&self.allowlist_hosts),
        };
        assert(r.allow_private_exact@ =~= self.allow_private_exact@);
        r
    }
}

impl Default for ProxyConfig {
    fn default() -> (r: Self)
        ensures
            r.wf(),
            r@.mode == ProxyMode::Any,
            r@.exact == Set::<IpView>::empty(),
            r@.cidrs == Seq::<(u32, u32)>::empty(),
            r@.hosts == Seq::<Text>::empty(),
    {
        let r = ProxyConfig {
            mode: ProxyMode::Any,
            allow_private_exact: Vec::new(),
            allow_private_cidr_v4: Vec::new(),
            allowlist_hosts: Vec::new(),
        };
        assert(ip_views(r.allow_private_exact@).to_set() =~= Set::<IpView>::empty());
        assert(texts(r.allowlist_hosts@) =~= Seq::<Text>::empty());
        r
    }
}

/// One more entry adds the address that it names.
proof fn lemma_exact_push(entries: Seq<Text>, t: Text)
    ensures
        exact_entries(entries.push(t)) == (match allow_entry(t) {
            AllowEntry::Exact(ip) => exact_entries(entries).insert(ip),
            _ => exact_entries(entries),
        }),
{
    let more = entries.push(t);
    let target = match allow_entry(t) {
        AllowEntry::Exact(ip) => exact_entries(entries).insert(ip),
        _ => exact_entries(entries),
    };
    assert forall|x: IpView| exact_entries(more).contains(x) <==> target.contains(x) by {
        if exact_entries(more).contains(x) {
            let i = choose|i: int|
                0 <= i < more.len() && allow_entry(#[trigger] more[i]) == AllowEntry::Exact(x);
            if i < entries.len() {
                assert(entries[i] == more[i]);
            }
        }
        if exact_entries(entries).contains(x) {
            let i = choose|i: int|
                0 <= i < entries.len() && allow_entry(#[trigger] entries[i]) == AllowEntry::Exact(x);
            assert(more[i] == entries[i]);
        }
        assert(more[entries.len() as int] == t);
    }
    assert(exact_entries(more) =~= target);
}

// ---- URLs ----

/// A URL, as its text and the parts that the rules read.
pub struct Target {
    pub href: String,
    pub scheme: String,
    pub host: Option<String>,
    /// The port, or the default one of the scheme.
    pub port: Option<u16>,
    /// The origin of an `http` or `https` URL in text: scheme, host, and the port where it is
    /// not the default one. Empty for another scheme.
    pub origin: String,
}

/// What a URL says.
pub struct TargetView {
    pub href: Text,
    pub scheme: Text,
    pub host: Option<Text>,
    pub port: Option<u16>,
    pub origin: Text,
}

impl Target {
    /// What the URL says.
    pub open spec fn view(self) -> TargetView {
        TargetView {
            href: self.href@,
            scheme: self.scheme@,
            host: opt_text(self.host),
            port: self.port,
            origin: self.origin@,
        }
    }

    /// Whether the scheme is `http` or `https`.
    fn is_web(&self) -> (r: bool)
        ensures
            r == web_scheme(self@),
    {
        web_name(self.scheme.as_str())
    }
}

/// Whether a scheme is `http` or `https`.
pub open spec fn is_web_name(scheme: Text) -> bool {
    scheme == "http"@ || scheme == "https"@
}

/// Whether the scheme is `http` or `https`.
pub open spec fn web_scheme(t: TargetView) -> bool {
    is_web_name(t.scheme)
}

/// What an optional URL says.
pub open spec fn opt_target(o: Option<Target>) -> Option<TargetView> {
    match o {
        Some(t) => Some(t@),
        None => None,
    }
}

/// Whether a scheme is `http` or `https`.
fn web_name(scheme: &str) -> (r: bool)
    ensures
        r == is_web_name(scheme@),
{
    str_eq(scheme, "http") || str_eq(scheme, "https")
}

/// The parts of a URL as it was read.
struct UrlParts {
    href: String,
    scheme: String,
    host: Option<String>,
    port: Option<u16>,
}

/// What the parts of a URL say.
pub struct UrlView {
    pub href: Text,
    pub scheme: Text,
    pub host: Option<Text>,
    pub port: Option<u16>,
}

/// What the parts of an optional URL say.
spec fn opt_parts(o: Option<UrlParts>) -> Option<UrlView> {
    match o {
        Some(u) => Some(
            UrlView { href: u.href@, scheme: u.scheme@, host: opt_text(u.host), port: u.port },
        ),
        None => None,
    }
}

/// The URL that a text denotes, relative to a base where there is one, for the parser of
/// `reqwest::Url`.
pub uninterp spec fn located_url(base: Option<Seq<char>>, text: Seq<char>) -> Option<UrlView>;

/// A text in Unicode upper case, for `str::to_uppercase`.
pub uninterp spec fn uppercase(text: Seq<char>) -> Seq<char>;

/// The default port of `http` or `https`.
pub open spec fn default_port(scheme: Text) -> u16 {
    if scheme == "https"@ {
        443
    } else {
        80
    }
}

/// The origin of an `http` or `https` URL in text: scheme, host, and the port where it is not
/// the default one of the scheme.
pub open spec fn origin_text(u: UrlView) -> Text {
    let site = u.scheme + "://"@ + u.host->0;
    if u.port == Some(default_port(u.scheme)) {
        site
    } else {
        site + ":"@ + decimal(u.port->0 as nat)
    }
}

/// `reqwest::Url::parse`, or `reqwest::Url::join` on the URL of a base where there is one: both
/// are the parser of `reqwest::Url::options`. Of the result `as_str`, `scheme`, `host_str` and
/// `port_or_known_default`.
#[verifier::external_body]
fn read_url(base: Option<&str>, text: &str) -> (r: Option<UrlParts>)
    ensures
        opt_parts(r) == located_url(opt_str(base), text@),
{
    let base = base.map(reqwest::Url::parse).transpose().ok()?;
    let u = reqwest::Url::options().base_url(base.as_ref()).parse(text).ok()?;
    Some(UrlParts {
        href: u.as_str().to_string(),
        scheme: u.scheme().to_string(),
        host: u.host_str().map(|h| h.to_string()),
        port: u.port_or_known_default(),
    })
}

/// `reqwest::Url::origin` of the same URL, which must have the scheme `http` or `https`, and its
/// `ascii_serialization`: scheme, host, and the port where it is not the default one.
#[verifier::external_body]
fn read_origin(base: Option<&str>, text: &str) -> (r: String)
    requires
        located_url(opt_str(base), text@) is Some,
        is_web_name(located_url(opt_str(base), text@)->0.scheme),
    ensures
        r@ == origin_text(located_url(opt_str(base), text@)->0),
{
    let base = base.map(reqwest::Url::parse).transpose().unwrap();
    let u = reqwest::Url::options().base_url(base.as_ref()).parse(text).unwrap();
    u.origin().ascii_serialization()
}

/// A URL with its origin.
pub open spec fn with_origin(u: UrlView) -> TargetView {
    TargetView {
        href: u.href,
        scheme: u.scheme,
        host: u.host,
        port: u.port,
        origin: if is_web_name(u.scheme) {
            origin_text(u)
        } else {
            Seq::empty()
        },
    }
}

/// The URL that a text denotes, relative to a base where there is one.
pub open spec fn read_target(base: Option<Text>, text: Text) -> Option<TargetView> {
    match located_url(base, text) {
        Some(u) => Some(with_origin(u)),
        None => None,
    }
}

/// Reads a URL. An origin is taken of an `http` or `https` URL only.
fn locate(base: Option<&str>, text: &str) -> (r: Option<Target>)
    ensures
        opt_target(r) == read_target(opt_str(base), text@),
{
    let UrlParts { href, scheme, host, port } = match read_url(base, text) {
        Some(u) => u,
        None => {
            return None;
        },
    };
    let origin = if web_name(scheme.as_str()) {
        read_origin(base, text)
    } else {
        String::new()
    };
    proof {
        reveal_strlit("");
        assert(!is_web_name(scheme@) ==> origin@ =~= Seq::<char>::empty());
    }
    Some(Target { href, scheme, host, port, origin })
}

/// `str::to_uppercase`.
#[verifier::external_body]
fn to_upper(s: &str) -> (r: String)
    ensures
        r@ == uppercase(s@),
{
    s.to_uppercase()
}

// ---- methods and headers ----

/// The characters of a method or a header name.
pub open spec fn is_token_char(c: char) -> bool {
    ||| '0' <= c <= '9'
    ||| 'A' <= c <= 'Z'
    ||| 'a' <= c <= 'z'
    ||| c == '!' || c == '#' || c == '$' || c == '%' || c == '&' || c == '\'' || c == '*' || c == '+'
        || c == '-' || c == '.' || c == '^' || c == '_' || c == '`' || c == '|' || c == '~'
}

/// A method: one or more token characters.
pub open spec fn is_method(t: Text) -> bool {
    t.len() > 0 && forall|i: int| 0 <= i < t.len() ==> is_token_char(#[trigger] t[i])
}

/// A header name: 1 to 65535 token characters.
pub open spec fn is_header_name(t: Text) -> bool {
    1 <= t.len() <= 65535 && forall|i: int| 0 <= i < t.len() ==> is_token_char(#[trigger] t[i])
}

/// A header value: no control characters but the tab.
pub open spec fn is_header_value(t: Text) -> bool {
    forall|i: int| 0 <= i < t.len() ==> #[trigger] t[i] == '\t' || (t[i] >= ' ' && t[i] != '\u{7f}')
}

/// `reqwest::Method::from_bytes`: the method with that text, which keeps its case, if the text
/// is a method.
#[verifier::external_body]
fn read_method(text: &str) -> (r: Option<String>)
    ensures
        r is Some <==> is_method(text@),
        r matches Some(m) ==> m@ == text@,
{
    reqwest::Method::from_bytes(text.as_bytes()).ok().map(|m| m.as_str().to_string())
}

/// `reqwest::header::HeaderName::from_bytes`: the name in lower case, if the text is a header
/// name.
#[verifier::external_body]
fn read_header_name(text: &str) -> (r: Option<String>)
    ensures
        r is Some <==> is_header_name(text@),
        r matches Some(n) ==> n@ == lower(text@),
{
    reqwest::header::HeaderName::from_bytes(text.as_bytes()).ok().map(|n| n.as_str().to_string())
}

/// `reqwest::header::HeaderValue::from_str`: whether the text is a header value.
#[verifier::external_body]
fn header_value_ok(text: &str) -> (r: bool)
    ensures
        r == is_header_value(text@),
{
    reqwest::header::HeaderValue::from_str(text).is_ok()
}

/// `reqwest::header::HeaderMap`, held without a look inside.
#[verifier::external_type_specification]
#[verifier::external_body]
#[verifier::reject_recursive_types(T)]
pub struct ExHeaderMap<T>(reqwest::header::HeaderMap<T>);

/// `reqwest::header::HeaderValue`, held without a look inside.
#[verifier::external_type_specification]
#[verifier::external_body]
pub struct ExHeaderValue(reqwest::header::HeaderValue);

/// What a header map holds: for each name, in lower case, the bytes of its first value.
pub uninterp spec fn header_fields(h: reqwest::header::HeaderMap) -> Map<Seq<char>, Seq<u8>>;

/// No header at all.
pub open spec fn no_fields() -> Map<Text, Seq<u8>> {
    Map::empty()
}

/// The number of names up to which a header map takes every header.
pub const HEADER_ROOM: usize = 6553;

/// `reqwest::header::HeaderMap::new`: an empty map.
#[verifier::external_body]
fn new_headers() -> (r: reqwest::header::HeaderMap)
    ensures
        header_fields(r) == no_fields(),
{
    reqwest::header::HeaderMap::new()
}

/// `reqwest::header::HeaderMap::try_insert`: the value stands under the name in place of what
/// was there. A map that is full is left as it is; one with at most [`HEADER_ROOM`] names is
/// never full.
#[verifier::external_body]
fn put_header(h: &mut reqwest::header::HeaderMap, name: &str, value: &str) -> (r: bool)
    requires
        is_header_name(name@),
        is_header_value(value@),
    ensures
        r ==> header_fields(*final(h)) == header_fields(*old(h)).insert(
            lower(name@),
            vstd::utf8::encode_utf8(value@),
        ),
        !r ==> header_fields(*final(h)) == header_fields(*old(h)),
        header_fields(*old(h)).dom().finite() && header_fields(*old(h)).len() <= HEADER_ROOM ==> r,
{
    let name = reqwest::header::HeaderName::from_bytes(name.as_bytes()).unwrap();
    let value = reqwest::header::HeaderValue::from_str(value).unwrap();
    h.try_insert(name, value).is_ok()
}

/// `reqwest::header::HeaderMap::remove`: the name and all its values are taken out.
#[verifier::external_body]
fn drop_header(h: &mut reqwest::header::HeaderMap, name: &str)
    requires
        is_header_name(name@),
        name@.len() <= 64,
    ensures
        header_fields(*final(h)) == header_fields(*old(h)).remove(lower(name@)),
{
    h.remove(name);
}

/// The entries of a request's `headers` object.
pub open spec fn header_entries(v: Seq<(String, Json)>) -> Seq<(Text, JsonView)> {
    v.map_values(|e: (String, Json)| (e.0@, e.1@))
}

/// The headers that are passed on: those whose value is a string and whose name and value are
/// well formed, by lower-case name, without `host` and `content-length`. Of two entries with
/// one name the later one counts.
pub open spec fn forwarded_headers(h: Seq<(Text, JsonView)>) -> Map<Text, Seq<u8>>
    decreases h.len(),
{
    if h.len() == 0 {
        Map::empty()
    } else {
        let front = forwarded_headers(h.drop_last());
        let name = h.last().0;
        match str_value(h.last().1) {
            Some(value) => if is_header_name(name) && is_header_value(value) && lower(name)
                != "host"@ && lower(name) != "content-length"@ {
                front.insert(lower(name), vstd::utf8::encode_utf8(value))
            } else {
                front
            },
            None => front,
        }
    }
}

/// The headers are finitely many, and those of the first entries are no more than those of all.
proof fn lemma_forwarded_len(h: Seq<(Text, JsonView)>, n: int)
    requires
        0 <= n <= h.len(),
    ensures
        forwarded_headers(h).dom().finite(),
        forwarded_headers(h.take(n)).dom().finite(),
        forwarded_headers(h.take(n)).len() <= forwarded_headers(h).len(),
    decreases h.len(),
{
    if h.len() > 0 {
        if n == h.len() {
            lemma_forwarded_len(h.drop_last(), n - 1);
            assert(h.take(n) =~= h);
        } else {
            lemma_forwarded_len(h.drop_last(), n);
            assert(h.take(n) =~= h.drop_last().take(n));
        }
    } else {
        assert(h.take(n) =~= h);
    }
}

/// Collects the headers that are passed on. `None` where they do not fit a header map, which
/// takes more than [`HEADER_ROOM`] names.
fn collect_headers(h: &Vec<(String, Json)>) -> (r: Option<reqwest::header::HeaderMap>)
    ensures
        r matches Some(m) ==> header_fields(m) == forwarded_headers(header_entries(h@)),
        r is None ==> forwarded_headers(header_entries(h@)).dom().len() > HEADER_ROOM,
{
    let mut out = new_headers();
    let ghost all = header_entries(h@);
    assert(all.take(0) =~= Seq::<(Text, JsonView)>::empty());
    for i in 0..h.len()
        invariant
            all == header_entries(h@),
            header_fields(out) == forwarded_headers(all.take(i as int)),
    {
        assert(all.take(i as int + 1).drop_last() =~= all.take(i as int));
        assert(all[i as int] == (h@[i as int].0@, h@[i as int].1@));
        proof {
            lemma_forwarded_len(all, i as int);
        }
        if let Some(value) = h[i].1.as_str() {
            if let (Some(name), true) = (read_header_name(h[i].0.as_str()), header_value_ok(value)) {
                if !str_eq(name.as_str(), "host") && !str_eq(name.as_str(), "content-length") {
                    if !put_header(&mut out, h[i].0.as_str(), value) {
                        return None;
                    }
                }
            }
        }
    }
    assert(all.take(all.len() as int) =~= all);
    Some(out)
}

/// A byte that `HeaderValue::to_str` shows: a visible one, a space or a tab.
pub open spec fn is_visible(b: u8) -> bool {
    32 <= b < 127 || b == 9
}

/// The text of a header value: `None` where a byte is not visible.
pub open spec fn visible_text(b: Seq<u8>) -> Option<Text> {
    if forall|i: int| 0 <= i < b.len() ==> is_visible(#[trigger] b[i]) {
        Some(b.map_values(|x: u8| x as char))
    } else {
        None
    }
}

/// Reads the text of a header value.
pub fn header_text(b: &Vec<u8>) -> (r: Option<String>)
    ensures
        opt_text(r) == visible_text(b@),
        r is Some <==> (forall|i: int|
            0 <= i < b@.len() ==> 0x20 <= #[trigger] b@[i] <= 0x7e || b@[i] == 0x09),
        r matches Some(t) ==> t@.len() == b@.len() && (forall|i: int|
            0 <= i < b@.len() ==> (#[trigger] t@[i]) as int == b@[i] as int),
{
    let mut out = String::new();
    for i in 0..b.len()
        invariant
            out@ == b@.take(i as int).map_values(|x: u8| x as char),
            forall|j: int| 0 <= j < i ==> is_visible(#[trigger] b@[j]),
    {
        let x: u8 = b[i];
        if !(32 <= x && x < 127) && x != 9 {
            assert(!is_visible(b@[i as int]));
            assert(!(0x20 <= b@[i as int] <= 0x7e || b@[i as int] == 0x09));
            return None;
        }
        out.push(x as char);
        assert(b@.take(i as int + 1).map_values(|x: u8| x as char) =~= b@.take(i as int).map_values(
            |x: u8| x as char,
        ).push(x as char));
    }
    assert(b@.take(b@.len() as int) =~= b@);
    Some(out)
}

/// The headers of a response.
pub open spec fn raw_headers(v: Seq<(String, Vec<u8>)>) -> Seq<(Text, Seq<u8>)> {
    v.map_values(|e: (String, Vec<u8>)| (e.0@, e.1@))
}

/// The members of the `headers` object of a reply: every header whose value is visible text.
/// Of several headers with one name the last one counts.
pub open spec fn reply_headers(h: Seq<(Text, Seq<u8>)>) -> Map<Text, JsonView>
    decreases h.len(),
{
    if h.len() == 0 {
        Map::empty()
    } else {
        let front = reply_headers(h.drop_last());
        match visible_text(h.last().1) {
            Some(t) => front.insert(h.last().0, JsonView::Str(t)),
            None => front,
        }
    }
}

/// The `headers` object of a reply.
pub fn header_map_to_json(headers: &Vec<(String, Vec<u8>)>) -> (r: Json)
    ensures
        r@ == JsonView::Object(reply_headers(raw_headers(headers@))),
{
    let mut out: Vec<(String, Json)> = Vec::new();
    let ghost all = raw_headers(headers@);
    assert(all.take(0) =~= Seq::<(Text, Seq<u8>)>::empty());
    for i in 0..headers.len()
        invariant
            all == raw_headers(headers@),
            object_view(out@) == reply_headers(all.take(i as int)),
    {
        assert(all.take(i as int + 1).drop_last() =~= all.take(i as int));
        assert(all[i as int] == (headers@[i as int].0@, headers@[i as int].1@));
        if let Some(t) = header_text(&headers[i].1) {
            put(&mut out, headers[i].0.as_str(), Json::Str(t));
        }
    }
    assert(all.take(all.len() as int) =~= all);
    Json::Object(out)
}

/// The first header with a name.
pub open spec fn first_header(h: Seq<(Text, Seq<u8>)>, name: Text) -> Option<Seq<u8>>
    decreases h.len(),
{
    if h.len() == 0 {
        None
    } else if h[0].0 == name {
        Some(h[0].1)
    } else {
        first_header(h.drop_first(), name)
    }
}

/// The text of the first `location` header.
pub open spec fn location_of(h: Seq<(Text, Seq<u8>)>) -> Option<Text> {
    match first_header(h, "location"@) {
        Some(b) => visible_text(b),
        None => None,
    }
}

/// Reads the text of the first `location` header.
fn read_location(headers: &Vec<(String, Vec<u8>)>) -> (r: Option<String>)
    ensures
        opt_text(r) == location_of(raw_headers(headers@)),
{
    let ghost all = raw_headers(headers@);
    assert(all.skip(0) =~= all);
    for i in 0..headers.len()
        invariant
            all == raw_headers(headers@),
            first_header(all, "location"@) == first_header(all.skip(i as int), "location"@),
    {
        assert(all[i as int] == (headers@[i as int].0@, headers@[i as int].1@));
        if str_eq(headers[i].0.as_str(), "location") {
            return header_text(&headers[i].1);
        }
        assert(all.skip(i as int).drop_first() =~= all.skip(i as int + 1));
    }
    None
}

// ---- the request ----

/// The body of a proxy call: `{url, method?, headers?, body?, binary?}`.
pub struct ProxyReq {
    pub url: Option<String>,
    pub method: Option<String>,
    /// The members of the `headers` object, in its order.
    pub headers: Option<Vec<(String, Json)>>,
    pub body: Option<String>,
    pub binary: Option<bool>,
}

/// What a proxy call says.
pub struct ProxyReqView {
    pub url: Option<Text>,
    pub method: Option<Text>,
    pub headers: Option<Seq<(Text, JsonView)>>,
    pub body: Option<Text>,
    pub binary: Option<bool>,
}

impl ProxyReq {
    /// What the call says.
    pub open spec fn view(self) -> ProxyReqView {
        ProxyReqView {
            url: opt_text(self.url),
            method: opt_text(self.method),
            headers: match self.headers {
                Some(h) => Some(header_entries(h@)),
                None => None,
            },
            body: opt_text(self.body),
            binary: self.binary,
        }
    }
}

/// A request on its way out.
pub struct Outgoing {
    pub target: Target,
    pub method: String,
    pub headers: reqwest::header::HeaderMap,
    pub body: Option<Vec<u8>>,
    /// The origin of the first URL.
    pub origin: String,
    /// The redirects followed so far.
    pub hops: usize,
}

/// What an outgoing request says.
pub struct OutgoingView {
    pub target: TargetView,
    pub method: Text,
    pub headers: Map<Text, Seq<u8>>,
    pub body: Option<Seq<u8>>,
    pub origin: Text,
    pub hops: nat,
}

/// The bytes of an optional body.
pub open spec fn opt_bytes(o: Option<Vec<u8>>) -> Option<Seq<u8>> {
    match o {
        Some(b) => Some(b@),
        None => None,
    }
}

impl Outgoing {
    /// What the request says.
    pub open spec fn view(self) -> OutgoingView {
        OutgoingView {
            target: self.target@,
            method: self.method@,
            headers: header_fields(self.headers),
            body: opt_bytes(self.body),
            origin: self.origin@,
            hops: self.hops as nat,
        }
    }
}

/// The URL of a call, once it is admitted: the proxy is not disabled, the URL is given and not
/// empty, it is well formed, its scheme is `http` or `https`, and in mode `Allowlist` its host
/// is listed.
pub open spec fn admitted_url(
    cfg: ConfigView,
    url: Option<Text>,
    parsed: Option<TargetView>,
) -> Result<TargetView, FailureView> {
    if cfg.mode == ProxyMode::Disabled {
        Err(failure(403, "proxy disabled"@))
    } else if url is None || url->0.len() == 0 {
        Err(failure(400, "url required"@))
    } else {
        match parsed {
            None => Err(failure(400, "invalid url"@)),
            Some(t) => if !web_scheme(t) {
                Err(failure(400, "unsupported url scheme"@))
            } else if cfg.mode == ProxyMode::Allowlist && !cfg.hosts.contains(host_or_empty(t)) {
                Err(failure(403, "host not allowlisted"@))
            } else {
                Ok(t)
            },
        }
    }
}

/// The host of a URL, empty where it has none.
pub open spec fn host_or_empty(t: TargetView) -> Text {
    match t.host {
        Some(h) => h,
        None => Seq::empty(),
    }
}

/// The method of a call, already in upper case: `GET` where it is no method.
pub open spec fn method_or_get(upper: Text) -> Text {
    if is_method(upper) {
        upper
    } else {
        "GET"@
    }
}

/// The body of a call: base64 where it is marked binary, and the text itself otherwise.
pub open spec fn request_body(
    body: Option<Text>,
    binary: Option<bool>,
) -> Result<Option<Seq<u8>>, FailureView> {
    match body {
        None => Ok(None),
        Some(t) => if binary == Some(true) {
            match b64_decoded(t) {
                Some(b) => Ok(Some(b)),
                None => Err(failure(400, "invalid base64 body"@)),
            }
        } else {
            Ok(Some(vstd::utf8::encode_utf8(t)))
        },
    }
}

/// The request that a call asks for, given its URL as parsed and its method in upper case.
pub open spec fn first_request(
    cfg: ConfigView,
    req: ProxyReqView,
    parsed: Option<TargetView>,
    upper: Text,
) -> Result<OutgoingView, FailureView> {
    match admitted_url(cfg, req.url, parsed) {
        Err(f) => Err(f),
        Ok(target) => match request_body(req.body, req.binary) {
            Err(f) => Err(f),
            Ok(body) => Ok(
                OutgoingView {
                    target,
                    method: method_or_get(upper),
                    headers: match req.headers {
                        Some(h) => forwarded_headers(h),
                        None => Map::empty(),
                    },
                    body,
                    origin: target.origin,
                    hops: 0,
                },
            ),
        },
    }
}

/// What a planned request says.
pub open spec fn planned(r: Result<Outgoing, Failure>) -> Result<OutgoingView, FailureView> {
    match r {
        Ok(o) => Ok(o@),
        Err(f) => Err(f@),
    }
}

/// The URL text of a call, empty where it has none.
pub open spec fn url_text(req: ProxyReqView) -> Text {
    match req.url {
        Some(u) => u,
        None => Seq::empty(),
    }
}

/// The method text of a call, `GET` where it has none.
pub open spec fn method_text(req: ProxyReqView) -> Text {
    match req.method {
        Some(m) => m,
        None => "GET"@,
    }
}

/// Checks the URL of a call.
fn admit_url(cfg: &ProxyConfig, url: &Option<String>, parsed: Option<Target>) -> (r: Result<
    Target,
    Failure,
>)
    ensures
        admitted_url(cfg@, opt_text(*url), opt_target(parsed)) == (match r {
            Ok(t) => Ok::<TargetView, FailureView>(t@),
            Err(f) => Err::<TargetView, FailureView>(f@),
        }),
{
    if cfg.mode == ProxyMode::Disabled {
        return Err(fail(403, "proxy disabled"));
    }
    let given = match url {
        Some(u) => !u.as_str().is_empty(),
        None => false,
    };
    if !given {
        return Err(fail(400, "url required"));
    }
    match parsed {
        None => Err(fail(400, "invalid url")),
        Some(t) => {
            if !t.is_web() {
                return Err(fail(400, "unsupported url scheme"));
            }
            if cfg.mode == ProxyMode::Allowlist {
                let listed = match &t.host {
                    Some(h) => in_list(&cfg.allowlist_hosts, h.as_str()),
                    None => {
                        proof {
                            reveal_strlit("");
                            assert(""@ =~= Seq::<char>::empty());
                        }
                        in_list(&cfg.allowlist_hosts, "")
                    },
                };
                if !listed {
                    return Err(fail(403, "host not allowlisted"));
                }
            }
            Ok(t)
        },
    }
}

/// Reads the body of a call.
fn read_body(body: &Option<String>, binary: Option<bool>) -> (r: Result<Option<Vec<u8>>, Failure>)
    ensures
        request_body(opt_text(*body), binary) == (match r {
            Ok(b) => Ok::<Option<Seq<u8>>, FailureView>(opt_bytes(b)),
            Err(f) => Err::<Option<Seq<u8>>, FailureView>(f@),
        }),
{
    match body {
        None => Ok(None),
        Some(t) => {
            let is_binary = match binary {
                Some(b) => b,
                None => false,
            };
            if is_binary {
                match decode(t.as_str()) {
                    Some(b) => Ok(Some(b)),
                    None => Err(fail(400, "invalid base64 body")),
                }
            } else {
                Ok(Some(bytes_of(t.as_str())))
            }
        },
    }
}

/// Whether more headers of a call would be passed on than a header map is sure to take.
pub open spec fn many_headers(req: ProxyReqView) -> bool {
    req.headers matches Some(h) && forwarded_headers(h).dom().len() > HEADER_ROOM
}

/// The answer to a call whose headers do not fit a header map.
pub open spec fn headers_refusal() -> FailureView {
    failure(400, "too many headers"@)
}

/// Plans the request that a call asks for, given its URL as parsed and its method in upper
/// case. Where more headers would be passed on than a header map is sure to take, it may be
/// refused for that.
pub fn plan_request(cfg: &ProxyConfig, req: &ProxyReq, parsed: Option<Target>, upper: &str) -> (r:
    Result<Outgoing, Failure>)
    ensures
        planned(r) == first_request(cfg@, req@, opt_target(parsed), upper@) || (many_headers(req@)
            && planned(r) == Err::<OutgoingView, FailureView>(headers_refusal())),
{
    let target = match admit_url(cfg, &req.url, parsed) {
        Ok(t) => t,
        Err(f) => {
            return Err(f);
        },
    };
    let method = match read_method(upper) {
        Some(m) => m,
        None => "GET".to_owned(),
    };
    let headers = match &req.headers {
        Some(h) => match collect_headers(h) {
            Some(m) => m,
            None => {
                return Err(fail(400, "too many headers"));
            },
        },
        None => new_headers(),
    };
    let body = match read_body(&req.body, req.binary) {
        Ok(b) => b,
        Err(f) => {
            return Err(f);
        },
    };
    let origin = target.origin.clone();
    Ok(Outgoing { target, method, headers, body, origin, hops: 0 })
}

// ---- redirects ----

/// The headers that go to a redirect's target: without `authorization` and `cookie` where its
/// origin is not the first one.
pub open spec fn redirect_headers(o: OutgoingView, next: TargetView) -> Map<Text, Seq<u8>> {
    if next.origin != o.origin {
        o.headers.remove("authorization"@).remove("cookie"@)
    } else {
        o.headers
    }
}

/// The method of a redirected request: `GET` after 303, and after 301 and 302 unless it was
/// `HEAD`.
pub open spec fn redirect_method(method: Text, status: u16) -> Text {
    if status == 303 || ((status == 301 || status == 302) && method != "HEAD"@) {
        "GET"@
    } else {
        method
    }
}

/// The request that follows a response, if the response is a redirect to follow: a status from
/// 300 to 399, fewer than [`MAX_REDIRECTS`] so far, and a location that denotes an `http` or
/// `https` URL.
pub open spec fn redirected(
    o: OutgoingView,
    status: u16,
    joined: Option<TargetView>,
) -> Option<OutgoingView> {
    match joined {
        Some(next) => if 300 <= status < 400 && o.hops < MAX_REDIRECTS && web_scheme(next) {
            Some(
                OutgoingView {
                    target: next,
                    method: redirect_method(o.method, status),
                    headers: redirect_headers(o, next),
                    body: o.body,
                    origin: o.origin,
                    hops: o.hops + 1,
                },
            )
        } else {
            None
        },
        None => None,
    }
}

/// The names of the credential headers are header names in lower case.
proof fn lemma_credential_names()
    ensures
        is_header_name("authorization"@) && "authorization"@.len() <= 64,
        is_header_name("cookie"@) && "cookie"@.len() <= 64,
        lower("authorization"@) == "authorization"@,
        lower("cookie"@) == "cookie"@,
{
    reveal_strlit("authorization");
    reveal_strlit("cookie");
    assert(lower("authorization"@) =~= "authorization"@);
    assert(lower("cookie"@) =~= "cookie"@);
}

/// Follows a redirect, or hands the request back.
fn follow(o: Outgoing, status: u16, joined: Option<Target>) -> (r: Result<Outgoing, Outgoing>)
    ensures
        match r {
            Ok(next) => redirected(o@, status, opt_target(joined)) == Some(next@),
            Err(same) => redirected(o@, status, opt_target(joined)) is None && same@ == o@,
        },
{
    let next = match joined {
        Some(t) => t,
        None => {
            return Err(o);
        },
    };
    if !(300 <= status && status < 400 && o.hops < MAX_REDIRECTS && next.is_web()) {
        return Err(o);
    }
    let Outgoing { target: _, method, mut headers, body, origin, hops } = o;
    if !str_eq(next.origin.as_str(), origin.as_str()) {
        proof {
            lemma_credential_names();
        }
        drop_header(&mut headers, "authorization");
        drop_header(&mut headers, "cookie");
    }
    let method = if status == 303 || ((status == 301 || status == 302) && !str_eq(
        method.as_str(),
        "HEAD",
    )) {
        "GET".to_owned()
    } else {
        method
    };
    Ok(Outgoing { target: next, method, headers, body, origin, hops: hops + 1 })
}

// ---- the response body ----

/// A response body on its way in, encoded as it comes: at most two bytes wait for their group.
pub struct BodyStream {
    text: String,
    carry: Vec<u8>,
    total: u64,
    received: Ghost<Seq<u8>>,
}

impl BodyStream {
    /// The bytes received so far.
    pub closed spec fn view(self) -> Seq<u8> {
        self.received@
    }

    #[verifier::type_invariant]
    spec fn inv(self) -> bool {
        let n = self.received@.len() - self.carry@.len();
        &&& n >= 0
        &&& n % 3 == 0
        &&& self.carry@.len() < 3
        &&& self.carry@ == self.received@.skip(n)
        &&& self.text@ == b64(self.received@.take(n))
        &&& self.total == self.received@.len()
        &&& self.total <= MAX_RESPONSE_BYTES
    }

    /// An empty body.
    pub fn new() -> (r: Self)
        ensures
            r@ == Seq::<u8>::empty(),
    {
        let received: Ghost<Seq<u8>> = Ghost(Seq::empty());
        let text = String::new();
        let carry: Vec<u8> = Vec::new();
        proof {
            assert(received@.skip(0) =~= carry@);
            assert(received@.take(0) =~= Seq::<u8>::empty());
            reveal_strlit("");
            assert(text@ =~= b64(received@.take(0)));
        }
        BodyStream { text, carry, total: 0, received }
    }

    /// Takes in a chunk. A body that grows over [`MAX_RESPONSE_BYTES`] is refused.
    pub fn push(self, chunk: &Vec<u8>) -> (r: Result<Self, Failure>)
        ensures
            match r {
                Ok(s) => self@.len() + chunk@.len() <= MAX_RESPONSE_BYTES && s@ == self@ + chunk@,
                Err(f) => self@.len() + chunk@.len() > MAX_RESPONSE_BYTES && f@ == failure(
                    502,
                    "response too large"@,
                ),
            },
    {
        proof {
            use_type_invariant(&self);
        }
        let ghost before = self.received@;
        let ghost done = before.len() - self.carry@.len();
        let size = chunk.len() as u64;
        if size > MAX_RESPONSE_BYTES - self.total {
            return Err(fail(502, "response too large"));
        }
        let total: u64 = self.total + size;
        let mut text = self.text;
        let mut waiting = self.carry;
        let ghost carried = waiting@;
        for i in 0..chunk.len()
            invariant
                waiting@ == carried + chunk@.take(i as int),
        {
            waiting.push(chunk[i]);
            assert(chunk@.take(i as int + 1) =~= chunk@.take(i as int).push(chunk@[i as int]));
        }
        assert(chunk@.take(chunk@.len() as int) =~= chunk@);
        let ghost after = before + chunk@;
        assert(waiting@ =~= after.skip(done));
        let n: usize = waiting.len() / 3 * 3;
        let ghost all = waiting@;
        let carry = waiting.split_off(n);
        let ghost old_text = text@;
        if n > 0 {
            let more = encode_groups(&waiting);
            crate::text::append(&mut text, more.as_str());
        }
        proof {
            assert(waiting@ =~= all.take(n as int));
            assert(carry@ =~= all.skip(n as int));
            assert(n == 0 ==> b64(waiting@) =~= Seq::<char>::empty());
            assert(text@ =~= old_text + b64(waiting@));
            lemma_b64_concat(before.take(done), waiting@);
            let m = after.len() - carry@.len();
            assert(after.take(m) =~= before.take(done) + waiting@);
            assert(carry@ =~= after.skip(m));
        }
        Ok(BodyStream { text, carry, total, received: Ghost(after) })
    }

    /// The base64 text of the whole body.
    pub fn finish(self) -> (r: String)
        ensures
            r@ == b64(self@),
    {
        proof {
            use_type_invariant(&self);
        }
        let ghost all = self.received@;
        let ghost n = all.len() - self.carry@.len();
        let mut text = self.text;
        let carry = self.carry;
        proof {
            lemma_b64_concat(all.take(n), carry@);
            assert(all.take(n) + carry@ =~= all);
        }
        let ghost old_text = text@;
        if carry.len() > 0 {
            let rest = encode(&carry);
            crate::text::append(&mut text, rest.as_str());
        }
        assert(text@ =~= old_text + b64(carry@));
        text
    }
}

// ---- the machine ----

/// How far a proxy call has come.
pub enum ProxyState {
    /// The addresses of the request's host are awaited.
    Resolving(Outgoing),
    /// The response to the request is awaited.
    Sending(Outgoing),
    /// The body of the response is awaited.
    Reading { status: u16, headers: Json, body: BodyStream },
    /// The call is answered.
    Done,
}

/// What happened.
pub enum ProxyEvent {
    Addresses(Vec<IpAddress>),
    LookupFailed,
    Response { status: u16, headers: Vec<(String, Vec<u8>)> },
    SendFailed,
    Chunk(Vec<u8>),
    BodyFailed,
    BodyEnd,
}

/// What to do next.
pub enum ProxyAction {
    /// Look up the addresses of a host and port.
    Lookup { host: String, port: u16 },
    /// Send the request of the state.
    Send,
    /// Read on in the body.
    Read,
    /// Answer with this body.
    Reply(Json),
    /// Answer with this failure.
    Fail(Failure),
    /// Nothing: the event does not belong to the state.
    Nothing,
}

/// What a state says.
pub enum StateView {
    Resolving(OutgoingView),
    Sending(OutgoingView),
    Reading(u16, JsonView, Seq<u8>),
    Done,
}

/// What an event says.
pub enum EventView {
    Addresses(Seq<IpView>),
    LookupFailed,
    Response(u16, Seq<(Text, Seq<u8>)>),
    SendFailed,
    Chunk(Seq<u8>),
    BodyFailed,
    BodyEnd,
}

/// What an action says.
pub enum ActionView {
    Lookup(Text, u16),
    Send,
    Read,
    Reply(JsonView),
    Fail(FailureView),
    Nothing,
}

impl ProxyState {
    /// What the state says.
    pub open spec fn view(self) -> StateView {
        match self {
            ProxyState::Resolving(o) => StateView::Resolving(o@),
            ProxyState::Sending(o) => StateView::Sending(o@),
            ProxyState::Reading { status, headers, body } => StateView::Reading(
                status,
                headers@,
                body@,
            ),
            ProxyState::Done => StateView::Done,
        }
    }
}

impl ProxyEvent {
    /// What the event says.
    pub open spec fn view(self) -> EventView {
        match self {
            ProxyEvent::Addresses(a) => EventView::Addresses(ip_views(a@)),
            ProxyEvent::LookupFailed => EventView::LookupFailed,
            ProxyEvent::Response { status, headers } => EventView::Response(
                status,
                raw_headers(headers@),
            ),
            ProxyEvent::SendFailed => EventView::SendFailed,
            ProxyEvent::Chunk(c) => EventView::Chunk(c@),
            ProxyEvent::BodyFailed => EventView::BodyFailed,
            ProxyEvent::BodyEnd => EventView::BodyEnd,
        }
    }
}

impl ProxyAction {
    /// What the action says.
    pub open spec fn view(self) -> ActionView {
        match self {
            ProxyAction::Lookup { host, port } => ActionView::Lookup(host@, port),
            ProxyAction::Send => ActionView::Send,
            ProxyAction::Read => ActionView::Read,
            ProxyAction::Reply(j) => ActionView::Reply(j@),
            ProxyAction::Fail(f) => ActionView::Fail(f@),
            ProxyAction::Nothing => ActionView::Nothing,
        }
    }
}

/// A request is about to go out: its host is looked up first.
pub open spec fn entered(o: OutgoingView) -> (StateView, ActionView) {
    match o.target.host {
        Some(h) => (
            StateView::Resolving(o),
            ActionView::Lookup(
                h,
                match o.target.port {
                    Some(p) => p,
                    None => 80,
                },
            ),
        ),
        None => refused(400, "invalid url host"@),
    }
}

/// The call is answered with a failure.
pub open spec fn refused(status: u16, message: Text) -> (StateView, ActionView) {
    (StateView::Done, ActionView::Fail(failure(status, message)))
}

/// The check of the addresses that a host resolved to: each must be allowed, and there must be
/// one.
pub open spec fn address_check(cfg: ConfigView, addrs: Seq<IpView>) -> Result<(), FailureView> {
    if exists|i: int| 0 <= i < addrs.len() && !address_allowed(cfg, #[trigger] addrs[i]) {
        Err(failure(403, "address not allowed"@))
    } else if addrs.len() == 0 {
        Err(failure(502, "no addresses resolved"@))
    } else {
        Ok(())
    }
}

/// The reply to a call: `{status, headers, body}` with the body in base64.
pub open spec fn envelope(status: u16, headers: JsonView, body: Seq<u8>) -> JsonView {
    JsonView::Object(
        Map::<Text, JsonView>::empty().insert("status"@, JsonView::Int(status as int)).insert(
            "headers"@,
            headers,
        ).insert("body"@, JsonView::Str(b64(body))),
    )
}

/// The URL that the location of a response denotes, where the response is one to a request.
pub open spec fn redirect_target(s: StateView, e: EventView) -> Option<TargetView> {
    match (s, e) {
        (StateView::Sending(o), EventView::Response(_, h)) => match location_of(h) {
            Some(l) => read_target(Some(o.target.href), l),
            None => None,
        },
        _ => None,
    }
}

/// One step of a call, given the URL that the location of the response denotes.
pub open spec fn stepped(
    cfg: ConfigView,
    s: StateView,
    e: EventView,
    joined: Option<TargetView>,
) -> (StateView, ActionView) {
    match (s, e) {
        (StateView::Resolving(o), EventView::Addresses(a)) => match address_check(cfg, a) {
            Ok(()) => (StateView::Sending(o), ActionView::Send),
            Err(f) => (StateView::Done, ActionView::Fail(f)),
        },
        (StateView::Resolving(_), EventView::LookupFailed) => refused(502, "dns resolution failed"@),
        (StateView::Sending(o), EventView::Response(status, h)) => match redirected(
            o,
            status,
            joined,
        ) {
            Some(next) => entered(next),
            None => (
                StateView::Reading(status, JsonView::Object(reply_headers(h)), Seq::empty()),
                ActionView::Read,
            ),
        },
        (StateView::Sending(_), EventView::SendFailed) => refused(502, "upstream request failed"@),
        (StateView::Reading(status, headers, body), EventView::Chunk(c)) => if body.len() + c.len()
            > MAX_RESPONSE_BYTES {
            refused(502, "response too large"@)
        } else {
            (StateView::Reading(status, headers, body + c), ActionView::Read)
        },
        (StateView::Reading(_, _, _), EventView::BodyFailed) => refused(
            502,
            "upstream body error"@,
        ),
        (StateView::Reading(status, headers, body), EventView::BodyEnd) => (
            StateView::Done,
            ActionView::Reply(envelope(status, headers, body)),
        ),
        _ => (s, ActionView::Nothing),
    }
}

/// Puts a request on its way.
fn enter(o: Outgoing) -> (r: (ProxyState, ProxyAction))
    ensures
        (r.0@, r.1@) == entered(o@),
{
    let host = match &o.target.host {
        Some(h) => h.clone(),
        None => {
            return (ProxyState::Done, ProxyAction::Fail(fail(400, "invalid url host")));
        },
    };
    let port: u16 = match o.target.port {
        Some(p) => p,
        None => 80,
    };
    (ProxyState::Resolving(o), ProxyAction::Lookup { host, port })
}

/// Checks the addresses that a host resolved to.
pub fn addr_ok(cfg: &ProxyConfig, addrs: &Vec<IpAddress>) -> (r: Result<(), Failure>)
    ensures
        address_check(cfg@, ip_views(addrs@)) == (match r {
            Ok(()) => Ok::<(), FailureView>(()),
            Err(f) => Err::<(), FailureView>(f@),
        }),
{
    let ghost all = ip_views(addrs@);
    for i in 0..addrs.len()
        invariant
            all == ip_views(addrs@),
            forall|j: int| 0 <= j < i ==> address_allowed(cfg@, #[trigger] all[j]),
    {
        assert(all[i as int] == addrs@[i as int]@);
        if !cfg.addr_allowed(addrs[i]) {
            return Err(fail(403, "address not allowed"));
        }
    }
    if addrs.len() == 0 {
        return Err(fail(502, "no addresses resolved"));
    }
    Ok(())
}

/// The reply to a call.
fn reply(status: u16, headers: Json, body: BodyStream) -> (r: Json)
    ensures
        r@ == envelope(status, headers@, body@),
{
    let mut o: Vec<(String, Json)> = Vec::new();
    put(&mut o, "status", Json::Uint(status as u64));
    put(&mut o, "headers", headers);
    put(&mut o, "body", Json::Str(body.finish()));
    Json::Object(o)
}

/// A call is started: its first request is looked at, or it is refused. One that would pass on
/// more headers than a header map is sure to take may be refused for that.
pub open spec fn begun(
    req: ProxyReqView,
    first: Result<OutgoingView, FailureView>,
    r: (StateView, ActionView),
) -> bool {
    ||| r == (match first {
        Ok(o) => entered(o),
        Err(f) => (StateView::Done, ActionView::Fail(f)),
    })
    ||| many_headers(req) && r == (StateView::Done, ActionView::Fail(headers_refusal()))
}

/// Starts a call, given its URL as parsed and its method in upper case.
pub fn begin_with(cfg: &ProxyConfig, req: &ProxyReq, parsed: Option<Target>, upper: &str) -> (r: (
    ProxyState,
    ProxyAction,
))
    ensures
        begun(
            req@,
            first_request(cfg@, req@, opt_target(parsed), upper@),
            (r.0@, r.1@),
        ),
{
    match plan_request(cfg, req, parsed, upper) {
        Ok(o) => enter(o),
        Err(f) => (ProxyState::Done, ProxyAction::Fail(f)),
    }
}

/// Starts a call. Its URL is read only where the proxy is not disabled and the call has one.
pub fn begin(cfg: &ProxyConfig, req: &ProxyReq) -> (r: (ProxyState, ProxyAction))
    ensures
        begun(
            req@,
            first_request(
                cfg@,
                req@,
                read_target(None, url_text(req@)),
                uppercase(method_text(req@)),
            ),
            (r.0@, r.1@),
        ),
{
    let method = match &req.method {
        Some(m) => m.as_str(),
        None => "GET",
    };
    let parsed = match &req.url {
        Some(u) => if cfg.mode != ProxyMode::Disabled && !u.as_str().is_empty() {
            locate(None, u.as_str())
        } else {
            None
        },
        None => None,
    };
    let upper = to_upper(method);
    begin_with(cfg, req, parsed, upper.as_str())
}

/// Takes one step, given the URL that the location of the response denotes.
pub fn step_with(
    cfg: &ProxyConfig,
    state: ProxyState,
    event: ProxyEvent,
    joined: Option<Target>,
) -> (r: (ProxyState, ProxyAction))
    ensures
        (r.0@, r.1@) == stepped(cfg@, state@, event@, opt_target(joined)),
{
    match (state, event) {
        (ProxyState::Resolving(o), ProxyEvent::Addresses(a)) => match addr_ok(cfg, &a) {
            Ok(()) => (ProxyState::Sending(o), ProxyAction::Send),
            Err(f) => (ProxyState::Done, ProxyAction::Fail(f)),
        },
        (ProxyState::Resolving(_), ProxyEvent::LookupFailed) => (
            ProxyState::Done,
            ProxyAction::Fail(fail(502, "dns resolution failed")),
        ),
        (ProxyState::Sending(o), ProxyEvent::Response { status, headers }) => match follow(
            o,
            status,
            joined,
        ) {
            Ok(next) => enter(next),
            Err(_) => {
                let headers = header_map_to_json(&headers);
                (
                    ProxyState::Reading { status, headers, body: BodyStream::new() },
                    ProxyAction::Read,
                )
            },
        },
        (ProxyState::Sending(_), ProxyEvent::SendFailed) => (
            ProxyState::Done,
            ProxyAction::Fail(fail(502, "upstream request failed")),
        ),
        (ProxyState::Reading { status, headers, body }, ProxyEvent::Chunk(c)) => match body.push(
            &c,
        ) {
            Ok(body) => (ProxyState::Reading { status, headers, body }, ProxyAction::Read),
            Err(f) => (ProxyState::Done, ProxyAction::Fail(f)),
        },
        (ProxyState::Reading { .. }, ProxyEvent::BodyFailed) => (
            ProxyState::Done,
            ProxyAction::Fail(fail(502, "upstream body error")),
        ),
        (ProxyState::Reading { status, headers, body }, ProxyEvent::BodyEnd) => (
            ProxyState::Done,
            ProxyAction::Reply(reply(status, headers, body)),
        ),
        (s, _) => (s, ProxyAction::Nothing),
    }
}

/// Takes one step. The location of a response is read only where it is a redirect and fewer
/// than [`MAX_REDIRECTS`] were followed.
pub fn step(cfg: &ProxyConfig, state: ProxyState, event: ProxyEvent) -> (r: (
    ProxyState,
    ProxyAction,
))
    ensures
        (r.0@, r.1@) == stepped(cfg@, state@, event@, redirect_target(state@, event@)),
{
    let joined = match (&state, &event) {
        (ProxyState::Sending(o), ProxyEvent::Response { status, headers }) => if 300 <= *status
            && *status < 400 && o.hops < MAX_REDIRECTS {
            match read_location(headers) {
                Some(l) => locate(Some(o.target.href.as_str()), l.as_str()),
                None => None,
            }
        } else {
            None
        },
        _ => None,
    };
    step_with(cfg, state, event, joined)
}

// ---- laws ----

/// The request that a state holds.
pub open spec fn request_of(s: StateView) -> Option<OutgoingView> {
    match s {
        StateView::Resolving(o) => Some(o),
        StateView::Sending(o) => Some(o),
        _ => None,
    }
}

/// A request goes out only right after the addresses of its host were looked up, were some,
/// and were all allowed. This holds of the first request and of every redirect.
pub proof fn law_no_request_without_address_check(
    cfg: ConfigView,
    s: StateView,
    e: EventView,
    joined: Option<TargetView>,
)
    ensures
        stepped(cfg, s, e, joined).1 == ActionView::Send ==> (s matches StateView::Resolving(o) && e
            matches EventView::Addresses(a) && a.len() > 0 && (forall|i: int|
            0 <= i < a.len() ==> address_allowed(cfg, #[trigger] a[i])) && stepped(
            cfg,
            s,
            e,
            joined,
        ).0 == StateView::Sending(o)),
        stepped(cfg, s, e, joined).0 is Sending && stepped(cfg, s, e, joined).0 != s ==> stepped(
            cfg,
            s,
            e,
            joined,
        ).1 == ActionView::Send,
{
}

/// No more than [`MAX_REDIRECTS`] redirects are followed, and only to `http` and `https` URLs.
/// The first origin and the body stay as they were.
pub proof fn law_redirects_are_bounded(
    cfg: ConfigView,
    s: StateView,
    e: EventView,
    joined: Option<TargetView>,
)
    requires
        request_of(s) matches Some(o) ==> o.hops <= MAX_REDIRECTS && web_scheme(o.target),
    ensures
        request_of(stepped(cfg, s, e, joined).0) matches Some(o) ==> o.hops <= MAX_REDIRECTS
            && web_scheme(o.target),
        request_of(stepped(cfg, s, e, joined).0) matches Some(n) ==> request_of(s) matches Some(o)
            && n.origin == o.origin && n.body == o.body && o.hops <= n.hops <= o.hops + 1,
{
}

/// How many requests a state may still lead to.
pub open spec fn requests_left(s: StateView) -> int {
    match s {
        StateView::Resolving(o) => MAX_REDIRECTS - o.hops + 1,
        StateView::Sending(o) => MAX_REDIRECTS - o.hops,
        _ => 0,
    }
}

/// How many requests go out in a run of events, each with the URL that the location of its
/// response denotes.
pub open spec fn requests_sent(
    cfg: ConfigView,
    s: StateView,
    events: Seq<(EventView, Option<TargetView>)>,
) -> nat
    decreases events.len(),
{
    if events.len() == 0 {
        0
    } else {
        let (next, action) = stepped(cfg, s, events[0].0, events[0].1);
        (if action == ActionView::Send {
            1nat
        } else {
            0
        }) + requests_sent(cfg, next, events.drop_first())
    }
}

/// However the outside behaves, one call sends at most one request and one more for each of
/// [`MAX_REDIRECTS`] redirects.
pub proof fn law_requests_are_bounded(
    cfg: ConfigView,
    s: StateView,
    events: Seq<(EventView, Option<TargetView>)>,
)
    requires
        request_of(s) matches Some(o) ==> o.hops <= MAX_REDIRECTS,
    ensures
        requests_sent(cfg, s, events) <= requests_left(s),
        requests_left(s) <= MAX_REDIRECTS + 1,
    decreases events.len(),
{
    if events.len() > 0 {
        let next = stepped(cfg, s, events[0].0, events[0].1).0;
        law_requests_are_bounded(cfg, next, events.drop_first());
    }
}

/// Once a request has left the first origin, it carries neither `authorization` nor `cookie`,
/// and no later redirect brings them back.
pub proof fn law_credentials_stay_with_their_origin(
    o: OutgoingView,
    status: u16,
    joined: Option<TargetView>,
)
    ensures
        redirected(o, status, joined) matches Some(n) ==> {
            &&& n.headers.dom().subset_of(o.headers.dom())
            &&& n.target.origin != n.origin ==> !n.headers.contains_key("authorization"@)
                && !n.headers.contains_key("cookie"@)
            &&& n.target.origin == n.origin ==> n.headers == o.headers
        },
{
    reveal_strlit("authorization");
    reveal_strlit("cookie");
}

/// Neither `host` nor `content-length` is ever passed on, and every name passed on is in lower
/// case.
pub proof fn law_forwarded_header_names(h: Seq<(Text, JsonView)>, k: Text)
    ensures
        forwarded_headers(h).contains_key(k) ==> k != "host"@ && k != "content-length"@ && (exists|
            i: int,
        |
            0 <= i < h.len() && lower((#[trigger] h[i]).0) == k),
    decreases h.len(),
{
    if h.len() > 0 {
        law_forwarded_header_names(h.drop_last(), k);
        if forwarded_headers(h.drop_last()).contains_key(k) {
            let i = choose|i: int|
                0 <= i < h.drop_last().len() && lower((#[trigger] h.drop_last()[i]).0) == k;
            assert(h[i] == h.drop_last()[i]);
        }
        if forwarded_headers(h).contains_key(k) && !forwarded_headers(h.drop_last()).contains_key(k) {
            assert(lower(h[h.len() - 1].0) == k);
        }
    }
}

/// The chunks of a body, taken in one by one.
pub open spec fn read_chunks(
    cfg: ConfigView,
    s: StateView,
    chunks: Seq<Seq<u8>>,
) -> (StateView, ActionView)
    decreases chunks.len(),
{
    if chunks.len() == 0 {
        (s, ActionView::Read)
    } else {
        stepped(
            cfg,
            read_chunks(cfg, s, chunks.drop_last()).0,
            EventView::Chunk(chunks.last()),
            None,
        )
    }
}

/// The bytes of all chunks, in order.
pub open spec fn joined_chunks(chunks: Seq<Seq<u8>>) -> Seq<u8>
    decreases chunks.len(),
{
    if chunks.len() == 0 {
        Seq::empty()
    } else {
        joined_chunks(chunks.drop_last()) + chunks.last()
    }
}

/// However the body of a response is cut into chunks, its reply carries the base64 text of the
/// chunks in order, if they are at most [`MAX_RESPONSE_BYTES`] in all.
pub proof fn law_body_is_the_chunks_in_order(
    cfg: ConfigView,
    status: u16,
    headers: JsonView,
    chunks: Seq<Seq<u8>>,
)
    requires
        joined_chunks(chunks).len() <= MAX_RESPONSE_BYTES,
    ensures
        stepped(
            cfg,
            read_chunks(cfg, StateView::Reading(status, headers, Seq::empty()), chunks).0,
            EventView::BodyEnd,
            None,
        ) == (
            StateView::Done,
            ActionView::Reply(envelope(status, headers, joined_chunks(chunks))),
        ),
{
    lemma_read_chunks(cfg, status, headers, chunks);
}

proof fn lemma_read_chunks(
    cfg: ConfigView,
    status: u16,
    headers: JsonView,
    chunks: Seq<Seq<u8>>,
)
    requires
        joined_chunks(chunks).len() <= MAX_RESPONSE_BYTES,
    ensures
        read_chunks(cfg, StateView::Reading(status, headers, Seq::empty()), chunks) == (
            StateView::Reading(status, headers, joined_chunks(chunks)),
            ActionView::Read,
        ),
    decreases chunks.len(),
{
    if chunks.len() > 0 {
        lemma_read_chunks(cfg, status, headers, chunks.drop_last());
    }
}

/// A body that grows over [`MAX_RESPONSE_BYTES`] is answered with 502, whatever came before.
pub proof fn law_large_body_is_refused(
    cfg: ConfigView,
    status: u16,
    headers: JsonView,
    body: Seq<u8>,
    chunk: Seq<u8>,
)
    requires
        body.len() + chunk.len() > MAX_RESPONSE_BYTES,
    ensures
        stepped(cfg, StateView::Reading(status, headers, body), EventView::Chunk(chunk), None)
            == refused(502, "response too large"@),
{
}

/// A disabled proxy refuses every call, and no proxy takes a call without a URL.
pub proof fn law_refused_calls(
    cfg: ConfigView,
    req: ProxyReqView,
    parsed: Option<TargetView>,
    upper: Text,
)
    ensures
        cfg.mode == ProxyMode::Disabled ==> first_request(cfg, req, parsed, upper) == Err::<
            OutgoingView,
            FailureView,
        >(failure(403, "proxy disabled"@)),
        cfg.mode != ProxyMode::Disabled && url_text(req).len() == 0 ==> first_request(
            cfg,
            req,
            parsed,
            upper,
        ) == Err::<OutgoingView, FailureView>(failure(400, "url required"@)),
{
}

/// A header value of visible characters, spaces and tabs is read as the text of its bytes, one
/// character for each byte.
pub proof fn law_visible_header_values(b: Seq<u8>)
    requires
        forall|i: int| 0 <= i < b.len() ==> 0x20 <= #[trigger] b[i] <= 0x7e || b[i] == 0x09,
    ensures
        visible_text(b) is Some,
        visible_text(b)->0.len() == b.len(),
        forall|i: int| 0 <= i < b.len() ==> (#[trigger] visible_text(b)->0[i]) as int == b[i] as int,
{
}

/// A header value with a control character other than the tab, or with a byte that is not ASCII,
/// is not read as text.
pub proof fn law_invisible_header_values(b: Seq<u8>, i: int)
    requires
        0 <= i < b.len(),
        b[i] != 0x09 && (b[i] < 0x20 || b[i] > 0x7e),
    ensures
        visible_text(b) is None,
{
    assert(!is_visible(b[i]));
}

/// A further header with a visible value stands in the `headers` object under its name with the
/// text of its bytes, in place of what stood there, and leaves every other name as it was. One
/// with another value changes nothing.
pub proof fn law_reply_headers_one_by_one(h: Seq<(Text, Seq<u8>)>, name: Text, b: Seq<u8>, k: Text)
    ensures
        (forall|i: int| 0 <= i < b.len() ==> 0x20 <= #[trigger] b[i] <= 0x7e || b[i] == 0x09) ==> ({
            let m = reply_headers(h.push((name, b)));
            &&& m.contains_key(name)
            &&& m[name] matches JsonView::Str(t) && t.len() == b.len() && (forall|i: int|
                0 <= i < b.len() ==> (#[trigger] t[i]) as int == b[i] as int)
            &&& k != name ==> (m.contains_key(k) <==> reply_headers(h).contains_key(k))
            &&& k != name && m.contains_key(k) ==> m[k] == reply_headers(h)[k]
        }),
        (exists|i: int|
            0 <= i < b.len() && !(0x20 <= #[trigger] b[i] <= 0x7e || b[i] == 0x09)) ==> reply_headers(
            h.push((name, b)),
        ) == reply_headers(h),
        !reply_headers(Seq::empty()).contains_key(k),
{
    assert(h.push((name, b)).drop_last() =~= h);
    if exists|i: int| 0 <= i < b.len() && !(0x20 <= #[trigger] b[i] <= 0x7e || b[i] == 0x09) {
        let i = choose|i: int|
            0 <= i < b.len() && !(0x20 <= #[trigger] b[i] <= 0x7e || b[i] == 0x09);
        law_invisible_header_values(b, i);
    } else {
        assert forall|i: int| 0 <= i < b.len() implies 0x20 <= #[trigger] b[i] <= 0x7e || b[i]
            == 0x09 by {}
        law_visible_header_values(b);
    }
}

/// Every header of a response that is passed on, with a visible value and no header of that name
/// behind it, stands in the `headers` object of the reply under its name with the text of its
/// bytes.
pub proof fn law_visible_headers_reach_the_reply(
    cfg: ConfigView,
    o: OutgoingView,
    status: u16,
    h: Seq<(Text, Seq<u8>)>,
    i: int,
)
    requires
        0 <= i < h.len(),
        forall|j: int| 0 <= j < h[i].1.len() ==> 0x20 <= #[trigger] h[i].1[j] <= 0x7e || h[i].1[j] == 0x09,
        forall|j: int| i < j < h.len() ==> (#[trigger] h[j]).0 != h[i].0,
    ensures
        stepped(cfg, StateView::Sending(o), EventView::Response(status, h), None) matches (
            StateView::Reading(st, JsonView::Object(m), body),
            a,
        ) && a == ActionView::Read && st == status && body.len() == 0 && m.contains_key(h[i].0) && (
        m[h[i].0] matches JsonView::Str(t) && t.len() == h[i].1.len() && (forall|j: int|
            0 <= j < t.len() ==> (#[trigger] t[j]) as int == h[i].1[j] as int)),
{
    lemma_reply_header(h, i);
}

proof fn lemma_reply_header(h: Seq<(Text, Seq<u8>)>, i: int)
    requires
        0 <= i < h.len(),
        visible_text(h[i].1) is Some,
        forall|j: int| i < j < h.len() ==> (#[trigger] h[j]).0 != h[i].0,
    ensures
        reply_headers(h).contains_key(h[i].0),
        reply_headers(h)[h[i].0] == JsonView::Str(visible_text(h[i].1)->0),
    decreases h.len(),
{
    if i < h.len() - 1 {
        assert(h[h.len() - 1].0 != h[i].0);
        assert forall|j: int| i < j < h.drop_last().len() implies (#[trigger] h.drop_last()[j]).0
            != h.drop_last()[i].0 by {
            assert(h.drop_last()[j] == h[j]);
        }
        lemma_reply_header(h.drop_last(), i);
    }
}

/// The location of a response is the text of its first `location` header, blanks and all, and
/// names a URL relative to the one that was asked for. A response without one has none.
pub proof fn law_the_first_location_counts(
    o: OutgoingView,
    status: u16,
    front: Seq<(Text, Seq<u8>)>,
    b: Seq<u8>,
    rest: Seq<(Text, Seq<u8>)>,
    l: Text,
)
    requires
        forall|i: int| 0 <= i < front.len() ==> (#[trigger] front[i]).0 != "location"@,
        l.len() == b.len(),
        forall|i: int|
            0 <= i < b.len() ==> (0x20 <= #[trigger] b[i] <= 0x7e || b[i] == 0x09) && l[i] as int
                == b[i] as int,
    ensures
        location_of(front + (seq![("location"@, b)] + rest)) == Some(l),
        location_of(front) is None,
        redirect_target(
            StateView::Sending(o),
            EventView::Response(status, front + (seq![("location"@, b)] + rest)),
        ) == read_target(Some(o.target.href), l),
        redirect_target(StateView::Sending(o), EventView::Response(status, front)) is None,
{
    lemma_first_header(front, seq![("location"@, b)] + rest, "location"@);
    lemma_first_header(front, Seq::empty(), "location"@);
    assert(front + Seq::<(Text, Seq<u8>)>::empty() =~= front);
    law_visible_header_values(b);
    assert(visible_text(b)->0 =~= l);
}

proof fn lemma_first_header(front: Seq<(Text, Seq<u8>)>, rest: Seq<(Text, Seq<u8>)>, name: Text)
    requires
        forall|i: int| 0 <= i < front.len() ==> (#[trigger] front[i]).0 != name,
    ensures
        first_header(front + rest, name) == first_header(rest, name),
    decreases front.len(),
{
    if front.len() > 0 {
        assert((front + rest)[0] == front[0]);
        assert((front + rest).drop_first() =~= front.drop_first() + rest);
        lemma_first_header(front.drop_first(), rest, name);
    } else {
        assert(front + rest =~= rest);
    }
}

/// A redirect that names an `http` or `https` URL, after fewer than five others, leads to a
/// request for that URL: its host and port are looked up first. Body and first origin stay; the
/// method becomes `GET` after 303, and after 301 and 302 unless it is `HEAD`; to another origin
/// go all headers but the credentials.
pub proof fn law_redirects_are_followed(
    cfg: ConfigView,
    o: OutgoingView,
    status: u16,
    h: Seq<(Text, Seq<u8>)>,
    next: TargetView,
    host: Text,
    k: Text,
)
    requires
        300 <= status <= 399,
        o.hops < 5,
        next.scheme == "http"@ || next.scheme == "https"@,
        next.host == Some(host),
    ensures
        stepped(cfg, StateView::Sending(o), EventView::Response(status, h), Some(next)) matches (
            StateView::Resolving(n),
            ActionView::Lookup(name, port),
        ) && {
            &&& name == host
            &&& next.port matches Some(p) ==> port == p
            &&& next.port is None ==> port == 80
            &&& n.target == next && n.body == o.body && n.origin == o.origin && n.hops == o.hops + 1
            &&& status == 303 ==> n.method == "GET"@
            &&& (status == 301 || status == 302) && o.method == "HEAD"@ ==> n.method == "HEAD"@
            &&& (status == 301 || status == 302) && o.method != "HEAD"@ ==> n.method == "GET"@
            &&& status != 301 && status != 302 && status != 303 ==> n.method == o.method
            &&& next.origin == o.origin ==> n.headers == o.headers
            &&& k != "authorization"@ && k != "cookie"@ ==> (n.headers.contains_key(k)
                <==> o.headers.contains_key(k))
            &&& k != "authorization"@ && k != "cookie"@ && o.headers.contains_key(k)
                ==> n.headers[k] == o.headers[k]
            &&& next.origin != o.origin ==> !n.headers.contains_key("authorization"@)
                && !n.headers.contains_key("cookie"@)
        },
{
}

/// Any other response is handed back as it is: one that is no redirect, names no URL or one of
/// another scheme, or comes after five redirects.
pub proof fn law_other_responses_are_handed_back(
    cfg: ConfigView,
    o: OutgoingView,
    status: u16,
    h: Seq<(Text, Seq<u8>)>,
    joined: Option<TargetView>,
)
    requires
        status < 300 || status > 399 || o.hops >= 5 || joined is None || (joined->0.scheme != "http"@
            && joined->0.scheme != "https"@),
    ensures
        stepped(cfg, StateView::Sending(o), EventView::Response(status, h), joined) == (
            StateView::Reading(status, JsonView::Object(reply_headers(h)), Seq::<u8>::empty()),
            ActionView::Read,
        ),
{
}

/// A redirect to a URL without a host ends the call.
pub proof fn law_a_request_needs_a_host(o: OutgoingView)
    requires
        o.target.host is None,
    ensures
        entered(o) matches (StateView::Done, ActionView::Fail(f)) && f.status == 400 && f.message
            == "invalid url host"@,
{
}

/// Each event that a call waits for has its own outcome, and any other event changes nothing.
pub proof fn law_what_ends_a_call(
    cfg: ConfigView,
    o: OutgoingView,
    status: u16,
    headers: JsonView,
    body: Seq<u8>,
    c: Seq<u8>,
    joined: Option<TargetView>,
)
    ensures
        stepped(cfg, StateView::Resolving(o), EventView::LookupFailed, joined) matches (
            StateView::Done,
            ActionView::Fail(f),
        ) && f.status == 502 && f.message == "dns resolution failed"@,
        stepped(cfg, StateView::Sending(o), EventView::SendFailed, joined) matches (
            StateView::Done,
            ActionView::Fail(f),
        ) && f.status == 502 && f.message == "upstream request failed"@,
        stepped(cfg, StateView::Reading(status, headers, body), EventView::BodyFailed, joined) matches (
            StateView::Done,
            ActionView::Fail(f),
        ) && f.status == 502 && f.message == "upstream body error"@,
        body.len() + c.len() > 52_428_800 ==> (stepped(
            cfg,
            StateView::Reading(status, headers, body),
            EventView::Chunk(c),
            joined,
        ) matches (StateView::Done, ActionView::Fail(f)) && f.status == 502 && f.message
            == "response too large"@),
        body.len() + c.len() <= 52_428_800 ==> stepped(
            cfg,
            StateView::Reading(status, headers, body),
            EventView::Chunk(c),
            joined,
        ) == (StateView::Reading(status, headers, body + c), ActionView::Read),
        stepped(cfg, StateView::Reading(status, headers, body), EventView::BodyEnd, joined) matches (
            StateView::Done,
            ActionView::Reply(j),
        ) && j is Object && j->Object_0.dom() == set!["status"@, "headers"@, "body"@]
            && j->Object_0["status"@] == JsonView::Int(status as int) && j->Object_0["headers"@]
            == headers && j->Object_0["body"@] == JsonView::Str(b64(body)),
        forall|e: EventView| #[trigger]
            stepped(cfg, StateView::Done, e, joined) == (StateView::Done, ActionView::Nothing),
        forall|e: EventView|
            !(e is Addresses) && !(e is LookupFailed) ==> #[trigger] stepped(
                cfg,
                StateView::Resolving(o),
                e,
                joined,
            ) == (StateView::Resolving(o), ActionView::Nothing),
        forall|e: EventView|
            !(e is Response) && !(e is SendFailed) ==> #[trigger] stepped(
                cfg,
                StateView::Sending(o),
                e,
                joined,
            ) == (StateView::Sending(o), ActionView::Nothing),
        forall|e: EventView|
            !(e is Chunk) && !(e is BodyFailed) && !(e is BodyEnd) ==> #[trigger] stepped(
                cfg,
                StateView::Reading(status, headers, body),
                e,
                joined,
            ) == (StateView::Reading(status, headers, body), ActionView::Nothing),
{
    reveal_strlit("status");
    reveal_strlit("headers");
    reveal_strlit("body");
    assert("status"@.len() == 6);
    assert("headers"@.len() == 7);
    assert("body"@.len() == 4);
    assert(envelope(status, headers, body)->Object_0.dom() =~= set!["status"@, "headers"@, "body"@]);
}

/// A request whose host has addresses, all of them public or listed, is sent as it is. A single
/// private address that is not listed is enough to refuse it, and so is having none.
pub proof fn law_addresses_decide(
    cfg: ConfigView,
    o: OutgoingView,
    a: Seq<IpView>,
    i: int,
    joined: Option<TargetView>,
)
    ensures
        a.len() > 0 && (forall|j: int|
            0 <= j < a.len() ==> !is_private(#[trigger] a[j]) || listed(cfg.exact, cfg.cidrs, a[j]))
            ==> stepped(cfg, StateView::Resolving(o), EventView::Addresses(a), joined) == (
            StateView::Sending(o),
            ActionView::Send,
        ),
        0 <= i < a.len() && is_private(a[i]) && !listed(cfg.exact, cfg.cidrs, a[i]) ==> (stepped(
            cfg,
            StateView::Resolving(o),
            EventView::Addresses(a),
            joined,
        ) matches (StateView::Done, ActionView::Fail(f)) && f.status == 403 && f.message
            == "address not allowed"@),
        a.len() == 0 ==> (stepped(cfg, StateView::Resolving(o), EventView::Addresses(a), joined) matches (
            StateView::Done,
            ActionView::Fail(f),
        ) && f.status == 502 && f.message == "no addresses resolved"@),
{
}

/// A call is admitted where the proxy is on, it has a URL that can be read, of the scheme `http`
/// or `https`, and in mode `Allowlist` its host is listed; the first of these that it lacks
/// decides how it is refused.
pub proof fn law_who_is_admitted(cfg: ConfigView, url: Text, t: TargetView, host: Text)
    requires
        url.len() > 0,
        t.host == Some(host),
    ensures
        cfg.mode == ProxyMode::Disabled ==> (admitted_url(cfg, Some(url), Some(t)) matches Err(f)
            && f.status == 403 && f.message == "proxy disabled"@),
        cfg.mode != ProxyMode::Disabled ==> {
            &&& admitted_url(cfg, None, Some(t)) matches Err(f) && f.status == 400 && f.message
                == "url required"@
            &&& admitted_url(cfg, Some(Seq::empty()), Some(t)) matches Err(f) && f.status == 400
                && f.message == "url required"@
            &&& admitted_url(cfg, Some(url), None) matches Err(f) && f.status == 400 && f.message
                == "invalid url"@
            &&& t.scheme != "http"@ && t.scheme != "https"@ ==> (admitted_url(
                cfg,
                Some(url),
                Some(t),
            ) matches Err(f) && f.status == 400 && f.message == "unsupported url scheme"@)
            &&& (t.scheme == "http"@ || t.scheme == "https"@) ==> {
                &&& cfg.mode == ProxyMode::Any ==> admitted_url(cfg, Some(url), Some(t)) == Ok::<
                    TargetView,
                    FailureView,
                >(t)
                &&& cfg.mode == ProxyMode::Allowlist && cfg.hosts.contains(host) ==> admitted_url(
                    cfg,
                    Some(url),
                    Some(t),
                ) == Ok::<TargetView, FailureView>(t)
                &&& cfg.mode == ProxyMode::Allowlist && !cfg.hosts.contains(host) ==> (admitted_url(
                    cfg,
                    Some(url),
                    Some(t),
                ) matches Err(f) && f.status == 403 && f.message == "host not allowlisted"@)
            }
        },
{
}

/// An admitted call leads to a request for its URL, with its headers and its body, and with its
/// method, or `GET` where that is no method. No redirect was followed yet.
pub proof fn law_the_first_request(
    cfg: ConfigView,
    req: ProxyReqView,
    t: TargetView,
    upper: Text,
)
    requires
        admitted_url(cfg, req.url, Some(t)) is Ok,
        req.binary != Some(true),
    ensures
        first_request(cfg, req, Some(t), upper) matches Ok(o) && {
            &&& o.target == t
            &&& o.origin == t.origin
            &&& o.hops == 0
            &&& is_method(upper) ==> o.method == upper
            &&& !is_method(upper) ==> o.method == "GET"@
            &&& req.headers matches Some(h) ==> o.headers == forwarded_headers(h)
            &&& req.headers is None ==> o.headers == Map::<Text, Seq<u8>>::empty()
            &&& req.body matches Some(b) ==> o.body == Some(vstd::utf8::encode_utf8(b))
            &&& req.body is None ==> o.body is None
        },
{
}

/// A binary body is sent as the bytes that its base64 text stands for, and refused where it
/// stands for none.
pub proof fn law_binary_bodies(
    cfg: ConfigView,
    req: ProxyReqView,
    t: TargetView,
    upper: Text,
    body: Text,
)
    requires
        admitted_url(cfg, req.url, Some(t)) is Ok,
        req.binary == Some(true),
        req.body == Some(body),
    ensures
        b64_decoded(body) matches Some(b) ==> (first_request(cfg, req, Some(t), upper) matches Ok(o)
            && o.body == Some(b)),
        b64_decoded(body) is None ==> (first_request(cfg, req, Some(t), upper) matches Err(f)
            && f.status == 400 && f.message == "invalid base64 body"@),
{
}

/// A call that is not admitted is answered as that is, and one that is starts with a look-up of
/// its host. The method of a call without one is `GET`.
pub proof fn law_how_a_call_starts(
    req: ProxyReqView,
    first: Result<OutgoingView, FailureView>,
    r: (StateView, ActionView),
    host: Text,
)
    requires
        begun(req, first, r),
        req.headers matches Some(h) ==> forwarded_headers(h).dom().len() <= 6553,
    ensures
        first matches Err(f) ==> r == (StateView::Done, ActionView::Fail(f)),
        first is Ok && first->Ok_0.target.host == Some(host) ==> r.0 == StateView::Resolving(
            first->Ok_0,
        ) && (r.1 matches ActionView::Lookup(name, port) && name == host && (first->Ok_0.target.port
            == Some(port) || (first->Ok_0.target.port is None && port == 80))),
        req.method is None ==> method_text(req) == "GET"@,
        req.method matches Some(m) ==> method_text(req) == m,
        req.url matches Some(u) ==> url_text(req) == u,
{
}

/// A further header of a call is passed on under its name in lower case, in place of an earlier
/// one of that name, and leaves the others as they were.
pub proof fn law_headers_are_passed_on_one_by_one(
    h: Seq<(Text, JsonView)>,
    name: Text,
    value: Text,
    k: Text,
)
    requires
        1 <= name.len() <= 65535,
        forall|i: int| 0 <= i < name.len() ==> is_token_char(#[trigger] name[i]),
        forall|i: int|
            0 <= i < value.len() ==> #[trigger] value[i] == '\t' || (value[i] >= ' ' && value[i]
                != '\u{7f}'),
        lower(name) != "host"@,
        lower(name) != "content-length"@,
    ensures
        ({
            let m = forwarded_headers(h.push((name, JsonView::Str(value))));
            &&& m.contains_key(lower(name))
            &&& m[lower(name)] == vstd::utf8::encode_utf8(value)
            &&& k != lower(name) ==> (m.contains_key(k) <==> forwarded_headers(h).contains_key(k))
            &&& k != lower(name) && m.contains_key(k) ==> m[k] == forwarded_headers(h)[k]
        }),
        !forwarded_headers(Seq::empty()).contains_key(k),
{
    assert(h.push((name, JsonView::Str(value))).drop_last() =~= h);
}

/// A header is passed over where its value is no text or a text with a control character, where
/// its name is no header name, and where it is `host` or `content-length` in whatever case.
pub proof fn law_headers_that_are_passed_over(
    h: Seq<(Text, JsonView)>,
    name: Text,
    v: JsonView,
    i: int,
)
    requires
        ({
            ||| !(v is Str)
            ||| v matches JsonView::Str(t) && 0 <= i < t.len() && ((t[i] < ' ' && t[i] != '\t')
                || t[i] == '\u{7f}')
            ||| name.len() == 0
            ||| name.len() > 65535
            ||| 0 <= i < name.len() && !is_token_char(name[i])
            ||| lower(name) == "host"@
            ||| lower(name) == "content-length"@
        }),
    ensures
        forwarded_headers(h.push((name, v))) == forwarded_headers(h),
{
    assert(h.push((name, v)).drop_last() =~= h);
    if v matches JsonView::Str(t) && 0 <= i < t.len() && ((t[i] < ' ' && t[i] != '\t') || t[i]
        == '\u{7f}') {
        assert(!is_header_value(v->Str_0));
    }
}

/// The characters of methods and header names, by their code points: digits, letters and some
/// signs.
pub proof fn law_token_characters(c: char)
    ensures
        is_token_char(c) <==> ({
            let n = c as u32;
            ||| n == 33
            ||| 35 <= n <= 39
            ||| n == 42 || n == 43 || n == 45 || n == 46
            ||| 48 <= n <= 57
            ||| 65 <= n <= 90
            ||| 94 <= n <= 122
            ||| n == 124 || n == 126
        }),
{
}

/// A URL keeps its text, scheme, host and port. Its origin has the port only where it is not the
/// default one, which is 80 for `http` and 443 for `https`.
pub proof fn law_origins(u: UrlView, host: Text, port: u16)
    requires
        u.host == Some(host),
        u.port == Some(port),
    ensures
        ({
            let t = with_origin(u);
            &&& t.href == u.href && t.scheme == u.scheme && t.host == u.host && t.port == u.port
            &&& u.scheme == "http"@ ==> t.origin == (if port == 80 {
                "http://"@ + host
            } else {
                "http://"@ + host + ":"@ + decimal(port as nat)
            })
            &&& u.scheme == "https"@ ==> t.origin == (if port == 443 {
                "https://"@ + host
            } else {
                "https://"@ + host + ":"@ + decimal(port as nat)
            })
            &&& u.scheme != "http"@ && u.scheme != "https"@ ==> t.origin.len() == 0
        }),
{
    reveal_strlit("http");
    reveal_strlit("https");
    reveal_strlit("http://");
    reveal_strlit("https://");
    reveal_strlit("://");
    assert("http"@ + "://"@ =~= "http://"@);
    assert("https"@ + "://"@ =~= "https://"@);
    assert("http"@.len() == 4 && "https"@.len() == 5);
}

/// Two modes have a name, and every other name, or none, stands for the third.
pub proof fn law_modes_by_name(t: Text)
    ensures
        mode_named(Some("disabled"@)) == ProxyMode::Disabled,
        mode_named(Some("allowlist"@)) == ProxyMode::Allowlist,
        t != "disabled"@ && t != "allowlist"@ ==> mode_named(Some(t)) == ProxyMode::Any,
        mode_named(None) == ProxyMode::Any,
{
    reveal_strlit("disabled");
    reveal_strlit("allowlist");
    assert("disabled"@.len() == 8);
    assert("allowlist"@.len() == 9);
}

/// The entries of a list of allowed addresses add up: an address is listed where one of them
/// lists it.
pub proof fn law_allowed_entries_add_up(e: Seq<Text>, t: Text, ip: IpView)
    ensures
        !listed(exact_entries(Seq::empty()), network_entries(Seq::empty()), ip),
        listed(exact_entries(e.push(t)), network_entries(e.push(t)), ip) <==> (listed(
            exact_entries(e),
            network_entries(e),
            ip,
        ) || listed(exact_entries(seq![t]), network_entries(seq![t]), ip)),
{
    reveal_with_fuel(network_entries, 3);
    let none = Seq::<Text>::empty();
    assert(none.push(t) =~= seq![t]);
    lemma_exact_push(e, t);
    lemma_exact_push(none, t);
    assert(e.push(t).drop_last() =~= e);
    assert(seq![t].drop_last() =~= none);
    let more = network_entries(e.push(t));
    let one = network_entries(seq![t]);
    let few = network_entries(e);
    match allow_entry(t) {
        AllowEntry::Network(n, m) => {
            assert(more == few.push((n, m)));
            assert(one =~= seq![(n, m)]);
            if let IpView::V4(o) = ip {
                let v = octets_value(o) as u32;
                if listed(exact_entries(e), few, ip) && !exact_entries(e).contains(ip) {
                    let i = choose|i: int|
                        0 <= i < few.len() && v & (#[trigger] few[i]).1 == few[i].0;
                    assert(more[i] == few[i]);
                }
                if v & m == n {
                    assert(more[few.len() as int] == (n, m));
                    assert(one[0] == (n, m));
                }
                if exists|i: int| 0 <= i < more.len() && v & (#[trigger] more[i]).1 == more[i].0 {
                    let i = choose|i: int|
                        0 <= i < more.len() && v & (#[trigger] more[i]).1 == more[i].0;
                    if i < few.len() {
                        assert(few[i] == more[i]);
                    }
                }
            }
        },
        _ => {
            assert(more == few);
            assert(one =~= Seq::empty());
        },
    }
}

/// An entry without a slash lists the address that it names and no other.
pub proof fn law_an_address_lists_itself(t: Text, ip: IpView, other: IpView)
    requires
        !t.contains('/'),
        parse_ip(t) == Some(ip),
    ensures
        listed(exact_entries(seq![t]), network_entries(seq![t]), other) <==> other == ip,
{
    reveal_with_fuel(network_entries, 2);
    let none = Seq::<Text>::empty();
    law_first_place(t, Seq::empty(), '/');
    assert(none.push(t) =~= seq![t]);
    lemma_exact_push(none, t);
    assert(seq![t].drop_last() =~= none);
}

/// An entry `base/p` lists the IPv4 addresses that agree with the base in the leading `p` bits
/// and no others; with a prefix over 32 it lists nothing.
pub proof fn law_a_network_lists_its_addresses(base: Text, o: Seq<u8>, p: nat, a: Seq<u8>, other: IpView)
    requires
        !base.contains('/'),
        parse_v4(base) == Some(o),
        p <= u32::MAX,
    ensures
        ({
            let e = seq![base.push('/') + decimal(p)];
            &&& p == 0 ==> listed(exact_entries(e), network_entries(e), IpView::V4(a))
            &&& 1 <= p <= 32 ==> (listed(exact_entries(e), network_entries(e), IpView::V4(a)) <==> (
            octets_value(a) as u32) >> ((32 - p) as u32) == (octets_value(o) as u32) >> (
            (32 - p) as u32))
            &&& p > 32 ==> !listed(exact_entries(e), network_entries(e), IpView::V4(a))
            &&& other is V6 ==> !listed(exact_entries(e), network_entries(e), other)
        }),
{
    reveal_with_fuel(network_entries, 2);
    let none = Seq::<Text>::empty();
    let t = base.push('/') + decimal(p);
    law_first_place(base, decimal(p), '/');
    law_numbers_are_read(p, u32::MAX as nat);
    assert(t.take(base.len() as int) =~= base);
    assert(t.skip(base.len() as int + 1) =~= decimal(p));
    assert(none.push(t) =~= seq![t]);
    lemma_exact_push(none, t);
    assert(seq![t].drop_last() =~= none);
    if p <= 32 {
        let m = prefix_mask(p as u32);
        let n = octets_value(o) as u32 & m;
        assert(network_entries(seq![t]) =~= seq![(n, m)]);
        law_network_covers_its_prefix(octets_value(o) as u32, octets_value(a) as u32, p as u32);
        assert(network_entries(seq![t])[0] == (n, m));
    } else {
        assert(network_entries(seq![t]) =~= Seq::empty());
    }
}

/// A call that would pass on more headers than a header map is sure to take may be refused for
/// that; else it starts like any other.
pub proof fn law_calls_with_many_headers(
    req: ProxyReqView,
    first: Result<OutgoingView, FailureView>,
    r: (StateView, ActionView),
)
    requires
        begun(req, first, r),
    ensures
        (r matches (StateView::Done, ActionView::Fail(f)) && f.status == 400 && f.message
            == "too many headers"@) || (first matches Err(e) && r == (
            StateView::Done,
            ActionView::Fail(e),
        )) || (first matches Ok(o) && r == entered(o)),
{
}

/// A method is one or more token characters, and nothing else is one.
pub proof fn law_methods(t: Text, i: int)
    ensures
        t.len() == 0 ==> method_or_get(t) == "GET"@,
        0 <= i < t.len() && !is_token_char(t[i]) ==> method_or_get(t) == "GET"@,
        t.len() > 0 && (forall|j: int| 0 <= j < t.len() ==> is_token_char(#[trigger] t[j]))
            ==> method_or_get(t) == t,
{
}

/// A configuration, a URL and a call say what they hold, part by part.
pub proof fn law_what_calls_say(c: ProxyConfig, t: Target, req: ProxyReq, ip: IpView, i: int)
    ensures
        c@.mode == c.mode,
        c@.exact.contains(ip) <==> (exists|j: int|
            0 <= j < c.allow_private_exact@.len() && (#[trigger] c.allow_private_exact@[j])@ == ip),
        c@.cidrs == c.allow_private_cidr_v4@,
        c@.hosts == texts(c.allowlist_hosts@),
        t@.href == t.href@,
        t@.scheme == t.scheme@,
        t.host matches Some(h) ==> t@.host == Some(h@),
        t.host is None ==> t@.host is None,
        t@.port == t.port,
        t@.origin == t.origin@,
        req.url matches Some(u) ==> req@.url == Some(u@),
        req.url is None ==> req@.url is None,
        req.method matches Some(m) ==> req@.method == Some(m@),
        req.method is None ==> req@.method is None,
        req.body matches Some(b) ==> req@.body == Some(b@),
        req.body is None ==> req@.body is None,
        req@.binary == req.binary,
        req.headers is None ==> req@.headers is None,
        req.headers is Some ==> req@.headers is Some && req@.headers->0.len() == req.headers->0@.len()
            && (0 <= i < req.headers->0@.len() ==> req@.headers->0[i] == (
            req.headers->0@[i].0@,
            req.headers->0@[i].1@,
        )),
{
    let v = ip_views(c.allow_private_exact@);
    if v.contains(ip) {
        let j = choose|j: int| 0 <= j < v.len() && v[j] == ip;
        assert(c.allow_private_exact@[j]@ == ip);
    }
    if exists|j: int|
        0 <= j < c.allow_private_exact@.len() && (#[trigger] c.allow_private_exact@[j])@ == ip {
        let j = choose|j: int|
            0 <= j < c.allow_private_exact@.len() && (#[trigger] c.allow_private_exact@[j])@ == ip;
        assert(v[j] == ip);
    }
}

/// A request on its way, a response and an answer say what they hold, part by part.
pub proof fn law_what_requests_say(
    o: Outgoing,
    h: Seq<(String, Vec<u8>)>,
    a: Seq<IpAddress>,
    i: int,
    r: Result<Outgoing, Failure>,
)
    ensures
        o@.target == o.target@,
        o@.method == o.method@,
        o@.headers == header_fields(o.headers),
        o.body matches Some(b) ==> o@.body == Some(b@),
        o.body is None ==> o@.body is None,
        o@.origin == o.origin@,
        o@.hops == o.hops,
        raw_headers(h).len() == h.len(),
        0 <= i < h.len() ==> raw_headers(h)[i] == (h[i].0@, h[i].1@),
        ip_views(a).len() == a.len(),
        0 <= i < a.len() ==> ip_views(a)[i] == a[i]@,
        r matches Ok(n) ==> planned(r) == Ok::<OutgoingView, FailureView>(n@),
        r matches Err(f) ==> (planned(r) matches Err(g) && g.status == f.status && g.message
            == f.message@),
{
}

/// States, events and actions of a call say what they hold.
pub proof fn law_what_steps_say(
    o: Outgoing,
    a: Vec<IpAddress>,
    h: Vec<(String, Vec<u8>)>,
    c: Vec<u8>,
    status: u16,
    port: u16,
    host: String,
    j: Json,
    f: Failure,
)
    ensures
        ProxyState::Resolving(o)@ == StateView::Resolving(o@),
        ProxyState::Sending(o)@ == StateView::Sending(o@),
        ProxyState::Done@ == StateView::Done,
        ProxyEvent::Addresses(a)@ == EventView::Addresses(ip_views(a@)),
        ProxyEvent::LookupFailed@ == EventView::LookupFailed,
        (ProxyEvent::Response { status, headers: h })@ == EventView::Response(status, raw_headers(h@)),
        ProxyEvent::SendFailed@ == EventView::SendFailed,
        ProxyEvent::Chunk(c)@ == EventView::Chunk(c@),
        ProxyEvent::BodyFailed@ == EventView::BodyFailed,
        ProxyEvent::BodyEnd@ == EventView::BodyEnd,
        (ProxyAction::Lookup { host, port })@ == ActionView::Lookup(host@, port),
        ProxyAction::Send@ == ActionView::Send,
        ProxyAction::Read@ == ActionView::Read,
        ProxyAction::Reply(j)@ == ActionView::Reply(j@),
        ProxyAction::Fail(f)@ == ActionView::Fail(f@),
        ProxyAction::Nothing@ == ActionView::Nothing,
{
}

} // verus!
