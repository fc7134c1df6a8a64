//! The HTTP tool: which addresses may be asked, and what is handed back.
use crate::text::{
    self, ascii_lower_str, copy_str, decimal_u64, from_chars, starts_with_str, str_eq, sub_chars,
    to_chars,
};
use vstd::prelude::*;

verus! {

// ---------------------------------------------------------------------------
// Addresses
// ---------------------------------------------------------------------------

/// An IPv4 address: four numbers, the first one first.
#[derive(Debug, Clone, Copy, PartialEq, Eq)]
pub struct Ipv4Addr {
    /// The four numbers.
    pub octets: [u8; 4],
}

/// An IPv6 address: eight numbers, the first one first.
#[derive(Debug, Clone, Copy, PartialEq, Eq)]
pub struct Ipv6Addr {
    /// The eight numbers.
    pub segments: [u16; 8],
}

/// An address of either kind.
#[derive(Debug, Clone, Copy, PartialEq, Eq)]
pub enum IpAddr {
    /// An IPv4 address.
    V4(Ipv4Addr),
    /// An IPv6 address.
    V6(Ipv6Addr),
}

impl Ipv4Addr {
    /// The address with the given numbers.
    pub fn new(a: u8, b: u8, c: u8, d: u8) -> (r: Self)
        ensures
            r.octets@ == seq![a, b, c, d],
    {
        Ipv4Addr { octets: [a, b, c, d] }
    }

    /// The address as one number.
    pub open spec fn value(self) -> nat {
        (((self.octets[0] as nat * 256 + self.octets[1] as nat) * 256 + self.octets[2] as nat)
            * 256 + self.octets[3] as nat)
    }

    /// The address in dotted notation.
    pub open spec fn dotted(self) -> Seq<char> {
        text::decimal(self.octets[0] as nat) + "."@ + text::decimal(self.octets[1] as nat) + "."@
            + text::decimal(self.octets[2] as nat) + "."@ + text::decimal(self.octets[3] as nat)
    }

    /// The address in dotted notation.
    pub fn to_string(&self) -> (r: String)
        ensures
            r@ == self.dotted(),
    {
        let mut s = decimal_u64(self.octets[0] as u64);
        s.append(".");
        let b = decimal_u64(self.octets[1] as u64);
        s.append(&b);
        s.append(".");
        let c = decimal_u64(self.octets[2] as u64);
        s.append(&c);
        s.append(".");
        let d = decimal_u64(self.octets[3] as u64);
        s.append(&d);
        s
    }
}

/// Whether an IPv4 address lies in the block of `size` addresses that begins
/// with `a.b.c.0`.
pub open spec fn in_block(value: nat, a: nat, b: nat, c: nat, size: nat) -> bool {
    let base = ((a * 256 + b) * 256 + c) * 256;
    base <= value < base + size
}

/// The IPv4 addresses that are not public: this network (0.0.0.0/8), private
/// networks (10.0.0.0/8, 172.16.0.0/12, 192.168.0.0/16), shared address space
/// (100.64.0.0/10), loopback (127.0.0.0/8), link-local (169.254.0.0/16),
/// protocol assignments (192.0.0.0/24), documentation (192.0.2.0/24,
/// 198.51.100.0/24, 203.0.113.0/24), relays (192.88.99.0/24), benchmarks
/// (198.18.0.0/15), multicast (224.0.0.0/4) and reserved (240.0.0.0/4).
pub open spec fn disallowed_v4(value: nat) -> bool {
    ||| in_block(value, 0, 0, 0, 0x100_0000)
    ||| in_block(value, 10, 0, 0, 0x100_0000)
    ||| in_block(value, 100, 64, 0, 0x40_0000)
    ||| in_block(value, 127, 0, 0, 0x100_0000)
    ||| in_block(value, 169, 254, 0, 0x1_0000)
    ||| in_block(value, 172, 16, 0, 0x10_0000)
    ||| in_block(value, 192, 0, 0, 0x100)
    ||| in_block(value, 192, 0, 2, 0x100)
    ||| in_block(value, 192, 88, 99, 0x100)
    ||| in_block(value, 192, 168, 0, 0x1_0000)
    ||| in_block(value, 198, 18, 0, 0x2_0000)
    ||| in_block(value, 198, 51, 100, 0x100)
    ||| in_block(value, 203, 0, 113, 0x100)
    ||| in_block(value, 224, 0, 0, 0x1000_0000)
    ||| in_block(value, 240, 0, 0, 0x1000_0000)
}

/// Whether an IPv4 address is private or reserved.
pub fn is_disallowed_ipv4(ip: Ipv4Addr) -> (r: bool)
    ensures
        r == disallowed_v4(ip.value()),
{
    let a: u8 = ip.octets[0];
    let b: u8 = ip.octets[1];
    let c: u8 = ip.octets[2];
    let d: u8 = ip.octets[3];
    assert(ip.value() == a * 0x100_0000 + b * 0x1_0000 + c * 0x100 + d);
    a == 0 || a == 10 || (a == 100 && b >= 64 && b <= 127) || a == 127 || (a == 169 && b == 254)
        || (a == 172 && b >= 16 && b <= 31) || (a == 192 && b == 0 && (c == 0 || c == 2)) || (a
        == 192 && b == 88 && c == 99) || (a == 192 && b == 168) || (a == 198 && (b == 18 || b
        == 19)) || (a == 198 && b == 51 && c == 100) || (a == 203 && b == 0 && c == 113) || a
        >= 224
}

impl Ipv6Addr {
    /// The address with the given numbers.
    pub fn new(a: u16, b: u16, c: u16, d: u16, e: u16, f: u16, g: u16, h: u16) -> (r: Self)
        ensures
            r.segments@ == seq![a, b, c, d, e, f, g, h],
    {
        Ipv6Addr { segments: [a, b, c, d, e, f, g, h] }
    }

    /// Whether the first six numbers are those of an IPv4-mapped address.
    pub open spec fn is_mapped(self) -> bool {
        &&& self.segments[0] == 0
        &&& self.segments[1] == 0
        &&& self.segments[2] == 0
        &&& self.segments[3] == 0
        &&& self.segments[4] == 0
        &&& self.segments[5] == 0xffff
    }

    /// The IPv4 address that an IPv4-mapped address stands for.
    pub fn to_ipv4_mapped(&self) -> (r: Option<Ipv4Addr>)
        ensures
            match r {
                Some(v4) => self.is_mapped() && v4.value() == self.segments[6] as nat * 0x1_0000
                    + self.segments[7] as nat,
                None => !self.is_mapped(),
            },
    {
        let s = self.segments;
        if s[0] == 0 && s[1] == 0 && s[2] == 0 && s[3] == 0 && s[4] == 0 && s[5] == 0xffff {
            let hi: u16 = s[6];
            let lo: u16 = s[7];
            Some(
                Ipv4Addr::new(
                    (hi / 256) as u8,
                    (hi % 256) as u8,
                    (lo / 256) as u8,
                    (lo % 256) as u8,
                ),
            )
        } else {
            None
        }
    }
}

/// The IPv6 addresses that are not public: unspecified (::), loopback (::1),
/// unique local (fc00::/7), link-local (fe80::/10), multicast (ff00::/8), and
/// those that carry IPv4 addresses behind the prefix 64:ff9b:0.
pub open spec fn disallowed_v6(ip: Ipv6Addr) -> bool {
    let s = ip.segments;
    ||| (forall|i: int| 0 <= i < 7 ==> s[i] == 0) && (s[7] == 0 || s[7] == 1)
    ||| 0xfc00 <= s[0] <= 0xfdff
    ||| 0xfe80 <= s[0] <= 0xfebf
    ||| 0xff00 <= s[0]
    ||| s[0] == 0x64 && s[1] == 0xff9b && s[2] == 0
}

/// Whether an IPv6 address is private or reserved.
pub fn is_disallowed_ipv6(ip: Ipv6Addr) -> (r: bool)
    ensures
        r == disallowed_v6(ip),
{
    let s = ip.segments;
    let zeros = s[0] == 0 && s[1] == 0 && s[2] == 0 && s[3] == 0 && s[4] == 0 && s[5] == 0 && s[6]
        == 0;
    assert(zeros == (forall|i: int| 0 <= i < 7 ==> s[i] == 0));
    (zeros && (s[7] == 0 || s[7] == 1)) || (s[0] >= 0xfc00 && s[0] <= 0xfdff) || (s[0] >= 0xfe80
        && s[0] <= 0xfebf) || s[0] >= 0xff00 || (s[0] == 0x64 && s[1] == 0xff9b && s[2] == 0)
}

/// Whether an address is private or reserved. An IPv4-mapped IPv6 address is
/// judged by the IPv4 address that it stands for.
pub open spec fn disallowed(ip: IpAddr) -> bool {
    match ip {
        IpAddr::V4(v4) => disallowed_v4(v4.value()),
        IpAddr::V6(v6) => if v6.is_mapped() {
            disallowed_v4(v6.segments[6] as nat * 0x1_0000 + v6.segments[7] as nat)
        } else {
            disallowed_v6(v6)
        },
    }
}

/// Whether an address is private or reserved.
pub fn is_disallowed_ip(ip: IpAddr) -> (r: bool)
    ensures
        r == disallowed(ip),
{
    match ip {
        IpAddr::V4(v4) => is_disallowed_ipv4(v4),
        IpAddr::V6(v6) => {
            if let Some(v4) = v6.to_ipv4_mapped() {
                return is_disallowed_ipv4(v4);
            }
            is_disallowed_ipv6(v6)
        },
    }
}

/// An IPv4 address cannot slip through in the form of an IPv6 address: its
/// mapped form is judged as it is itself.
pub proof fn law_mapped_addresses_are_judged_alike(v4: Ipv4Addr, v6: Ipv6Addr)
    requires
        v6.is_mapped(),
        v6.segments[6] as nat * 0x1_0000 + v6.segments[7] as nat == v4.value(),
    ensures
        disallowed(IpAddr::V6(v6)) == disallowed(IpAddr::V4(v4)),
{
}

// ---------------------------------------------------------------------------
// URLs
// ---------------------------------------------------------------------------

/// The host of a URL.
#[derive(Debug)]
pub enum HostParts {
    /// An IPv4 address.
    V4(Ipv4Addr),
    /// An IPv6 address and its notation.
    V6(Ipv6Addr, String),
    /// A name.
    Domain(String),
}

/// A URL, as far as it matters.
#[derive(Debug)]
pub struct UrlParts {
    /// The scheme.
    pub scheme: String,
    /// The host.
    pub host: Option<HostParts>,
    /// The whole URL in its normal form.
    pub text: String,
}

/// What the host of a URL says.
#[verifier::ext_equal]
pub enum HostView {
    V4(Seq<u8>),
    V6(Seq<u16>, Seq<char>),
    Domain(Seq<char>),
}

/// What a URL says.
#[verifier::ext_equal]
pub struct UrlView {
    pub scheme: Seq<char>,
    pub host: Option<HostView>,
    pub text: Seq<char>,
}

impl View for UrlParts {
    type V = UrlView;

    open spec fn view(&self) -> UrlView {
        UrlView {
            scheme: self.scheme@,
            host: match self.host {
                None => None,
                Some(HostParts::V4(a)) => Some(HostView::V4(a.octets@)),
                Some(HostParts::V6(a, t)) => Some(HostView::V6(a.segments@, t@)),
                Some(HostParts::Domain(d)) => Some(HostView::Domain(d@)),
            },
            text: self.text@,
        }
    }
}

/// The URL that a text denotes, or why it denotes none.
pub uninterp spec fn parsed_url(s: Seq<char>) -> Result<UrlView, Seq<char>>;

/// `url::Url::parse`: the scheme, the host and the normal form of the URL, or
/// the message of the error. The result depends on the text alone.
#[verifier::external_body]
pub(crate) fn parse_url(s: &str) -> (r: Result<UrlParts, String>)
    ensures
        match r {
            Ok(u) => parsed_url(s@) == Ok::<UrlView, Seq<char>>(u@),
            Err(e) => parsed_url(s@) == Err::<UrlView, Seq<char>>(e@),
        },
{
    let u = url::Url::parse(s).map_err(|e| e.to_string())?;
    let host = match u.host() {
        Some(url::Host::Ipv4(a)) => Some(HostParts::V4(Ipv4Addr { octets: a.octets() })),
        Some(url::Host::Ipv6(a)) => {
            Some(HostParts::V6(Ipv6Addr { segments: a.segments() }, a.to_string()))
        },
        Some(url::Host::Domain(d)) => Some(HostParts::Domain(d.to_string())),
        None => None,
    };
    Ok(UrlParts { scheme: u.scheme().to_string(), host, text: u.to_string() })
}

/// The URL that may be asked for, given what its text denotes, or why none may
/// be: it has to be of the scheme `http` or `https`.
pub open spec fn web_url(url: Seq<char>, parsed: Result<UrlView, Seq<char>>) -> Result<
    UrlView,
    Seq<char>,
> {
    match parsed {
        Err(e) => Err("invalid URL '"@ + url + "': "@ + e),
        Ok(u) => if u.scheme == "http"@ || u.scheme == "https"@ {
            Ok(u)
        } else {
            Err("only http/https URLs are allowed, got: "@ + url)
        },
    }
}

/// The URL that may be asked for, given what its text denotes.
pub fn check_scheme(url: &str, parsed: Result<UrlParts, String>) -> (r: Result<UrlParts, String>)
    ensures
        match r {
            Ok(u) => parsed matches Ok(p) && p == u && web_url(
                url@,
                Ok::<UrlView, Seq<char>>(p@),
            ) == Ok::<UrlView, Seq<char>>(u@),
            Err(m) => web_url(
                url@,
                match parsed {
                    Ok(p) => Ok::<UrlView, Seq<char>>(p@),
                    Err(e) => Err::<UrlView, Seq<char>>(e@),
                },
            ) == Err::<UrlView, Seq<char>>(m@),
        },
{
    match parsed {
        Err(e) => {
            let mut m = copy_str("invalid URL '");
            m.append(url);
            m.append("': ");
            m.append(&e);
            Err(m)
        },
        Ok(u) => {
            if str_eq(&u.scheme, "http") || str_eq(&u.scheme, "https") {
                Ok(u)
            } else {
                let mut m = copy_str("only http/https URLs are allowed, got: ");
                m.append(url);
                Err(m)
            }
        },
    }
}

/// The URL that a text denotes, if it is of the scheme `http` or `https`.
pub fn validate_scheme(url: &str) -> (r: Result<UrlParts, String>)
    ensures
        match r {
            Ok(u) => web_url(url@, parsed_url(url@)) == Ok::<UrlView, Seq<char>>(u@),
            Err(m) => web_url(url@, parsed_url(url@)) == Err::<UrlView, Seq<char>>(m@),
        },
{
    check_scheme(url, parse_url(url))
}

// ---------------------------------------------------------------------------
// Targets
// ---------------------------------------------------------------------------

/// An address that a name resolved to, and its notation.
#[derive(Debug)]
pub struct Resolved {
    /// The address.
    pub ip: IpAddr,
    /// Its notation.
    pub text: String,
}

/// Whether a name is one of the odd notations of an address as a number: digits
/// alone, or a leading `0x`.
pub open spec fn numeric_host(host: Seq<char>) -> bool {
    ||| forall|i: int| 0 <= i < host.len() ==> text::is_digit(#[trigger] host[i])
    ||| "0x"@.is_prefix_of(text::ascii_lower(host))
}

/// Whether a name is one of the odd notations of an address as a number.
fn is_numeric_host(host: &str) -> (r: bool)
    ensures
        r == numeric_host(host@),
{
    let v = to_chars(host);
    let mut all = true;
    let mut i: usize = 0;
    while i < v.len()
        invariant
            i <= v@.len(),
            v@ == host@,
            all == (forall|k: int| 0 <= k < i ==> text::is_digit(#[trigger] host@[k])),
        decreases v@.len() - i,
    {
        if v[i] < '0' || v[i] > '9' {
            assert(!text::is_digit(host@[i as int]));
            all = false;
        }
        i += 1;
    }
    let lower = ascii_lower_str(host);
    all || starts_with_str(&lower, "0x")
}

/// The index of the first address from index `i` on that is private or
/// reserved.
pub open spec fn first_disallowed(addrs: Seq<Resolved>, i: int) -> Option<int>
    decreases addrs.len() - i,
{
    if i < 0 || i >= addrs.len() {
        None
    } else if disallowed(addrs[i].ip) {
        Some(i)
    } else {
        first_disallowed(addrs, i + 1)
    }
}

/// Why a literal address is not asked.
pub open spec fn blocked_address(address: Seq<char>) -> Seq<char> {
    "URL target '"@ + address + "' is a private/reserved address (SSRF blocked)"@
}

/// Why the host of a name is not asked, given what the name resolved to.
pub open spec fn blocked_domain(
    host: Seq<char>,
    resolved: Result<Vec<Resolved>, String>,
) -> Option<Seq<char>> {
    if numeric_host(host) {
        Some(
            "URL target '"@ + host
                + "' is a non-standard numeric IP encoding (SSRF blocked)"@,
        )
    } else {
        match resolved {
            Err(e) => Some("failed to resolve host '"@ + host + "': "@ + e@),
            Ok(addrs) => match first_disallowed(addrs@, 0) {
                Some(i) => Some(
                    "URL target '"@ + host + "' resolves to private/reserved address "@
                        + addrs@[i].text@ + " (SSRF blocked)"@,
                ),
                None => if addrs@.len() == 0 {
                    Some("host '"@ + host + "' resolved to no addresses"@)
                } else {
                    None
                },
            },
        }
    }
}

/// Why the target of a URL is not asked; nothing where it may be. What the host
/// resolved to matters only where it is a name.
pub open spec fn blocked_target(
    url: UrlParts,
    resolved: Result<Vec<Resolved>, String>,
) -> Option<Seq<char>> {
    match url.host {
        None => Some("URL has no host: "@ + url.text@),
        Some(HostParts::V4(a)) => if disallowed(IpAddr::V4(a)) {
            Some(blocked_address(a.dotted()))
        } else {
            None
        },
        Some(HostParts::V6(a, t)) => if disallowed(IpAddr::V6(a)) {
            Some(blocked_address(t@))
        } else {
            None
        },
        Some(HostParts::Domain(d)) => blocked_domain(d@, resolved),
    }
}

/// The name that has to be resolved before a URL may be asked for; none where
/// the host is an address, or a name that is refused as it stands.
pub fn host_to_resolve(url: &UrlParts) -> (r: Option<String>)
    ensures
        match url.host {
            Some(HostParts::Domain(d)) => if numeric_host(d@) {
                r is None
            } else {
                r matches Some(s) && s@ == d@
            },
            _ => r is None,
        },
{
    match &url.host {
        Some(HostParts::Domain(d)) => if is_numeric_host(d) {
            None
        } else {
            Some(copy_str(d))
        },
        _ => None,
    }
}

/// Why a literal address is not asked.
fn blocked_message(address: &str) -> (r: String)
    ensures
        r@ == blocked_address(address@),
{
    let mut m = copy_str("URL target '");
    m.append(address);
    m.append("' is a private/reserved address (SSRF blocked)");
    m
}

/// Refuses a URL whose target is private or reserved. A host that is a name is
/// judged by every address that it resolved to.
pub fn assert_public_target(
    url: &UrlParts,
    resolved: &Result<Vec<Resolved>, String>,
) -> (r: Result<(), String>)
    ensures
        match r {
            Ok(_) => blocked_target(*url, *resolved) is None,
            Err(m) => blocked_target(*url, *resolved) == Some(m@),
        },
{
    match &url.host {
        None => {
            let mut m = copy_str("URL has no host: ");
            m.append(&url.text);
            Err(m)
        },
        Some(HostParts::V4(a)) => {
            if is_disallowed_ip(IpAddr::V4(*a)) {
                let t = a.to_string();
                Err(blocked_message(&t))
            } else {
                Ok(())
            }
        },
        Some(HostParts::V6(a, t)) => {
            if is_disallowed_ip(IpAddr::V6(*a)) {
                Err(blocked_message(t))
            } else {
                Ok(())
            }
        },
        Some(HostParts::Domain(host)) => {
            if is_numeric_host(host) {
                let mut m = copy_str("URL target '");
                m.append(host);
                m.append("' is a non-standard numeric IP encoding (SSRF blocked)");
                return Err(m);
            }
            match resolved {
                Err(e) => {
                    let mut m = copy_str("failed to resolve host '");
                    m.append(host);
                    m.append("': ");
                    m.append(e);
                    Err(m)
                },
                Ok(addrs) => {
                    let mut i: usize = 0;
                    while i < addrs.len()
                        invariant
                            i <= addrs@.len(),
                            url.host == Some(HostParts::Domain(*host)),
                            *resolved == Ok::<Vec<Resolved>, String>(*addrs),
                            !numeric_host(host@),
                            first_disallowed(addrs@, 0) == first_disallowed(addrs@, i as int),
                        decreases addrs@.len() - i,
                    {
                        if is_disallowed_ip(addrs[i].ip) {
                            let mut m = copy_str("URL target '");
                            m.append(host);
                            m.append("' resolves to private/reserved address ");
                            m.append(&addrs[i].text);
                            m.append(" (SSRF blocked)");
                            return Err(m);
                        }
                        i += 1;
                    }
                    if addrs.len() == 0 {
                        let mut m = copy_str("host '");
                        m.append(host);
                        m.append("' resolved to no addresses");
                        return Err(m);
                    }
                    Ok(())
                },
            }
        },
    }
}

proof fn lemma_none_disallowed(addrs: Seq<Resolved>, from: int, i: int)
    requires
        0 <= from <= i < addrs.len(),
        first_disallowed(addrs, from) is None,
    ensures
        !disallowed(addrs[i].ip),
    decreases i - from,
{
    if from < i {
        lemma_none_disallowed(addrs, from + 1, i);
    }
}

/// A target that may be asked leads to public addresses alone: the literal
/// address is public, and so is every address that a name resolved to.
pub proof fn law_public_targets_are_public(
    url: UrlParts,
    resolved: Result<Vec<Resolved>, String>,
)
    requires
        blocked_target(url, resolved) is None,
    ensures
        match url.host {
            None => false,
            Some(HostParts::V4(a)) => !disallowed(IpAddr::V4(a)),
            Some(HostParts::V6(a, _)) => !disallowed(IpAddr::V6(a)),
            Some(HostParts::Domain(_)) => resolved matches Ok(addrs) && addrs@.len() > 0
                && forall|i: int|
                0 <= i < addrs@.len() ==> !disallowed((#[trigger] addrs@[i]).ip),
        },
{
    if let Some(HostParts::Domain(_)) = url.host {
        if let Ok(addrs) = resolved {
            assert forall|i: int| 0 <= i < addrs@.len() implies !disallowed(
                (#[trigger] addrs@[i]).ip,
            ) by {
                lemma_none_disallowed(addrs@, 0, i);
            }
        }
    }
}

// ---------------------------------------------------------------------------
// The tool
// ---------------------------------------------------------------------------

/// What is done with a request.
#[derive(Debug)]
pub enum GetPlan {
    /// It fails with this message.
    Fail(String),
    /// It is sent.
    Fetch,
}

/// What is done with a request, given the URL or why it is none that may be
/// asked for, and what its host resolved to: it is sent only to a target that
/// is public.
pub fn plan_get(
    url: &Result<UrlParts, String>,
    resolved: &Result<Vec<Resolved>, String>,
) -> (r: GetPlan)
    ensures
        match *url {
            Err(e) => r matches GetPlan::Fail(m) && m@ == e@,
            Ok(u) => match blocked_target(u, *resolved) {
                Some(p) => r matches GetPlan::Fail(m) && m@ == p,
                None => r is Fetch,
            },
        },
{
    match url {
        Err(e) => GetPlan::Fail(copy_str(e)),
        Ok(u) => match assert_public_target(u, resolved) {
            Err(m) => GetPlan::Fail(m),
            Ok(_) => GetPlan::Fetch,
        },
    }
}

/// How many characters of a response are handed back.
pub const RESPONSE_MAX_CHARS: usize = 1048576;

/// A text: whole up to the limit, and else its beginning with a note.
pub open spec fn limited(s: Seq<char>) -> Seq<char> {
    if s.len() <= RESPONSE_MAX_CHARS {
        s
    } else {
        s.take(RESPONSE_MAX_CHARS as int) + limit_note()
    }
}

/// What follows a response that was cut.
pub open spec fn limit_note() -> Seq<char> {
    "\n...[truncated, response exceeded 1048576 characters]"@
}

/// A text, cut to the limit.
fn limit_response(s: String) -> (r: String)
    ensures
        r@ == limited(s@),
{
    let v = to_chars(&s);
    if v.len() <= RESPONSE_MAX_CHARS {
        return s;
    }
    let head = sub_chars(&v, 0, RESPONSE_MAX_CHARS);
    assert(head@ =~= s@.take(RESPONSE_MAX_CHARS as int));
    let mut r = from_chars(&head);
    r.append("\n...[truncated, response exceeded 1048576 characters]");
    r
}

/// How a request ended.
#[derive(Debug)]
pub enum GetOutcome {
    /// It could not be sent.
    SendFailed(String),
    /// The body of the response could not be read.
    ReadFailed(String),
    /// The response came: its status as it is shown, and its body.
    Done { status: String, body: String },
}

/// A response as a text: its status and its body.
pub open spec fn response_text(status: Seq<char>, body: Seq<char>) -> Seq<char> {
    "status: "@ + status + "\n\n"@ + body
}

/// What the tool hands back: the response, cut to the limit, or what went wrong.
pub open spec fn get_result(url: Seq<char>, outcome: GetOutcome) -> Result<Seq<char>, Seq<char>> {
    match outcome {
        GetOutcome::SendFailed(e) => Err("HTTP GET request to '"@ + url + "' failed: "@ + e@),
        GetOutcome::ReadFailed(e) => Err(
            "failed to read response body from '"@ + url + "': "@ + e@,
        ),
        GetOutcome::Done { status, body } => Ok(limited(response_text(status@, body@))),
    }
}

/// What the tool hands back of a request that was sent.
pub fn http_get(url: &str, outcome: GetOutcome) -> (r: Result<String, String>)
    ensures
        match r {
            Ok(s) => get_result(url@, outcome) == Ok::<Seq<char>, Seq<char>>(s@),
            Err(m) => get_result(url@, outcome) == Err::<Seq<char>, Seq<char>>(m@),
        },
{
    match outcome {
        GetOutcome::SendFailed(e) => {
            let mut m = copy_str("HTTP GET request to '");
            m.append(url);
            m.append("' failed: ");
            m.append(&e);
            Err(m)
        },
        GetOutcome::ReadFailed(e) => {
            let mut m = copy_str("failed to read response body from '");
            m.append(url);
            m.append("': ");
            m.append(&e);
            Err(m)
        },
        GetOutcome::Done { status, body } => {
            let mut s = copy_str("status: ");
            s.append(&status);
            s.append("\n\n");
            s.append(&body);
            Ok(limit_response(s))
        },
    }
}

/// Whatever a server sends, what is handed back of it is bounded: the limit and
/// the note, which has 53 characters. A response within the limit is handed back
/// whole.
pub proof fn law_responses_are_bounded(url: Seq<char>, status: String, body: String)
    ensures
        get_result(url, GetOutcome::Done { status, body }) matches Ok(s) && s.len()
            <= RESPONSE_MAX_CHARS + 53,
        response_text(status@, body@).len() <= RESPONSE_MAX_CHARS ==> get_result(
            url,
            GetOutcome::Done { status, body },
        ) == Ok::<Seq<char>, Seq<char>>(response_text(status@, body@)),
{
    reveal_strlit("\n...[truncated, response exceeded 1048576 characters]");
}

/// Which IPv4 addresses are never asked, by their numbers, and that all others may
/// be.
pub proof fn law_private_addresses_are_not_asked(ip: Ipv4Addr)
    ensures
        ({
            let a = ip.octets[0];
            let b = ip.octets[1];
            let c = ip.octets[2];
            disallowed(IpAddr::V4(ip)) <==> {
                ||| a == 0 || a == 10 || a == 127 || a >= 224
                ||| a == 100 && 64 <= b <= 127
                ||| a == 169 && b == 254
                ||| a == 172 && 16 <= b <= 31
                ||| a == 192 && b == 168
                ||| a == 192 && b == 0 && (c == 0 || c == 2)
                ||| a == 192 && b == 88 && c == 99
                ||| a == 198 && (b == 18 || b == 19)
                ||| a == 198 && b == 51 && c == 100
                ||| a == 203 && b == 0 && c == 113
            }
        }),
{
    let a = ip.octets[0];
    let b = ip.octets[1];
    let c = ip.octets[2];
    let d = ip.octets[3];
    assert(ip.value() == a * 0x100_0000 + b * 0x1_0000 + c * 0x100 + d);
}

/// Which IPv6 addresses are never asked: the unspecified one, loopback, unique
/// local, link-local, multicast, and those that carry an IPv4 address behind a
/// prefix; one that maps an IPv4 address is judged by that, and all others may be
/// asked.
pub proof fn law_private_v6_addresses_are_not_asked(ip: Ipv6Addr, v4: Ipv4Addr)
    requires
        v4.octets[0] == ip.segments[6] / 256,
        v4.octets[1] == ip.segments[6] % 256,
        v4.octets[2] == ip.segments[7] / 256,
        v4.octets[3] == ip.segments[7] % 256,
    ensures
        ({
            let s = ip.segments;
            let zeros = s[0] == 0 && s[1] == 0 && s[2] == 0 && s[3] == 0 && s[4] == 0;
            let mapped = zeros && s[5] == 0xffff;
            &&& mapped ==> disallowed(IpAddr::V6(ip)) == disallowed(IpAddr::V4(v4))
            &&& !mapped ==> (disallowed(IpAddr::V6(ip)) <==> {
                ||| zeros && s[5] == 0 && s[6] == 0 && s[7] <= 1
                ||| s[0] / 0x200 == 0x7e
                ||| s[0] / 0x40 == 0x3fa
                ||| s[0] / 0x100 == 0xff
                ||| s[0] == 0x64 && s[1] == 0xff9b && s[2] == 0
            })
        }),
{
    let s = ip.segments;
    assert(v4.value() == s[6] as nat * 0x1_0000 + s[7] as nat);
    if forall|i: int| 0 <= i < 7 ==> s[i] == 0 {
        assert(s[0] == 0 && s[1] == 0 && s[2] == 0 && s[3] == 0 && s[4] == 0 && s[5] == 0 && s[6]
            == 0);
    }
}

/// Public targets are asked: an address that is public, and a name that is no
/// number and resolved to public addresses alone, at least to one.
pub proof fn law_public_targets_are_asked(url: UrlParts, resolved: Result<Vec<Resolved>, String>)
    ensures
        url.host matches Some(HostParts::V4(a)) && !disallowed(IpAddr::V4(a)) ==> blocked_target(
            url,
            resolved,
        ) is None,
        url.host matches Some(HostParts::V6(a, _)) && !disallowed(IpAddr::V6(a))
            ==> blocked_target(url, resolved) is None,
        (url.host matches Some(HostParts::Domain(d)) && exists|i: int|
            0 <= i < d@.len() && !text::is_digit(#[trigger] d@[i])) && !(
        url.host matches Some(HostParts::Domain(d)) && d@.len() >= 2 && d@[0] == '0' && (d@[1]
            == 'x' || d@[1] == 'X')) && (resolved matches Ok(addrs) && addrs@.len() > 0
            && forall|i: int| 0 <= i < addrs@.len() ==> !disallowed(#[trigger] addrs@[i].ip))
            ==> blocked_target(url, resolved) is None,
{
    reveal_strlit("0x");
    if let Some(HostParts::Domain(d)) = url.host {
        let lower = text::ascii_lower(d@);
        assert("0x"@.is_prefix_of(lower) ==> lower.len() >= 2 && lower[0] == '0' && lower[1]
            == 'x') by {
            if "0x"@.is_prefix_of(lower) {
                assert(lower.subrange(0, 2)[0] == lower[0]);
                assert(lower.subrange(0, 2)[1] == lower[1]);
                assert("0x"@[0] == '0' && "0x"@[1] == 'x');
            }
        }
        if let Ok(addrs) = resolved {
            lemma_first_disallowed(addrs@, 0);
        }
    }
}

proof fn lemma_first_disallowed(addrs: Seq<Resolved>, i: int)
    requires
        0 <= i,
    ensures
        first_disallowed(addrs, i) matches Some(k) ==> i <= k < addrs.len() && disallowed(
            addrs[k].ip,
        ),
    decreases addrs.len() - i,
{
    if i < addrs.len() && !disallowed(addrs[i].ip) {
        lemma_first_disallowed(addrs, i + 1);
    }
}

/// A response is handed back as it came: its status and, after an empty line, its
/// body, whole as long as both stay within the limit, and else as much of it from
/// the beginning as the limit allows. What went wrong is told with the URL and the
/// cause.
pub proof fn law_responses_are_handed_back(url: Seq<char>, status: String, body: String, e: String)
    ensures
        ({
            let whole = "status: "@ + status@ + "\n\n"@ + body@;
            let r = get_result(url, GetOutcome::Done { status, body });
            &&& r is Ok
            &&& whole.len() <= 1048576 ==> r->Ok_0 == whole
            &&& whole.len() > 1048576 ==> r->Ok_0.take(1048576) == whole.take(1048576)
        }),
        get_result(url, GetOutcome::SendFailed(e)) matches Err(m) && text::holds(m, url)
            && text::holds(m, e@),
        get_result(url, GetOutcome::ReadFailed(e)) matches Err(m) && text::holds(m, url)
            && text::holds(m, e@),
{
    let none = Seq::<char>::empty();
    let whole = "status: "@ + status@ + "\n\n"@ + body@;
    if whole.len() > 1048576 {
        assert(limited(whole).take(1048576) =~= whole.take(1048576));
    }
    let a = "HTTP GET request to '"@;
    let b = "' failed: "@;
    assert(a + url + b + e@ =~= a + url + (b + e@));
    assert(a + url + b + e@ =~= (a + url + b) + e@ + none);
    let c = "failed to read response body from '"@;
    let d = "': "@;
    assert(c + url + d + e@ =~= c + url + (d + e@));
    assert(c + url + d + e@ =~= (c + url + d) + e@ + none);
}

/// What may be asked for: a URL of the web, as it is; nothing else.
pub proof fn law_only_the_web_is_asked(url: Seq<char>, parsed: Result<UrlView, Seq<char>>)
    ensures
        web_url(url, parsed) is Ok <==> (parsed matches Ok(u) && (u.scheme == "http"@ || u.scheme
            == "https"@)),
        web_url(url, parsed) is Ok ==> web_url(url, parsed) == parsed,
        web_url(url, parsed) matches Err(m) ==> text::holds(m, url),
{
    let none = Seq::<char>::empty();
    let a = "only http/https URLs are allowed, got: "@;
    assert(a + url =~= a + url + none);
    if let Err(e) = parsed {
        let b = "invalid URL '"@;
        assert(b + url + "': "@ + e =~= b + url + ("': "@ + e));
    }
}

/// What stands before the first full stop is told from what stands behind it.
proof fn lemma_first_stop(x: Seq<char>, r: Seq<char>, y: Seq<char>, s: Seq<char>)
    requires
        forall|i: int| 0 <= i < x.len() ==> text::is_digit(#[trigger] x[i]),
        forall|i: int| 0 <= i < y.len() ==> text::is_digit(#[trigger] y[i]),
        x + seq!['.'] + r == y + seq!['.'] + s,
    ensures
        x == y,
        r == s,
{
    let t = x + seq!['.'] + r;
    assert(t[x.len() as int] == '.');
    assert(t[y.len() as int] == '.');
    if x.len() < y.len() {
        assert(t[x.len() as int] == y[x.len() as int]);
    }
    if y.len() < x.len() {
        assert(t[y.len() as int] == x[y.len() as int]);
    }
    assert(x =~= t.take(x.len() as int));
    assert(y =~= t.take(y.len() as int));
    assert(r =~= t.skip(1int + x.len()));
    assert(s =~= t.skip(1int + y.len()));
}

/// Two addresses that are written alike are the same address.
pub proof fn law_addresses_are_told_apart(a: Ipv4Addr, b: Ipv4Addr)
    requires
        a.dotted() == b.dotted(),
    ensures
        a.octets == b.octets,
{
    reveal_strlit(".");
    let stop = seq!['.'];
    assert("."@ =~= stop);
    let (a0, a1, a2, a3) = (
        text::decimal(a.octets[0] as nat),
        text::decimal(a.octets[1] as nat),
        text::decimal(a.octets[2] as nat),
        text::decimal(a.octets[3] as nat),
    );
    let (b0, b1, b2, b3) = (
        text::decimal(b.octets[0] as nat),
        text::decimal(b.octets[1] as nat),
        text::decimal(b.octets[2] as nat),
        text::decimal(b.octets[3] as nat),
    );
    lemma_decimal_digits(a.octets[0] as nat);
    lemma_decimal_digits(a.octets[1] as nat);
    lemma_decimal_digits(a.octets[2] as nat);
    lemma_decimal_digits(b.octets[0] as nat);
    lemma_decimal_digits(b.octets[1] as nat);
    lemma_decimal_digits(b.octets[2] as nat);
    assert(a.dotted() =~= a0 + stop + (a1 + stop + (a2 + stop + a3)));
    assert(b.dotted() =~= b0 + stop + (b1 + stop + (b2 + stop + b3)));
    lemma_first_stop(a0, a1 + stop + (a2 + stop + a3), b0, b1 + stop + (b2 + stop + b3));
    lemma_first_stop(a1, a2 + stop + a3, b1, b2 + stop + b3);
    lemma_first_stop(a2, a3, b2, b3);
    text::law_decimals_differ(a.octets[0] as nat, b.octets[0] as nat);
    text::law_decimals_differ(a.octets[1] as nat, b.octets[1] as nat);
    text::law_decimals_differ(a.octets[2] as nat, b.octets[2] as nat);
    text::law_decimals_differ(a.octets[3] as nat, b.octets[3] as nat);
    assert(a.octets@ =~= b.octets@);
    assert(a.octets =~= b.octets);
}

proof fn lemma_decimal_digits(n: nat)
    ensures
        forall|i: int| 0 <= i < text::decimal(n).len() ==> text::is_digit(
            #[trigger] text::decimal(n)[i],
        ),
    decreases n,
{
    if n >= 10 {
        lemma_decimal_digits(n / 10);
        let shorter = text::decimal(n / 10);
        assert forall|i: int| 0 <= i < text::decimal(n).len() implies text::is_digit(
            #[trigger] text::decimal(n)[i],
        ) by {
            if i < shorter.len() {
                assert(text::decimal(n)[i] == shorter[i]);
            }
        }
    }
}

/// A number is no host name, in decimal notation or behind `0x`; a name with another
/// character than a digit is one.
pub proof fn law_numbers_are_no_host_names(n: nat, rest: Seq<char>, host: Seq<char>, i: int)
    ensures
        numeric_host(text::decimal(n)),
        numeric_host(seq!['0', 'x'] + rest),
        numeric_host(seq!['0', 'X'] + rest),
        0 <= i < host.len() && !text::is_digit(host[i]) && !(host.len() >= 2 && host[0] == '0' && (
        host[1] == 'x' || host[1] == 'X')) ==> !numeric_host(host),
{
    reveal_strlit("0x");
    lemma_decimal_digits(n);
    let lower = text::ascii_lower(seq!['0', 'x'] + rest);
    let upper = text::ascii_lower(seq!['0', 'X'] + rest);
    assert("0x"@ =~= lower.subrange(0, 2));
    assert("0x"@ =~= upper.subrange(0, 2));
    if "0x"@.is_prefix_of(text::ascii_lower(host)) {
        let t = text::ascii_lower(host);
        assert("0x"@[0] == t.subrange(0, 2)[0]);
        assert("0x"@[1] == t.subrange(0, 2)[1]);
        assert(t[0] == '0');
        assert(t[1] == 'x');
    }
}

/// A refusal names the address that it is about, and says why.
pub proof fn law_refused_addresses_are_named(address: Seq<char>)
    ensures
        text::holds(blocked_address(address), address),
        text::holds(blocked_address(address), "private/reserved address"@),
{
    reveal_strlit("' is a private/reserved address (SSRF blocked)");
    reveal_strlit("private/reserved address");
    let head = "URL target '"@;
    let tail = "' is a private/reserved address (SSRF blocked)"@;
    text::lemma_holds_ends(head, address);
    text::lemma_holds_on(head + address, tail, address);
    let n = "private/reserved address"@.len() as int;
    assert(tail =~= tail.take(7) + "private/reserved address"@ + tail.skip(7 + n));
    assert(text::holds(tail, "private/reserved address"@));
    text::lemma_holds_on(tail, head + address, "private/reserved address"@);
}

} // verus!
