//! Which addresses the service may reach on behalf of a caller.
//!
//! Token-list URLs come from callers and are fetched by the service, so they
//! must not lead into private networks. A URL is checked before it is fetched,
//! every name is resolved to public addresses only, and redirects are bounded
//! and refused where they name a private address.
use crate::services::ip_literal::{dotted, law_dotted_is_injective, read_dotted};
use crate::text::{joined, reads};
use vstd::arithmetic::power2::{lemma2_to64, lemma_pow2_pos, pow2};
use vstd::prelude::*;
use vstd::string::*;

verus! {

/// Redirects that are followed at most.
pub const MAX_REDIRECT_HOPS: usize = 5;

/// An IP address: four bytes, or eight 16-bit segments.
#[derive(Clone, Copy, Debug, PartialEq, Eq)]
pub enum IpAddr {
    V4([u8; 4]),
    V6([u16; 8]),
}

/// What a URL says of where it leads.
#[derive(Debug)]
pub struct ParsedUrl {
    pub scheme: String,
    /// The host as written in the URL, brackets of an IPv6 literal included.
    pub host: Option<String>,
    /// The host's address, if the URL's scheme makes it one.
    pub ip: Option<IpAddr>,
}

pub struct UrlParts {
    pub scheme: Seq<char>,
    pub host: Option<Seq<char>>,
    pub ip: Option<IpAddr>,
}

impl View for ParsedUrl {
    type V = UrlParts;

    open spec fn view(&self) -> UrlParts {
        UrlParts {
            scheme: self.scheme@,
            host: match self.host {
                Some(host) => Some(host@),
                None => None,
            },
            ip: self.ip,
        }
    }
}

/// What parsing a URL yields: its parts, or why it is none.
pub uninterp spec fn parsed_url(raw: Seq<char>) -> Result<UrlParts, Seq<char>>;

/// A parse result by the views of what it holds.
pub open spec fn parse_view(parsed: Result<ParsedUrl, String>) -> Result<UrlParts, Seq<char>> {
    match parsed {
        Ok(url) => Ok(url@),
        Err(error) => Err(error@),
    }
}

/// Parses a URL with `reqwest::Url::parse`. The result is the scheme, the host
/// text and, where the parser took the host for an IP address, that address;
/// for text that is no URL, the parser's message. It depends on the text alone.
#[verifier::external_body]
fn parse_url(raw: &str) -> (parsed: Result<ParsedUrl, String>)
    ensures
        parse_view(parsed) == parsed_url(raw@),
{
    let url = reqwest::Url::parse(raw).map_err(|error| error.to_string())?;
    let ip = match url.host() {
        Some(url::Host::Ipv4(address)) => Some(IpAddr::V4(address.octets())),
        Some(url::Host::Ipv6(address)) => Some(IpAddr::V6(address.segments())),
        Some(url::Host::Domain(_)) | None => None,
    };
    let host = url.host_str().map(|host| host.to_string());
    Ok(ParsedUrl { scheme: url.scheme().to_string(), host, ip })
}

/// An IPv4 address that is routed publicly: none of the ranges that are set
/// aside for other uses.
pub open spec fn public_v4(a: u8, b: u8, c: u8, d: u8) -> bool {
    // "this network" and the unspecified address, private, loopback
    &&& a != 0 && a != 10 && a != 127
    // shared address space of carriers
    &&& !(a == 100 && 64 <= b <= 127)
    // link local, where metadata services live
    &&& !(a == 169 && b == 254)
    // private
    &&& !(a == 172 && 16 <= b <= 31)
    &&& !(a == 192 && b == 168)
    // protocol assignments
    &&& !(a == 192 && b == 0 && c == 0)
    // benchmarking
    &&& !(a == 198 && 18 <= b <= 19)
    // documentation
    &&& !(a == 192 && b == 0 && c == 2)
    &&& !(a == 198 && b == 51 && c == 100)
    &&& !(a == 203 && b == 0 && c == 113)
    // multicast, reserved and broadcast
    &&& a < 224
}

/// `::ffff:a.b.c.d`
pub open spec fn is_v4_mapped(s: [u16; 8]) -> bool {
    s[0] == 0 && s[1] == 0 && s[2] == 0 && s[3] == 0 && s[4] == 0 && s[5] == 0xffff
}

/// An IPv6 address that is routed publicly. A mapped IPv4 address is routed as
/// the address it maps.
pub open spec fn public_v6(s: [u16; 8]) -> bool {
    if is_v4_mapped(s) {
        public_v4(
            (s[6] / 256) as u8,
            (s[6] % 256) as u8,
            (s[7] / 256) as u8,
            (s[7] % 256) as u8,
        )
    } else {
        // unspecified and loopback
        &&& !(s[0] == 0 && s[1] == 0 && s[2] == 0 && s[3] == 0 && s[4] == 0 && s[5] == 0 && s[6]
            == 0 && s[7] <= 1)
        // unique local
        &&& !(0xfc00 <= s[0] <= 0xfdff)
        // link local
        &&& !(0xfe80 <= s[0] <= 0xfebf)
        // multicast
        &&& s[0] < 0xff00
        // documentation
        &&& !(s[0] == 0x2001 && s[1] == 0xdb8)
        // benchmarking
        &&& !(s[0] == 0x2001 && s[1] == 2 && s[2] == 0)
    }
}

pub open spec fn public_ip(ip: IpAddr) -> bool {
    match ip {
        IpAddr::V4(o) => public_v4(o[0], o[1], o[2], o[3]),
        IpAddr::V6(s) => public_v6(s),
    }
}

/// The text is that of an IPv4 address that is not routed publicly.
pub open spec fn reads_private_v4(host: Seq<char>) -> bool {
    exists|a: u8, b: u8, c: u8, d: u8|
        host == #[trigger] dotted(a, b, c, d) && !public_v4(a, b, c, d)
}

/// The host is an IP literal that is not routed publicly. Under schemes that
/// leave hosts uninterpreted its text decides.
pub open spec fn has_private_literal(url: UrlParts) -> bool {
    match url.ip {
        Some(ip) => !public_ip(ip),
        None => url.host is Some && reads_private_v4(url.host->0),
    }
}

/// Why a URL must not be fetched, if so.
pub open spec fn refusal(
    parsed: Result<UrlParts, Seq<char>>,
    allow_private_hosts: bool,
) -> Option<Seq<char>> {
    match parsed {
        Err(error) => Some("invalid url: "@ + error),
        Ok(url) => if url.scheme != "http"@ && url.scheme != "https"@ {
            Some("scheme '"@ + url.scheme + "' is not allowed, use http(s)"@)
        } else if url.host is None {
            Some("url has no host"@)
        } else if !allow_private_hosts && has_private_literal(url) {
            Some("host "@ + url.host->0 + " is not a public address"@)
        } else {
            None
        },
    }
}

fn is_public_ipv4(octets: [u8; 4]) -> (r: bool)
    ensures
        r == public_v4(octets[0], octets[1], octets[2], octets[3]),
{
    let a: u8 = octets[0];
    let b: u8 = octets[1];
    let c: u8 = octets[2];
    !(a == 0 || a == 10 || a == 127 || (a == 100 && b >= 64 && b <= 127) || (a == 169 && b == 254)
        || (a == 172 && b >= 16 && b <= 31) || (a == 192 && b == 168) || (a == 192 && b == 0 && c
        == 0) || (a == 198 && b >= 18 && b <= 19) || (a == 192 && b == 0 && c == 2) || (a == 198
        && b == 51 && c == 100) || (a == 203 && b == 0 && c == 113) || a >= 224)
}

fn is_public_ipv6(segments: [u16; 8]) -> (r: bool)
    ensures
        r == public_v6(segments),
{
    let zeros = segments[0] == 0 && segments[1] == 0 && segments[2] == 0 && segments[3] == 0
        && segments[4] == 0;
    if zeros && segments[5] == 0xffff {
        let octets: [u8; 4] = [
            (segments[6] / 256) as u8,
            (segments[6] % 256) as u8,
            (segments[7] / 256) as u8,
            (segments[7] % 256) as u8,
        ];
        return is_public_ipv4(octets);
    }
    !((zeros && segments[5] == 0 && segments[6] == 0 && segments[7] <= 1) || (segments[0] >= 0xfc00
        && segments[0] <= 0xfdff) || (segments[0] >= 0xfe80 && segments[0] <= 0xfebf)
        || segments[0] >= 0xff00 || (segments[0] == 0x2001 && segments[1] == 0xdb8) || (segments[0]
        == 0x2001 && segments[1] == 2 && segments[2] == 0))
}

/// Whether `ip` is routed publicly.
pub fn is_public_ip(ip: IpAddr) -> (r: bool)
    ensures
        r == public_ip(ip),
{
    match ip {
        IpAddr::V4(octets) => is_public_ipv4(octets),
        IpAddr::V6(segments) => is_public_ipv6(segments),
    }
}

/// The address that a URL's host is, if it is an IP literal.
fn ip_literal(url: &ParsedUrl) -> (ip: Option<IpAddr>)
    ensures
        has_private_literal(url@) == (ip is Some && !public_ip(ip->0)),
{
    match (&url.ip, &url.host) {
        (Some(ip), _) => Some(*ip),
        (None, Some(host)) => match read_dotted(host.as_str()) {
            Some((a, b, c, d)) => {
                proof {
                    assert forall|p: u8, q: u8, r: u8, s: u8| host@ == #[trigger] dotted(
                        p,
                        q,
                        r,
                        s,
                    ) implies p == a && q == b && r == c && s == d by {
                        law_dotted_is_injective(a, b, c, d, p, q, r, s);
                    }
                }
                Some(IpAddr::V4([a, b, c, d]))
            },
            None => None,
        },
        (None, None) => None,
    }
}

fn is_private(ip: Option<IpAddr>) -> (r: bool)
    ensures
        r == (ip is Some && !public_ip(ip->0)),
{
    match ip {
        Some(address) => !is_public_ip(address),
        None => false,
    }
}

/// Decides on a URL that has been parsed.
pub fn check_url(
    parsed: Result<ParsedUrl, String>,
    allow_private_hosts: bool,
) -> (outcome: Result<(), String>)
    ensures
        outcome is Ok <==> refusal(parse_view(parsed), allow_private_hosts) is None,
        outcome matches Err(reason) ==> Some(reason@) == refusal(
            parse_view(parsed),
            allow_private_hosts,
        ),
{
    match parsed {
        Err(error) => Err(joined("invalid url: ", error.as_str())),
        Ok(url) => {
            if !reads(&url.scheme, "http") && !reads(&url.scheme, "https") {
                let mut reason = joined("scheme '", url.scheme.as_str());
                reason.append("' is not allowed, use http(s)");
                return Err(reason);
            }
            let private = is_private(ip_literal(&url));
            match url.host {
                None => Err(String::from_str("url has no host")),
                Some(host) => {
                    if !allow_private_hosts && private {
                        let mut reason = joined("host ", host.as_str());
                        reason.append(" is not a public address");
                        return Err(reason);
                    }
                    Ok(())
                },
            }
        },
    }
}

/// Checks a caller's token-list URL before anything is sent: it must be an
/// HTTP URL with a host, and where private hosts are not allowed an IP literal
/// must be public. Names are not resolved here.
pub fn validate_url(raw_url: &str, allow_private_hosts: bool) -> (outcome: Result<(), String>)
    ensures
        outcome is Ok <==> refusal(parsed_url(raw_url@), allow_private_hosts) is None,
        outcome matches Err(reason) ==> Some(reason@) == refusal(
            parsed_url(raw_url@),
            allow_private_hosts,
        ),
{
    check_url(parse_url(raw_url), allow_private_hosts)
}

/// Resolves names to public addresses only.
pub struct PublicOnlyDnsResolver;

impl PublicOnlyDnsResolver {
    /// The public ones of the addresses that `host` resolved to, in order. A
    /// name without any does not resolve.
    pub fn keep_public(&self, host: &str, resolved: &Vec<IpAddr>) -> (outcome: Result<
        Vec<IpAddr>,
        String,
    >)
        ensures
            ({
                let public = resolved@.filter(|ip: IpAddr| public_ip(ip));
                match outcome {
                    Ok(kept) => {
                        &&& public.len() > 0
                        &&& kept@ == public
                        &&& forall|i: int| 0 <= i < kept@.len() ==> public_ip(#[trigger] kept@[i])
                        &&& forall|i: int|
                            0 <= i < resolved@.len() && public_ip(#[trigger] resolved@[i])
                                ==> kept@.contains(resolved@[i])
                    },
                    Err(reason) => public.len() == 0 && reason@ == "host "@ + host@
                        + " does not resolve to any public address"@,
                }
            }),
    {
        let mut kept: Vec<IpAddr> = Vec::new();
        let mut i: usize = 0;
        let ghost is_public = |ip: IpAddr| public_ip(ip);
        assert(resolved@.take(0).filter(is_public) =~= Seq::<IpAddr>::empty()) by {
            reveal(Seq::filter);
        }
        while i < resolved.len()
            invariant
                i <= resolved@.len(),
                is_public == (|ip: IpAddr| public_ip(ip)),
                kept@ == resolved@.take(i as int).filter(is_public),
                forall|j: int| 0 <= j < kept@.len() ==> public_ip(#[trigger] kept@[j]),
            decreases resolved@.len() - i,
        {
            let ip = resolved[i];
            proof {
                reveal(Seq::filter);
                assert(resolved@.take(i + 1).drop_last() =~= resolved@.take(i as int));
                assert(resolved@.take(i + 1).last() == ip);
            }
            if is_public_ip(ip) {
                kept.push(ip);
            }
            i = i + 1;
        }
        assert(resolved@.take(i as int) =~= resolved@);
        if kept.len() == 0 {
            let mut reason = joined("host ", host);
            reason.append(" does not resolve to any public address");
            return Err(reason);
        }
        proof {
            assert forall|j: int| 0 <= j < resolved@.len() && public_ip(
                #[trigger] resolved@[j],
            ) implies kept@.contains(resolved@[j]) by {
                resolved@.lemma_filter_contains(is_public, j);
            }
        }
        Ok(kept)
    }
}

/// What to do about a redirect.
#[derive(Debug)]
pub enum RedirectDecision {
    Follow,
    Refuse(&'static str),
}

/// Why a redirect is refused after `previous` requests, if it is. A target
/// that is no URL has no host to object to.
pub open spec fn redirect_refusal(
    previous: usize,
    target: Result<UrlParts, Seq<char>>,
    allow_private_hosts: bool,
) -> Option<Seq<char>> {
    if previous > MAX_REDIRECT_HOPS {
        Some("too many redirects"@)
    } else if !allow_private_hosts && target is Ok && has_private_literal(target->Ok_0) {
        Some("redirect to a non-public address is not allowed"@)
    } else {
        None
    }
}

/// Decides on a redirect whose target has been parsed.
pub fn check_redirect(
    previous: usize,
    target: Result<ParsedUrl, String>,
    allow_private_hosts: bool,
) -> (decision: RedirectDecision)
    ensures
        match decision {
            RedirectDecision::Follow => redirect_refusal(
                previous,
                parse_view(target),
                allow_private_hosts,
            ) is None,
            RedirectDecision::Refuse(reason) => redirect_refusal(
                previous,
                parse_view(target),
                allow_private_hosts,
            ) == Some(reason@),
        },
{
    if previous > MAX_REDIRECT_HOPS {
        return RedirectDecision::Refuse("too many redirects");
    }
    let private = match &target {
        Ok(url) => is_private(ip_literal(url)),
        Err(_) => false,
    };
    if !allow_private_hosts && private {
        return RedirectDecision::Refuse("redirect to a non-public address is not allowed");
    }
    RedirectDecision::Follow
}

/// Bounds the number of redirects and refuses those to private IP literals,
/// which no resolver would see. Names are safe to follow: they are resolved to
/// public addresses only.
pub fn redirect_policy(
    previous: usize,
    target: &str,
    allow_private_hosts: bool,
) -> (decision: RedirectDecision)
    ensures
        match decision {
            RedirectDecision::Follow => redirect_refusal(
                previous,
                parsed_url(target@),
                allow_private_hosts,
            ) is None,
            RedirectDecision::Refuse(reason) => redirect_refusal(
                previous,
                parsed_url(target@),
                allow_private_hosts,
            ) == Some(reason@),
        },
{
    check_redirect(previous, parse_url(target), allow_private_hosts)
}

/// A mapped IPv4 address is classified as the address it maps.
pub proof fn law_mapped_address_counts_as_v4(a: u8, b: u8, c: u8, d: u8, s: [u16; 8])
    requires
        is_v4_mapped(s),
        s[6] == a * 256 + b,
        s[7] == c * 256 + d,
    ensures
        public_ip(IpAddr::V6(s)) == public_v4(a, b, c, d),
{
}

/// A URL whose host is a private IP literal is never accepted, and its scheme
/// is checked whether or not private hosts are allowed.
pub proof fn law_private_literals_and_foreign_schemes_are_refused(
    url: UrlParts,
    allow_private_hosts: bool,
)
    ensures
        !allow_private_hosts && has_private_literal(url) ==> refusal(
            Ok(url),
            allow_private_hosts,
        ) is Some,
        url.scheme != "http"@ && url.scheme != "https"@ ==> refusal(Ok(url), allow_private_hosts)
            is Some,
        refusal(Ok(url), false) is None ==> refusal(Ok(url), true) is None,
{
}

/// The 32-bit number that the four bytes of an IPv4 address denote.
pub open spec fn v4_value(a: u8, b: u8, c: u8, d: u8) -> nat {
    (a * 0x100_0000 + b * 0x1_0000 + c * 0x100 + d) as nat
}

/// Two 32-bit numbers agree in their first `length` bits.
pub open spec fn same_prefix(value: nat, prefix: nat, length: nat) -> bool
    recommends
        length <= 32,
{
    value / pow2((32 - length) as nat) == prefix / pow2((32 - length) as nat)
}

proof fn lemma_prefix_by_size(value: nat, prefix: nat, length: nat, size: nat)
    requires
        length <= 32,
        size == pow2((32 - length) as nat),
        prefix % size == 0,
    ensures
        same_prefix(value, prefix, length) <==> prefix <= value < prefix + size,
{
    lemma_pow2_pos((32 - length) as nat);
    let v = value / size;
    let p = prefix / size;
    assert(value == size * v + value % size && 0 <= value % size < size && prefix == size * p)
        by (nonlinear_arith)
        requires
            size > 0,
            v == value / size,
            p == prefix / size,
            prefix % size == 0,
    ;
    assert(v == p <==> size * p <= value < size * p + size) by (nonlinear_arith)
        requires
            value == size * v + value % size,
            0 <= value % size < size,
    ;
}

/// An IPv4 address is routed publicly if and only if it lies in none of the
/// blocks that are set aside, each given by its first address and the length of
/// its prefix.
pub proof fn law_only_blocks_set_aside_are_not_public(a: u8, b: u8, c: u8, d: u8)
    ensures
        ({
            let value = v4_value(a, b, c, d);
            !public_v4(a, b, c, d) <==> {
                ||| same_prefix(value, 0x0000_0000, 8)
                ||| same_prefix(value, 0x0a00_0000, 8)
                ||| same_prefix(value, 0x6440_0000, 10)
                ||| same_prefix(value, 0x7f00_0000, 8)
                ||| same_prefix(value, 0xa9fe_0000, 16)
                ||| same_prefix(value, 0xac10_0000, 12)
                ||| same_prefix(value, 0xc000_0000, 24)
                ||| same_prefix(value, 0xc000_0200, 24)
                ||| same_prefix(value, 0xc0a8_0000, 16)
                ||| same_prefix(value, 0xc612_0000, 15)
                ||| same_prefix(value, 0xc633_6400, 24)
                ||| same_prefix(value, 0xcb00_7100, 24)
                ||| same_prefix(value, 0xe000_0000, 4)
                ||| same_prefix(value, 0xf000_0000, 4)
            }
        }),
{
    lemma2_to64();
    let value = v4_value(a, b, c, d);
    lemma_prefix_by_size(value, 0x0000_0000, 8, 0x100_0000);
    lemma_prefix_by_size(value, 0x0a00_0000, 8, 0x100_0000);
    lemma_prefix_by_size(value, 0x6440_0000, 10, 0x40_0000);
    lemma_prefix_by_size(value, 0x7f00_0000, 8, 0x100_0000);
    lemma_prefix_by_size(value, 0xa9fe_0000, 16, 0x1_0000);
    lemma_prefix_by_size(value, 0xac10_0000, 12, 0x10_0000);
    lemma_prefix_by_size(value, 0xc000_0000, 24, 0x100);
    lemma_prefix_by_size(value, 0xc000_0200, 24, 0x100);
    lemma_prefix_by_size(value, 0xc0a8_0000, 16, 0x1_0000);
    lemma_prefix_by_size(value, 0xc612_0000, 15, 0x2_0000);
    lemma_prefix_by_size(value, 0xc633_6400, 24, 0x100);
    lemma_prefix_by_size(value, 0xcb00_7100, 24, 0x100);
    lemma_prefix_by_size(value, 0xe000_0000, 4, 0x1000_0000);
    lemma_prefix_by_size(value, 0xf000_0000, 4, 0x1000_0000);
}

/// An address whose first byte has no block set aside is public, whatever
/// follows.
pub proof fn law_ordinary_first_bytes_are_public(a: u8, b: u8, c: u8, d: u8)
    requires
        1 <= a <= 9 || 11 <= a <= 99 || 101 <= a <= 126 || 128 <= a <= 168 || 170 <= a <= 171 || 173
            <= a <= 191 || 193 <= a <= 197 || 199 <= a <= 202 || 204 <= a <= 223,
    ensures
        public_v4(a, b, c, d),
        public_ip(IpAddr::V4([a, b, c, d])),
{
}

/// An IPv6 address that maps no IPv4 address is routed publicly if and only if
/// it is neither the unspecified address nor the loopback address and its
/// leading bits are not those of a block that is set aside: seven for unique
/// local addresses, ten for link-local ones, eight for multicast, 32 for
/// documentation and 48 for benchmarking.
pub proof fn law_only_v6_blocks_set_aside_are_not_public(s: [u16; 8])
    requires
        !(s[0] == 0 && s[1] == 0 && s[2] == 0 && s[3] == 0 && s[4] == 0 && s[5] == 0xffff),
    ensures
        !public_ip(IpAddr::V6(s)) <==> {
            ||| (forall|i: int| 0 <= i < 7 ==> #[trigger] s@[i] == 0) && (s[7] == 0 || s[7] == 1)
            ||| s[0] / 0x200 == 0xfc00u16 / 0x200
            ||| s[0] / 0x40 == 0xfe80u16 / 0x40
            ||| s[0] / 0x100 == 0xff00u16 / 0x100
            ||| s[0] * 0x1_0000 + s[1] == 0x2001_0db8
            ||| s[0] * 0x1_0000_0000 + s[1] * 0x1_0000 + s[2] == 0x2001_0002_0000
        },
{
    assert(s[0] == s@[0] && s[1] == s@[1] && s[2] == s@[2] && s[3] == s@[3]);
    assert(s[4] == s@[4] && s[5] == s@[5] && s[6] == s@[6]);
}

/// An IPv6 address that maps an IPv4 address is routed publicly if and only if
/// that address is.
pub proof fn law_mapped_v6_is_routed_as_v4(s: [u16; 8], o: [u8; 4])
    requires
        s[0] == 0 && s[1] == 0 && s[2] == 0 && s[3] == 0 && s[4] == 0 && s[5] == 0xffff,
        s[6] * 0x1_0000 + s[7] == v4_value(o[0], o[1], o[2], o[3]),
    ensures
        public_ip(IpAddr::V6(s)) <==> public_ip(IpAddr::V4(o)),
        public_ip(IpAddr::V4(o)) <==> public_v4(o[0], o[1], o[2], o[3]),
{
    assert(s[6] == o[0] * 256 + o[1]);
    assert(s[7] == o[2] * 256 + o[3]);
}

/// A host is a private literal if and only if its address is not public. Where
/// it has none, its text decides: four decimal numbers with dots between them
/// count as the address they write, and any other text as a name.
pub proof fn law_private_literal_is_a_private_address(url: UrlParts, a: u8, b: u8, c: u8, d: u8)
    ensures
        url.ip matches Some(ip) ==> (has_private_literal(url) <==> !public_ip(ip)),
        url.ip is None && url.host is None ==> !has_private_literal(url),
        url.ip is None && url.host == Some(dotted(a, b, c, d)) ==> (has_private_literal(url)
            <==> !public_v4(a, b, c, d)),
        url.ip is None && (url.host matches Some(host) && forall|p: u8, q: u8, r: u8, t: u8|
            host != #[trigger] dotted(p, q, r, t)) ==> !has_private_literal(url),
{
    if url.ip is None && url.host == Some(dotted(a, b, c, d)) {
        assert forall|p: u8, q: u8, r: u8, t: u8| dotted(a, b, c, d) == #[trigger] dotted(
            p,
            q,
            r,
            t,
        ) implies p == a && q == b && r == c && t == d by {
            law_dotted_is_injective(a, b, c, d, p, q, r, t);
        }
    }
}

/// A URL may be fetched if and only if it parses, is an HTTP URL, has a host
/// and that is no private literal, which is let pass where private hosts are
/// allowed.
pub proof fn law_accepted_urls(parsed: Result<UrlParts, Seq<char>>, allow_private_hosts: bool)
    ensures
        parsed is Err ==> refusal(parsed, allow_private_hosts) is Some,
        parsed matches Ok(url) ==> (refusal(parsed, allow_private_hosts) is None <==> (url.scheme
            == "http"@ || url.scheme == "https"@) && url.host is Some && (allow_private_hosts
            || !has_private_literal(url))),
{
}

/// A redirect is followed if and only if at most five requests came before it
/// and its target is no private literal, which is let pass where private hosts
/// are allowed.
pub proof fn law_followed_redirects(
    previous: usize,
    target: Result<UrlParts, Seq<char>>,
    allow_private_hosts: bool,
)
    ensures
        redirect_refusal(previous, target, allow_private_hosts) is None <==> previous <= 5 && (
        allow_private_hosts || target is Err || !has_private_literal(target->Ok_0)),
{
}

/// A refused URL is refused for the first of these that holds, in these words:
/// it does not parse, its scheme is another, it has no host, or its host is a
/// private literal.
pub proof fn law_refusal_says_why(
    error: Seq<char>,
    url: UrlParts,
    allow_private_hosts: bool,
)
    ensures
        refusal(Err(error), allow_private_hosts) == Some("invalid url: "@ + error),
        refusal(Ok(url), allow_private_hosts) matches Some(reason) ==> {
            &&& url.scheme != "http"@ && url.scheme != "https"@ ==> reason == "scheme '"@
                + url.scheme + "' is not allowed, use http(s)"@
            &&& (url.scheme == "http"@ || url.scheme == "https"@) && url.host is None ==> reason
                == "url has no host"@
            &&& (url.scheme == "http"@ || url.scheme == "https"@) && url.host is Some ==> reason
                == "host "@ + url.host->0 + " is not a public address"@
        },
{
}

/// A redirect too many is refused as such, wherever it leads, and any other one
/// that is refused as leading to a private address.
pub proof fn law_redirect_refusal_says_why(
    previous: usize,
    target: Result<UrlParts, Seq<char>>,
    allow_private_hosts: bool,
)
    ensures
        previous > 5 ==> redirect_refusal(previous, target, allow_private_hosts) == Some(
            "too many redirects"@,
        ),
        previous <= 5 ==> (redirect_refusal(previous, target, allow_private_hosts) matches Some(
            reason,
        ) ==> reason == "redirect to a non-public address is not allowed"@),
{
}

/// A parsed URL is judged by the parts it has.
pub proof fn law_parse_result_is_taken_as_it_is(parsed: Result<ParsedUrl, String>)
    ensures
        parsed is Ok <==> parse_view(parsed) is Ok,
        parsed matches Err(error) ==> parse_view(parsed) == Err::<UrlParts, Seq<char>>(error@),
        parsed matches Ok(url) ==> {
            &&& parse_view(parsed) is Ok
            &&& parse_view(parsed)->Ok_0.scheme == url.scheme@
            &&& parse_view(parsed)->Ok_0.ip == url.ip
            &&& parse_view(parsed)->Ok_0.host is Some <==> url.host is Some
            &&& url.host matches Some(host) ==> parse_view(parsed)->Ok_0.host == Some(host@)
        },
{
}

} // verus!
