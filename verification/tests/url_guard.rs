use balances_watcher::services::ip_literal::read_dotted;
use balances_watcher::services::url_guard::{
    check_redirect, check_url, is_public_ip, redirect_policy, validate_url, IpAddr, ParsedUrl,
    PublicOnlyDnsResolver, RedirectDecision,
};

#[test]
fn rejects_non_http_schemes() {
    assert!(validate_url("ftp://example.com/list.json", false).is_err());
    assert!(validate_url("file:///etc/passwd", false).is_err());
    assert!(validate_url("gopher://example.com/x", false).is_err());
}

#[test]
fn rejects_private_ip_literals() {
    for url in [
        "http://127.0.0.1/list.json",
        "http://10.0.0.1/list.json",
        "http://172.16.5.4/list.json",
        "http://192.168.1.1/list.json",
        "http://169.254.169.254/latest/meta-data",
        "http://100.64.0.1/list.json",
        "http://0.0.0.0/list.json",
        "http://[::1]/list.json",
        "http://[fc00::1]/list.json",
        "http://[fe80::1]/list.json",
        "http://[::ffff:10.0.0.1]/list.json",
    ] {
        assert!(
            validate_url(url, false).is_err(),
            "{url} should be rejected"
        );
    }
}

#[test]
fn accepts_public_hosts() {
    assert!(validate_url("https://tokens.coingecko.com/uniswap/all.json", false).is_ok());
    assert!(validate_url("http://1.1.1.1/list.json", false).is_ok());
    // DNS names are validated at resolve time, not pre-flight.
    assert!(validate_url("https://example.com/list.json", false).is_ok());
}

#[test]
fn allow_private_hosts_disables_ip_checks_but_not_scheme_checks() {
    assert!(validate_url("http://127.0.0.1:8080/list.json", true).is_ok());
    assert!(validate_url("ftp://127.0.0.1/list.json", true).is_err());
}

#[test]
fn refusals_say_why() {
    assert_eq!(
        validate_url("ftp://example.com/x", true),
        Err("scheme 'ftp' is not allowed, use http(s)".to_string())
    );
    assert_eq!(
        validate_url("http://10.0.0.1/x", false),
        Err("host 10.0.0.1 is not a public address".to_string())
    );
    assert_eq!(
        validate_url("http://[::1]:80/x", false),
        Err("host [::1] is not a public address".to_string())
    );
    assert_eq!(
        validate_url("no url", false),
        Err("invalid url: relative URL without a base".to_string())
    );
    // an unusual spelling of 127.0.0.1
    assert_eq!(
        validate_url("http://0x7f000001/x", false),
        Err("host 127.0.0.1 is not a public address".to_string())
    );
}

#[test]
fn parsed_urls_are_decided_on() {
    let url = |scheme: &str, host: Option<&str>, ip: Option<IpAddr>| {
        Ok(ParsedUrl {
            scheme: scheme.to_string(),
            host: host.map(|host| host.to_string()),
            ip,
        })
    };
    assert_eq!(
        check_url(url("http", None, None), false),
        Err("url has no host".to_string())
    );
    assert_eq!(check_url(url("https", Some("a.b"), None), false), Ok(()));
    assert_eq!(
        check_url(
            url("http", Some("10.1.1.1"), Some(IpAddr::V4([10, 1, 1, 1]))),
            true
        ),
        Ok(())
    );
    assert_eq!(
        check_url(Err("broken".to_string()), true),
        Err("invalid url: broken".to_string())
    );
}

#[test]
fn public_and_reserved_v4_ranges() {
    for private in [
        [0, 0, 0, 0],
        [0, 1, 2, 3],
        [10, 255, 255, 255],
        [100, 64, 0, 0],
        [100, 127, 255, 255],
        [127, 0, 0, 1],
        [169, 254, 169, 254],
        [172, 16, 0, 0],
        [172, 31, 255, 255],
        [192, 0, 0, 7],
        [192, 0, 2, 1],
        [192, 168, 0, 1],
        [198, 18, 0, 1],
        [198, 19, 255, 255],
        [198, 51, 100, 1],
        [203, 0, 113, 9],
        [224, 0, 0, 1],
        [240, 0, 0, 1],
        [255, 255, 255, 255],
    ] {
        assert!(!is_public_ip(IpAddr::V4(private)), "{private:?}");
    }
    for public in [
        [1, 1, 1, 1],
        [100, 63, 255, 255],
        [100, 128, 0, 0],
        [172, 15, 0, 1],
        [172, 32, 0, 1],
        [192, 0, 1, 1],
        [198, 17, 0, 1],
        [198, 20, 0, 1],
        [223, 255, 255, 255],
    ] {
        assert!(is_public_ip(IpAddr::V4(public)), "{public:?}");
    }
}

#[test]
fn public_and_reserved_v6_ranges() {
    let v6 = |first: u16, second: u16, last: u16| IpAddr::V6([first, second, 0, 0, 0, 0, 0, last]);
    for private in [
        v6(0, 0, 0),
        v6(0, 0, 1),
        v6(0xfc00, 0, 1),
        v6(0xfdff, 0, 1),
        v6(0xfe80, 0, 1),
        v6(0xfebf, 0, 1),
        v6(0xff02, 0, 1),
        v6(0x2001, 0xdb8, 1),
        v6(0x2001, 2, 1),
        v6(0x2001, 2, 0xffff),
    ] {
        assert!(!is_public_ip(private), "{private:?}");
    }
    for public in [
        v6(0, 0, 2),
        v6(0x2606, 0x4700, 1),
        v6(0xfec0, 0, 1),
        v6(0x2001, 0xdb9, 1),
        v6(0x2001, 3, 1),
        IpAddr::V6([0x2001, 2, 1, 0, 0, 0, 0, 1]),
    ] {
        assert!(is_public_ip(public), "{public:?}");
    }
}

#[test]
fn mapped_addresses_are_classified_as_v4() {
    let mapped = |a: u16, b: u16| IpAddr::V6([0, 0, 0, 0, 0, 0xffff, a, b]);
    assert!(!is_public_ip(mapped(0x0a00, 0x0001)));
    assert!(is_public_ip(mapped(0x0101, 0x0101)));
}

#[test]
fn guard_rejects_hostnames_resolving_to_private_addresses() {
    let local = vec![
        IpAddr::V4([127, 0, 0, 1]),
        IpAddr::V6([0, 0, 0, 0, 0, 0, 0, 1]),
    ];
    assert_eq!(
        PublicOnlyDnsResolver.keep_public("localhost", &local),
        Err("host localhost does not resolve to any public address".to_string())
    );
}

#[test]
fn resolver_keeps_public_addresses_in_order() {
    let mixed = vec![
        IpAddr::V4([10, 0, 0, 1]),
        IpAddr::V4([8, 8, 8, 8]),
        IpAddr::V4([127, 0, 0, 1]),
        IpAddr::V4([1, 1, 1, 1]),
    ];
    assert_eq!(
        PublicOnlyDnsResolver.keep_public("example.com", &mixed),
        Ok(vec![IpAddr::V4([8, 8, 8, 8]), IpAddr::V4([1, 1, 1, 1])])
    );
}

fn refusal(decision: RedirectDecision) -> Option<&'static str> {
    match decision {
        RedirectDecision::Follow => None,
        RedirectDecision::Refuse(reason) => Some(reason),
    }
}

#[test]
fn redirects_are_bounded_and_kept_public() {
    assert_eq!(refusal(redirect_policy(5, "http://example.com/a", false)), None);
    assert_eq!(
        refusal(redirect_policy(6, "http://example.com/a", true)),
        Some("too many redirects")
    );
    assert_eq!(
        refusal(redirect_policy(1, "http://192.168.0.1/a", false)),
        Some("redirect to a non-public address is not allowed")
    );
    assert_eq!(refusal(redirect_policy(1, "http://192.168.0.1/a", true)), None);
    assert_eq!(refusal(redirect_policy(1, "http://1.1.1.1/a", false)), None);
    // a host that its scheme leaves uninterpreted
    assert_eq!(
        refusal(redirect_policy(1, "app://10.0.0.1/a", false)),
        Some("redirect to a non-public address is not allowed")
    );
    assert_eq!(refusal(redirect_policy(1, "app://10.0.0.01/a", false)), None);
    assert_eq!(refusal(redirect_policy(1, "app://1.1.1.1/a", false)), None);
    let target = |host: &str, ip: Option<IpAddr>| {
        Ok(ParsedUrl {
            scheme: "http".to_string(),
            host: Some(host.to_string()),
            ip,
        })
    };
    assert_eq!(refusal(check_redirect(0, target("a.b", None), false)), None);
    let private = target("[::1]", Some(IpAddr::V6([0, 0, 0, 0, 0, 0, 0, 1])));
    assert_eq!(
        refusal(check_redirect(0, private, false)),
        Some("redirect to a non-public address is not allowed")
    );
    assert_eq!(
        refusal(check_redirect(0, Err("no url".to_string()), false)),
        None
    );
}

#[test]
fn dotted_addresses_are_read() {
    assert_eq!(read_dotted("192.168.0.1"), Some((192, 168, 0, 1)));
    assert_eq!(read_dotted("0.0.0.0"), Some((0, 0, 0, 0)));
    assert_eq!(read_dotted("255.255.255.255"), Some((255, 255, 255, 255)));
    for text in [
        "", "1", "1.2.3", "1.2.3.", ".1.2.3", "1.2.3.4.5", "1.2.3.256", "01.2.3.4", "1.2.3.04",
        "+1.2.3.4", "1.2.3.4 ", "1.2.3.x", "1..3.4", "0x7f.0.0.1", "1.2.3.00",
    ] {
        assert_eq!(read_dotted(text), None, "{text:?}");
    }
}
