use netrail::ip::{parse_browser_ipv4, IpAddress};
use netrail::security::{
    check_resolved_host, normalize_host, pin_open_host, validate_backend_url,
    validate_backend_url_with_options, validate_open_url,
};

fn chars(s: &str) -> Vec<char> {
    s.chars().collect()
}

#[test]
fn pin_open_host_blocks_loopback_resolution() {
    let fake = |_: &str| vec![IpAddress::V4([127, 0, 0, 1])];
    let err = pin_open_host("http://internal.corp/", fake).unwrap_err();
    assert_eq!(err.error_code(), "OPEN_URL_LOCALHOST");
}

#[test]
fn pin_open_host_blocks_private_resolution() {
    let fake = |_: &str| vec![IpAddress::V4([192, 168, 1, 10])];
    let err = pin_open_host("https://evil.example/", fake).unwrap_err();
    assert_eq!(err.error_code(), "OPEN_URL_PRIVATE");
}

#[test]
fn pin_open_host_blocks_link_local_resolution() {
    let fake = |_: &str| vec![IpAddress::V4([169, 254, 169, 254])];
    let err = pin_open_host("http://metadata-helper.example/", fake).unwrap_err();
    assert_eq!(err.error_code(), "OPEN_URL_LINK_LOCAL");
}

#[test]
fn pin_open_host_allows_public_resolution() {
    let fake = |_: &str| vec![IpAddress::V4([93, 184, 216, 34])];
    assert!(pin_open_host("https://example.org/", fake).is_ok());
}

#[test]
fn pin_open_host_fails_closed_on_unresolvable_host() {
    let fake = |_: &str| vec![];
    let err = pin_open_host("https://nxdomain.invalid/", fake).unwrap_err();
    assert_eq!(err.error_code(), "OPEN_URL_DNS_UNRESOLVABLE");
}

#[test]
fn pin_open_host_skips_ip_literals() {
    let fake = |h: &str| -> Vec<IpAddress> { panic!("resolver must not run for IP literals, got {h}") };
    assert!(pin_open_host("https://93.184.216.34/", fake).is_ok());
}

#[test]
fn pin_open_host_blocks_any_non_public_answer() {
    let fake = |_: &str| {
        vec![
            IpAddress::V6([0, 0, 0, 0, 0, 0, 0, 1]),
            IpAddress::V4([1, 2, 3, 4]),
        ]
    };
    let err = pin_open_host("https://dual.example/", fake).unwrap_err();
    assert_eq!(err.error_code(), "OPEN_URL_LOCALHOST");
}

#[test]
fn accepts_https() {
    assert_eq!(
        validate_open_url("https://example.com/path").unwrap(),
        "https://example.com/path"
    );
}

#[test]
fn rejects_localhost() {
    assert!(validate_open_url("http://127.0.0.1:8080/admin").is_err());
}

#[test]
fn rejects_nip_io() {
    assert!(validate_open_url("http://127.0.0.1.nip.io/").is_err());
}

#[test]
fn rejects_rebinding_apex_domains() {
    for url in [
        "http://localtest.me/",
        "http://nip.io/",
        "http://sslip.io/",
        "http://xip.io/",
    ] {
        let err = validate_open_url(url).unwrap_err();
        assert_eq!(err.error_code(), "OPEN_URL_DNS_REBINDING", "{url}");
    }
}

#[test]
fn unwraps_ddg_redirect_and_blocks_inner_localhost() {
    let ddg = "https://duckduckgo.com/l/?uddg=http%3A%2F%2F127.0.0.1%2Fapi";
    assert!(validate_open_url(ddg).is_err());
}

#[test]
fn unwraps_duck_com_redirect_and_blocks_inner_localhost() {
    let ddg = "https://duck.com/l/?uddg=http%3A%2F%2F127.0.0.1%2F";
    let err = validate_open_url(ddg).unwrap_err();
    assert_eq!(err.error_code(), "OPEN_URL_LOCALHOST");
}

#[test]
fn unwraps_ddg_redirect_to_safe_url() {
    let ddg = "https://duckduckgo.com/l/?uddg=https%3A%2F%2Frust-lang.org%2F";
    assert_eq!(validate_open_url(ddg).unwrap(), "https://rust-lang.org/");
}

#[test]
fn allows_localhost_searxng_url() {
    assert_eq!(
        validate_backend_url("http://127.0.0.1:8080").unwrap(),
        "http://127.0.0.1:8080"
    );
}

#[test]
fn rejects_metadata_backend_url() {
    assert!(validate_backend_url("http://169.254.169.254/latest/meta-data/").is_err());
}

#[test]
fn rejects_nip_io_backend_url() {
    assert!(validate_backend_url("http://127.0.0.1.nip.io/").is_err());
}

#[test]
fn open_url_errors_have_stable_codes() {
    let err = validate_open_url("http://127.0.0.1/").unwrap_err();
    assert_eq!(err.error_code(), "OPEN_URL_LOCALHOST");
}

#[test]
fn rejects_decimal_encoded_loopback() {
    let err = validate_open_url("http://2130706433/").unwrap_err();
    assert_eq!(err.error_code(), "OPEN_URL_LOCALHOST");
}

#[test]
fn rejects_hex_encoded_loopback() {
    let err = validate_open_url("http://0x7f000001/").unwrap_err();
    assert_eq!(err.error_code(), "OPEN_URL_LOCALHOST");
}

#[test]
fn rejects_octal_dotted_loopback() {
    let err = validate_open_url("http://0177.0.0.1/").unwrap_err();
    assert_eq!(err.error_code(), "OPEN_URL_LOCALHOST");
}

#[test]
fn rejects_short_form_loopback() {
    let err = validate_open_url("http://127.1/").unwrap_err();
    assert_eq!(err.error_code(), "OPEN_URL_LOCALHOST");
}

#[test]
fn rejects_private_rfc1918() {
    for url in [
        "http://192.168.1.1/",
        "http://10.0.0.1/",
        "http://172.16.0.1/",
    ] {
        let err = validate_open_url(url).unwrap_err();
        assert_eq!(err.error_code(), "OPEN_URL_PRIVATE", "{url}");
    }
}

#[test]
fn allows_private_backend_url_for_searxng() {
    assert_eq!(
        validate_backend_url("http://192.168.0.5:8080").unwrap(),
        "http://192.168.0.5:8080"
    );
}

#[test]
fn parse_browser_ipv4_decimal() {
    assert_eq!(parse_browser_ipv4(&chars("2130706433")), Some([127, 0, 0, 1]));
}

#[test]
fn rejects_ipv4_mapped_loopback() {
    let err = validate_open_url("http://[::ffff:127.0.0.1]/").unwrap_err();
    assert_eq!(err.error_code(), "OPEN_URL_LOCALHOST");
}

#[test]
fn rejects_ipv4_mapped_private() {
    let err = validate_open_url("http://[::ffff:c0a8:101]/").unwrap_err();
    assert_eq!(err.error_code(), "OPEN_URL_PRIVATE");
}

#[test]
fn rejects_aws_ipv6_metadata_backend() {
    let err = validate_backend_url("http://[fd00:ec2::254]/").unwrap_err();
    assert_eq!(err.error_code(), "BACKEND_URL_CLOUD_METADATA");
}

#[test]
fn rejects_metadata_hostname_open_and_backend() {
    let open_err = validate_open_url("http://metadata.google.internal/").unwrap_err();
    assert_eq!(open_err.error_code(), "OPEN_URL_CLOUD_METADATA");
    let back_err = validate_backend_url("http://metadata.google.internal/").unwrap_err();
    assert_eq!(back_err.error_code(), "BACKEND_URL_CLOUD_METADATA");
}

#[test]
fn strict_backend_rejects_localhost() {
    assert!(validate_backend_url("http://127.0.0.1:8080").is_ok());
    let err = validate_backend_url_with_options("http://127.0.0.1:8080", true).unwrap_err();
    assert_eq!(err.error_code(), "BACKEND_URL_STRICT_PRIVATE");
}

#[test]
fn property_normalize_host_is_idempotent() {
    let sample_hosts = [
        "127.0.0.1.",
        "DUCKDUCKGO.COM..",
        "192.168.1.1",
        "metadata.google.internal.",
        "EXAMPLE.COM%2Fpath",
        "127.0.0.1",
        "localhost",
        "[::1]",
    ];
    for host in sample_hosts {
        let once = normalize_host(host);
        let twice = normalize_host(&once);
        assert_eq!(once, twice, "idempotency failed for host: {host}");
    }
}

#[test]
fn property_parse_browser_ipv4_never_panics_on_arbitrary_input() {
    let fuzz_inputs = [
        "",
        "   ",
        ".",
        "...",
        "0",
        "0x",
        "0xGG",
        "256.256.256.256",
        "127.0.0.1.1",
        "-1",
        "99999999999999999999999999999",
        "0177.0.0.1",
        "0x7f000001",
        "2130706433",
        "127.1",
        "127.0.1",
        "192.168.1.1",
        "../../../etc/passwd",
        "\x00\x01\x02",
    ];
    for input in fuzz_inputs {
        let _ = parse_browser_ipv4(&chars(input));
    }
}

#[test]
fn property_pin_open_host_fail_closed_on_empty_dns() {
    let empty_ips: &[IpAddress] = &[];
    let res = check_resolved_host("example.com", empty_ips);
    assert!(res.is_err(), "Empty DNS resolution must fail closed");
    assert_eq!(res.unwrap_err().error_code(), "OPEN_URL_DNS_UNRESOLVABLE");
}

#[test]
fn property_pin_open_host_blocks_private_dns_answers() {
    let private_ips = [IpAddress::V4([192, 168, 1, 50])];
    let res = check_resolved_host("rebinding.example.com", &private_ips);
    assert!(res.is_err(), "DNS resolving to private IP must be rejected");
    assert_eq!(res.unwrap_err().error_code(), "OPEN_URL_PRIVATE");
}

#[test]
fn accepted_open_url_validates_again_unchanged() {
    for url in [
        "https://example.com/path",
        "https://duckduckgo.com/l/?uddg=https%3A%2F%2Frust-lang.org%2F",
        "http://93.184.216.34/x?y=1",
    ] {
        let once = validate_open_url(url).unwrap();
        let twice = validate_open_url(&once).unwrap();
        assert_eq!(once, twice, "{url}");
    }
}

#[test]
fn strict_backend_refuses_private_addresses() {
    assert!(validate_backend_url("http://10.1.2.3/").is_ok());
    let err = validate_backend_url_with_options("http://10.1.2.3/", true).unwrap_err();
    assert_eq!(err.error_code(), "BACKEND_URL_STRICT_PRIVATE");
}

#[test]
fn open_url_refuses_other_schemes() {
    assert!(validate_open_url("ftp://example.com/").is_err());
    assert!(validate_open_url("").is_err());
}
