use twirp::endpoint::parse_base_url;
use twirp::text::u64_to_string;

#[test]
fn decimal_formatting() {
    assert_eq!(u64_to_string(0), "0");
    assert_eq!(u64_to_string(7), "7");
    assert_eq!(u64_to_string(30), "30");
    assert_eq!(u64_to_string(1234567890), "1234567890");
    assert_eq!(u64_to_string(u64::MAX), "18446744073709551615");
}

#[test]
fn parse_base_url_extracts_parts() {
    let b = parse_base_url("http://localhost:3001/twirp").unwrap();
    assert_eq!(b.scheme, "http");
    assert_eq!(b.host, "localhost");
    assert_eq!(b.port, Some(3001));
    assert_eq!(b.path, "/twirp");

    let b = parse_base_url("https://api.example.com/").unwrap();
    assert_eq!(b.scheme, "https");
    assert_eq!(b.host, "api.example.com");
    assert_eq!(b.port, None);
    assert_eq!(b.path, "/");
}

#[test]
fn parse_base_url_rejects_nonsense() {
    assert!(parse_base_url("not a url").is_none());
    assert!(parse_base_url("/relative/only").is_none());
    assert!(parse_base_url("data:text/plain,hello").is_none());
}

#[test]
fn normalization_adds_exactly_one_slash() {
    let b = parse_base_url("http://h:1/twirp").unwrap();
    assert_eq!(b.normalize().path, "/twirp/");
    let b = parse_base_url("http://h:1/twirp/").unwrap();
    assert_eq!(b.normalize().path, "/twirp/");
}

#[test]
fn join_never_doubles_a_slash() {
    let b = parse_base_url("http://h:1/twirp").unwrap().normalize();
    let url = b.join("svc.Api/Method");
    assert_eq!(url, "http://h:1/twirp/svc.Api/Method");
    assert!(!url.contains("//twirp"));
    assert!(!url.contains("twirp//"));
}
