use netom::addr::{IpAddr, SocketAddr};
use netom::cli::endpoint::{
    cannot_read, connectable, default_endpoint, endpoint_from, from_config, from_found,
    http_listen, resolve, split_url, target_of, Endpoint, Source, Target,
};
use netom::cli::error::CliError;
use netom::cli::grammar::{prefix_fits, split_prefix};
use netom::cli::prompt::{
    asks_for_help, code_after_line, code_after_prompt, completion_start, completions,
    lines_to_run, prompt_step, timeout_of, Candidate, Prompt, PromptAction, PromptEvent,
};

/// An address from its text: four numbers, or one of the IPv6 addresses that
/// the tests use.
fn ip(s: &str) -> IpAddr {
    match s {
        "::" => IpAddr::V6(0),
        "::1" => IpAddr::V6(1),
        "2001:db8::1" => IpAddr::V6(0x2001_0db8_0000_0000_0000_0000_0000_0001),
        _ => {
            let octets: Vec<u8> = s.split('.').map(|n| n.parse().unwrap()).collect();
            assert_eq!(octets.len(), 4, "{s}");
            IpAddr::V4(octets.iter().fold(0, |bits, n| bits * 256 + *n as u32))
        }
    }
}

/// An address with a port from its text, if it is one.
fn socket(s: &str) -> Option<SocketAddr> {
    let (host, port) = s.rsplit_once(':')?;
    let host = match host.strip_prefix('[') {
        Some(rest) => rest.strip_suffix(']')?,
        None => host,
    };
    Some(SocketAddr::new(ip(host), port.parse().ok()?))
}

fn sock(s: &str) -> SocketAddr {
    socket(s).unwrap()
}

fn from_url(url: &str, provenance: &str) -> Result<Endpoint, CliError> {
    let host = split_url(url)?;
    let addr = if host.contains(':') { None } else { Some(ip(&host)) };
    match target_of(&host, socket(&host), addr) {
        Target::Addresses(addrs) => from_found(url, addrs, provenance),
        Target::Lookup(_) => from_found(url, Vec::new(), provenance),
    }
}

fn http_listen_from(path: &str, text: Result<&str, &str>) -> Result<Vec<SocketAddr>, CliError> {
    let text = text.map_err(|e| cannot_read(path, e))?;
    let addrs: Vec<SocketAddr> =
        http_listen(path, text)?.iter().filter_map(|s| socket(s)).collect();
    from_config(path, &addrs)?;
    Ok(addrs)
}

#[test]
fn rewrites_the_ipv4_wildcard_to_loopback() {
    assert_eq!(
        connectable(sock("0.0.0.0:8080")),
        vec![sock("127.0.0.1:8080")]
    );
}

#[test]
fn rewrites_the_ipv6_wildcard_to_both_loopbacks() {
    assert_eq!(
        connectable(sock("[::]:8080")),
        vec![sock("[::1]:8080"), sock("127.0.0.1:8080")],
    );
}

#[test]
fn leaves_concrete_addresses_alone() {
    assert_eq!(
        connectable(sock("10.0.0.5:9000")),
        vec![sock("10.0.0.5:9000")]
    );
    assert_eq!(
        connectable(sock("[2001:db8::1]:9000")),
        vec![sock("[2001:db8::1]:9000")]
    );
}

#[test]
fn parses_url_forms() {
    let e = from_url("http://127.0.0.1:9", "t").unwrap();
    assert_eq!(e.addrs, vec![sock("127.0.0.1:9")]);

    let e = from_url("127.0.0.1:9", "t").unwrap();
    assert_eq!(e.addrs, vec![sock("127.0.0.1:9")]);

    let e = from_url("127.0.0.1", "t").unwrap();
    assert_eq!(e.addrs, vec![sock("127.0.0.1:8080")]);

    let e = from_url("http://[::1]:9", "t").unwrap();
    assert_eq!(e.addrs, vec![sock("[::1]:9")]);

    let e = from_url("http://127.0.0.1:9/api/v1", "t").unwrap();
    assert_eq!(e.addrs, vec![sock("127.0.0.1:9")]);
}

#[test]
fn rejects_non_http_schemes() {
    assert!(from_url("https://127.0.0.1:9", "t").is_err());
    let err = split_url("https://127.0.0.1:9").unwrap_err();
    assert_eq!(
        err.to_text(),
        "% Unsupported URL scheme \"https\": the netom API is plain HTTP."
    );
}

#[test]
fn reads_http_listen_from_a_config() {
    let text = r#"
http_listen = ["[::]:8809", "10.0.0.1:8810"]

[units.rib]
type = "rib"
sources = []
"#;

    let addrs = http_listen_from("netom.conf", Ok(text)).unwrap();
    assert_eq!(addrs, vec![sock("[::]:8809"), sock("10.0.0.1:8810")]);

    let e = endpoint_from(&addrs, "test".into());
    assert_eq!(
        e.addrs,
        vec![
            sock("[::1]:8809"),
            sock("127.0.0.1:8809"),
            sock("10.0.0.1:8810"),
        ],
    );
}

#[test]
fn reports_a_config_without_http_listen() {
    let text = "[units.rib]\ntype = \"rib\"\n";

    let err = http_listen_from("netom.conf", Ok(text)).unwrap_err();
    assert!(err.to_text().contains("http_listen"));
}

#[test]
fn reports_a_missing_config() {
    let err = http_listen_from("/nonexistent/netom.conf", Err("No such file")).unwrap_err();
    assert!(err.to_text().contains("Cannot read"));
}

#[test]
fn url_flag_beats_everything_else() {
    let sources = resolve(Some("http://10.0.0.9:1234"), None, Some("/nonexistent"));
    assert_eq!(sources.len(), 1);
    let Source::Url(url, from) = &sources[0] else {
        panic!("not a URL");
    };
    let e = from_url(url, from).unwrap();
    assert_eq!(e.addrs, vec![sock("10.0.0.9:1234")]);
    assert_eq!(e.provenance, "from --url");
}

#[test]
fn named_config_that_cannot_be_used_is_an_error() {
    let sources = resolve(None, None, Some("/nonexistent/netom.conf"));
    assert_eq!(sources.len(), 1);
    let Source::Config(path) = &sources[0] else {
        panic!("not a configuration");
    };
    assert!(http_listen_from(path, Err("No such file")).is_err());
}

#[test]
fn sources_are_tried_in_order() {
    let sources = resolve(None, Some("http://h"), Some("c"));
    assert!(matches!(&sources[0], Source::Url(url, from) if url == "http://h" && from == "from $NETOM_URL"));
    let sources = resolve(None, Some(""), None);
    assert_eq!(sources.len(), 3);
    assert!(matches!(&sources[0], Source::Found(path) if path == "./netom.conf"));
    assert!(matches!(&sources[1], Source::Found(path) if path == "/etc/netom/netom.conf"));
    assert!(matches!(&sources[2], Source::Default));
    let e = default_endpoint();
    assert_eq!(e.addrs, vec![sock("127.0.0.1:8080")]);
    assert_eq!(
        e.provenance,
        "default endpoint; no --url, $NETOM_URL or config found"
    );
}

#[test]
fn names_are_looked_up_with_a_port() {
    assert!(matches!(target_of("router", None, None), Target::Lookup(t) if t == "router:8080"));
    assert!(matches!(target_of("router:9", None, None), Target::Lookup(t) if t == "router:9"));
    let err = from_found("a\"b", Vec::new(), "t").unwrap_err();
    assert_eq!(err.to_text(), "% Cannot parse endpoint \"a\\\"b\".");
}

#[test]
fn a_config_that_is_no_toml_is_an_error() {
    let err = http_listen("x.conf", "= =").unwrap_err();
    assert!(err.to_text().starts_with("% Cannot parse x.conf: "), "{}", err.to_text());
    assert!(http_listen("x.conf", "http_listen = [1, \"a\", true]").unwrap() == vec!["a"]);
    assert!(http_listen("x.conf", "http_listen = \"a\"").unwrap().is_empty());
}

#[test]
fn commands_come_from_the_command_line() {
    let words = vec!["show".to_string(), "status".to_string()];
    let lines = lines_to_run(vec!["a".into(), "b".into()], &words).unwrap();
    assert_eq!(lines, vec!["a", "b"]);
    let lines = lines_to_run(Vec::new(), &words).unwrap();
    assert_eq!(lines, vec!["show status"]);
    assert!(lines_to_run(Vec::new(), &[]).is_none());
}

#[test]
fn the_timeout_has_a_default() {
    assert_eq!(timeout_of(Some("5")), 5);
    assert_eq!(timeout_of(Some("five")), 120);
    assert_eq!(timeout_of(None), 120);
}

#[test]
fn the_exit_code_is_that_of_the_last_failure() {
    let usage = CliError::usage("%");
    assert_eq!(code_after_line(0, Some(&usage)), 1);
    assert_eq!(code_after_line(1, None), 1);
    assert_eq!(code_after_line(1, Some(&CliError::BrokenPipe)), 0);
    assert_eq!(code_after_prompt(2, Some(&CliError::BrokenPipe)), 2);
    assert_eq!(code_after_prompt(0, Some(&usage)), 1);
}

#[test]
fn completion_replaces_the_word_under_the_cursor() {
    assert_eq!(completion_start("show ip b"), 8);
    assert_eq!(completion_start("sho"), 0);
    assert_eq!(completion_start("é x"), 3);
    assert_eq!(completion_start("show "), 5);
    // White space of three octets.
    assert_eq!(completion_start("a\u{2003}b"), 4);
    assert!(asks_for_help("show ip "));
    assert!(!asks_for_help("show ip | inc "));
    let pairs = completions(&[
        Candidate { insert: "bgp".into(), display: "bgp".into(), help: "BGP".into() },
        Candidate { insert: "".into(), display: "<prefix>".into(), help: "A prefix".into() },
    ]);
    assert_eq!(pairs.len(), 1);
    assert_eq!(pairs[0].display, "bgp  BGP");
    assert_eq!(pairs[0].replacement, "bgp ");
}

#[test]
fn an_address_with_a_scope_keeps_it() {
    let scoped = SocketAddr {
        ip: IpAddr::V6(0xfe80 << 112 | 1),
        port: 8080,
        flowinfo: 0,
        scope_id: 3,
    };
    assert_eq!(connectable(scoped), vec![scoped]);
}

#[test]
fn help_leaves_the_line_alone() {
    let (prompt, action) =
        prompt_step(Prompt::new(), PromptEvent::Help("show ".into(), "bgp".into()));
    assert!(matches!(action, PromptAction::ShowHelp(stem) if stem == "show "));
    assert_eq!((prompt.before.as_str(), prompt.after.as_str()), ("show ", "bgp"));
    let (prompt, action) = prompt_step(prompt, PromptEvent::Interrupted);
    assert!(matches!(action, PromptAction::Read));
    assert_eq!((prompt.before.as_str(), prompt.after.as_str()), ("", ""));
    let (prompt, action) = prompt_step(prompt, PromptEvent::Line("  ".into()));
    assert!(matches!(action, PromptAction::Read));
    let (prompt, action) = prompt_step(prompt, PromptEvent::Line(" exit ".into()));
    assert!(matches!(action, PromptAction::Run(command) if command == "exit"));
    let failed = PromptEvent::Ran(Some(CliError::transport("gone")), false);
    let (prompt, action) = prompt_step(prompt, failed);
    assert!(matches!(action, PromptAction::Read));
    let code = CliError::transport("gone").exit_code();
    let (prompt, action) =
        prompt_step(prompt, PromptEvent::Ran(Some(CliError::BrokenPipe), false));
    assert!(matches!(action, PromptAction::Read));
    let (prompt, action) = prompt_step(prompt, PromptEvent::EndOfInput);
    assert!(matches!(action, PromptAction::End(c) if c == code));
    let (prompt, action) = prompt_step(prompt, PromptEvent::Ran(None, true));
    assert!(matches!(action, PromptAction::End(c) if c == code));
    let (_, action) = prompt_step(prompt, PromptEvent::Failed);
    assert!(matches!(action, PromptAction::End(c) if c == CliError::usage("").exit_code()));
}

#[test]
fn prefixes_are_split_at_the_slash() {
    assert_eq!(split_prefix("10.0.0.0/8"), Some(("10.0.0.0".to_string(), 8)));
    assert_eq!(split_prefix("2001:db8::/129"), None);
    assert_eq!(split_prefix("10.0.0.0"), None);
    assert!(prefix_fits(true, 32) && !prefix_fits(true, 33) && prefix_fits(false, 128));
}
