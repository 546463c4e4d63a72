use netom::cli::session::{
    get_data, help_stem, is_success, output_truncated, request, runnable, unreachable_error,
};
use netom::cli::system::{filters, running_config, status, version};
use netom::json::{parse, Json};

fn json(text: &str) -> Json {
    parse(text).unwrap()
}

#[test]
fn requests_are_plain_http() {
    let text = request("/api/v1/status", "127.0.0.1:8080");
    assert!(text.starts_with("GET /api/v1/status HTTP/1.1\r\n"), "{text}");
    assert!(text.contains("Host: 127.0.0.1:8080\r\n"), "{text}");
    assert!(text.ends_with("\r\n\r\n"), "{text}");
    assert!(is_success(204));
    assert!(!is_success(404));
}

#[test]
fn an_answer_has_data() {
    let envelope = get_data("/p", r#"{"data":{"a":1}}"#).unwrap();
    assert_eq!(envelope.data().unwrap().unsigned_at("a"), Some(1));
    let err = get_data("/p", "{}").unwrap_err();
    assert_eq!(err.to_text(), "% No 'data' field in /p response");
    let err = get_data("/p", "{").unwrap_err();
    assert!(err.to_text().starts_with("% Malformed JSON from /p: "), "{}", err.to_text());
    assert!(output_truncated().to_text().contains("truncated"));
}

#[test]
fn an_endpoint_that_cannot_be_reached_is_named() {
    let err = unreachable_error(&["127.0.0.1:8080".into()], Some("refused"), "from --url");
    let text = err.to_text();
    assert!(text.contains("127.0.0.1:8080"), "{text}");
    assert!(text.contains("refused"), "{text}");
    assert!(text.contains("from --url"), "{text}");
}

#[test]
fn comments_and_empty_lines_are_not_run() {
    assert_eq!(runnable("  show status "), Some("show status".to_string()));
    assert_eq!(runnable("# show status"), None);
    assert_eq!(runnable("   "), None);
    assert_eq!(help_stem("show ip ?  "), Some("show ip ".to_string()));
    assert_eq!(help_stem("show ip"), None);
}

#[test]
fn versions_are_shown() {
    let data = json(r#"{"version":"0.1.0","uptimeSeconds":3661,"started":"2025-01-01T00:00:00Z"}"#);
    assert_eq!(
        version(&data),
        "netom 0.1.0\nnetom-cli 0.1.0\nUptime 01:01:01\nStarted 2025-01-01T00:00:00Z\n"
    );
    assert_eq!(version(&json("{}")), "netom unknown\nnetom-cli 0.1.0\n");
}

#[test]
fn the_status_is_shown() {
    let data = json(
        r#"{"version":"0.1.0","uptimeSeconds":60,
            "ingresses":{"total":3,"connected":2,"disconnected":1},
            "memory":{"rssBytes":1536,"bmpOutClients":2,"bmpOutBufferedBytes":1024},
            "units":[{"name":"rib","type":"rib-unit"}],"targets":[],
            "rib":[{"name":"unicast","prefixes":1000,"prefixesV4":900,"prefixesV6":100,"routes":2000}]}"#,
    );
    let out = status(&data);
    assert!(out.starts_with("netom 0.1.0, up 00:01:00\n"), "{out}");
    assert!(out.contains("Ingresses 3 total, 2 connected, 1 disconnected\n"), "{out}");
    assert!(out.contains("Memory RSS 1.5 KiB, bmp-out 2 client(s) buffering 1.0 KiB\n"), "{out}");
    assert!(out.contains("\nUnits:\n"), "{out}");
    assert!(!out.contains("Targets:"), "{out}");
    assert!(out.contains("\nRIB:\n"), "{out}");
    assert!(out.contains("2,000"), "{out}");
}

#[test]
fn the_configuration_is_shown() {
    let data = json(r#"{"path":"/etc/netom.conf","toml":"a = 1\n\n"}"#);
    assert_eq!(
        running_config(&data),
        "! Configuration file: /etc/netom.conf\n! Secrets are redacted.\n!\na = 1\n"
    );
}

#[test]
fn filters_are_shown() {
    let data = json(r#"{"rotoScript":"f.roto","entrypoints":["bgp_in",1],"source":"x\n"}"#);
    assert_eq!(
        filters(&data),
        "Roto script: f.roto\n\nEntrypoints netom calls if the script defines them:\n  bgp_in\n\
         \n! ---- script source ----\nx\n"
    );
    assert!(filters(&json("{}")).starts_with("No Roto script configured.\n"));
}

#[test]
fn documents_keep_every_kind_of_value() {
    let value = json(r#"{"a":null,"b":true,"c":18446744073709551615,"d":-1,"e":1.5,"f":"x","g":[1]}"#);
    assert!(matches!(value.get("a"), Some(Json::Null)));
    assert_eq!(value.bool_at("b"), Some(true));
    assert_eq!(value.unsigned_at("c"), Some(u64::MAX));
    assert_eq!(value.unsigned_at("d"), None);
    assert!(matches!(value.get("e"), Some(Json::Number(n)) if n == "1.5"));
    assert_eq!(value.text_at("f"), Some("x"));
    assert_eq!(value.items_at("g").unwrap().len(), 1);
    assert!(value.get("h").is_none());
    assert!(parse("[1,").is_err());
}
