use netom::bgp_in::neighbors::IngressState;
use netom::daemon_info::{
    count_ingresses, redact_toml, ApiError, ComponentInfo, ConfigSnapshot, DaemonInfo,
    IngressCounts, Memory, StoreInfo, REDACTED, ROTO_ENTRYPOINTS,
};
use netom::representation::OutputFormat;

#[test]
fn redacts_bgp_md5_key() {
    let input = r#"
http_listen = ["[::]:8080"]

[units.bgp-in]
type = "bgp-tcp-in"
listen = "10.1.0.254:179"

[units.bgp-in.peers."10.1.0.1"]
name = "PeerA"
md5_key = "s3cr3t"
"#;
    let out = redact_toml(input).unwrap();
    assert!(
        !out.contains("s3cr3t"),
        "md5_key leaked into output:\n{out}"
    );
    assert!(out.contains(REDACTED));
    assert!(out.contains("10.1.0.254:179"));
    assert!(out.contains("PeerA"));
}

#[test]
fn redacts_mqtt_password_but_keeps_username() {
    let input = r#"
[targets.mqtt]
type = "mqtt-out"
destination = "localhost"
username = "netom"
password = "hunter2"
"#;
    let out = redact_toml(input).unwrap();
    assert!(!out.contains("hunter2"));
    assert!(out.contains("netom"));
}

#[test]
fn keeps_tls_paths_visible() {
    let input = r#"
[units.bmp-out]
type = "bmp-tcp-out"
tls = true
tls_cert = "/etc/netom/bmp-out.crt"
tls_key = "/etc/netom/bmp-out.key"
"#;
    let out = redact_toml(input).unwrap();
    assert!(out.contains("/etc/netom/bmp-out.key"));
}

#[test]
fn redacts_at_any_depth() {
    let input = r#"
[a.b.c.d]
md5_key = "deep-secret"
"#;
    let out = redact_toml(input).unwrap();
    assert!(!out.contains("deep-secret"));
}

#[test]
fn fails_closed_on_unparseable_input() {
    assert!(redact_toml("this is = = not toml").is_none());
}

#[test]
fn redacts_inside_arrays_and_keeps_every_kind_of_value() {
    let input = "a = 1\nb = 2.5\nc = true\nd = 1979-05-27T07:32:00Z\ne = -0.0\nf = nan\ng = 1e300\n\
                 [[peers]]\npassword = [1, 2]\nname = \"x\"\n";
    let out = redact_toml(input).unwrap();
    let value: toml::Value = toml::de::from_str(&out).unwrap();
    assert_eq!(value["a"].as_integer(), Some(1));
    assert_eq!(value["b"].as_float(), Some(2.5));
    assert_eq!(value["c"].as_bool(), Some(true));
    assert_eq!(value["d"].as_datetime().unwrap().to_string(), "1979-05-27T07:32:00Z");
    assert!(value["e"].as_float().unwrap().is_sign_negative());
    assert!(value["f"].as_float().unwrap().is_nan());
    assert_eq!(value["g"].as_float(), Some(1e300));
    assert_eq!(value["peers"][0]["password"].as_str(), Some(REDACTED));
    assert_eq!(value["peers"][0]["name"].as_str(), Some("x"));
}

#[test]
fn redaction_of_a_redacted_document_changes_nothing() {
    let once = redact_toml("[a]\npassword = \"x\"\nb = 1\n").unwrap();
    assert_eq!(redact_toml(&once).unwrap(), once);
}

#[test]
fn roto_entrypoints_match_the_units() {
    for name in [
        "bgp_in",
        "bmp_in",
        "rib_in_pre",
        "rib_in_post",
        "vrp_update",
        "rib_in_rov_status_update",
    ] {
        assert!(
            ROTO_ENTRYPOINTS.contains(&name),
            "roto entrypoint {name:?} is used by a unit but missing \
             from ROTO_ENTRYPOINTS",
        );
    }
    assert_eq!(
        ROTO_ENTRYPOINTS.len(),
        6,
        "ROTO_ENTRYPOINTS has entries no unit uses",
    );
}

fn snapshot(toml: &str) -> ConfigSnapshot {
    ConfigSnapshot {
        path: Some("/etc/netom/netom.conf".into()),
        toml: toml.into(),
        units: vec![ComponentInfo { name: "rib".into(), kind: "rib-unit".into() }],
        targets: Vec::new(),
        roto_script: None,
        http_listen: vec!["[::]:8080".into()],
    }
}

#[test]
fn ingresses_are_counted_by_state() {
    let counts = count_ingresses(&[
        Some(IngressState::Connected),
        None,
        Some(IngressState::Disconnected),
        Some(IngressState::Connected),
    ]);
    assert_eq!(counts, IngressCounts { total: 4, connected: 2, disconnected: 1 });
}

#[test]
fn status_lists_the_units_and_leaves_out_a_missing_rib() {
    let mut info = DaemonInfo::new("2025-01-01T00:00:00+00:00".into(), 100);
    let memory = Memory {
        rss_bytes: None,
        bmp_out_buffered_bytes: 1,
        bmp_out_buffered_entries: 2,
        bmp_out_clients: 3,
    };
    let counts = IngressCounts { total: 0, connected: 0, disconnected: 0 };
    let status = info.status(160, counts, None, memory);
    let data = status.get("data").unwrap();
    assert_eq!(data.text_at("version"), Some("0.1.0"));
    assert_eq!(data.text_at("started"), Some("2025-01-01T00:00:00+00:00"));
    assert_eq!(data.unsigned_at("uptimeSeconds"), Some(60));
    assert_eq!(data.items_at("units").unwrap().len(), 0);
    assert!(data.get("rib").is_none());
    assert!(data.get("memory").unwrap().get("rssBytes").is_none());
    assert_eq!(info.uptime_secs(99), 0);

    info.set_config(snapshot("a = 1\n"));
    let stores = [StoreInfo {
        name: "unicast".into(),
        prefixes: 5,
        prefixes_v4: 3,
        prefixes_v6: 2,
        routes: 9,
    }];
    let memory = Memory { rss_bytes: Some(7), ..memory };
    let status = info.status(160, counts, Some(&stores), memory);
    let data = status.get("data").unwrap();
    let units = data.items_at("units").unwrap();
    assert_eq!(units[0].text_at("name"), Some("rib"));
    assert_eq!(units[0].text_at("type"), Some("rib-unit"));
    let rib = data.items_at("rib").unwrap();
    assert_eq!(rib[0].unsigned_at("prefixesV6"), Some(2));
    assert_eq!(data.get("memory").unwrap().unsigned_at("rssBytes"), Some(7));
}

#[test]
fn the_config_is_shown_only_if_it_could_be_redacted() {
    let mut info = DaemonInfo::new("x".into(), 0);
    assert!(matches!(
        info.config_document(),
        Err(ApiError::ServiceUnavailable(text)) if text == "config not loaded yet"
    ));
    info.set_config(snapshot(""));
    assert!(matches!(
        info.config_document(),
        Err(ApiError::InternalServerError(text)) if text == "config could not be redacted for display"
    ));
    info.set_config(snapshot("a = 1\n"));
    let document = info.config_document().unwrap();
    let data = document.get("data").unwrap();
    assert_eq!(data.text_at("path"), Some("/etc/netom/netom.conf"));
    assert_eq!(data.text_at("toml"), Some("a = 1\n"));
    assert_eq!(data.items_at("httpListen").unwrap()[0].as_text(), Some("[::]:8080"));
    assert!(data.get("rotoScript").is_none());
}

#[test]
fn filters_list_the_entrypoints() {
    let mut info = DaemonInfo::new("x".into(), 0);
    let mut config = snapshot("a = 1\n");
    config.roto_script = Some("f.roto".into());
    info.set_config(config);
    let document = info.filters(&Some("filter bgp_in {}".into()));
    let data = document.get("data").unwrap();
    assert_eq!(data.text_at("rotoScript"), Some("f.roto"));
    assert_eq!(data.text_at("source"), Some("filter bgp_in {}"));
    assert_eq!(data.items_at("entrypoints").unwrap().len(), 6);
    assert_eq!(info.config().unwrap().toml, "a = 1\n");
}

#[test]
fn lists_have_a_media_type() {
    assert_eq!(OutputFormat::default().content_type(), "application/json");
    assert_eq!(OutputFormat::Jsonl.content_type(), "application/x-ndjson");
}

#[test]
fn fractions_and_times_stay_as_they_are() {
    let input = "at = 1979-05-27T07:32:00.5-07:00\nbig = 1e300\nnot = -nan\npassword = \"x\"\n\
                 ratio = 0.10\nwhole = 3.0\n";
    let text = redact_toml(input).unwrap();
    assert!(text.contains("at = 1979-05-27T07:32:00.5-07:00\n"), "{text}");
    assert!(text.contains("password = \"<redacted>\"\n"), "{text}");
    assert!(text.contains("ratio = 0.1\n") && text.contains("whole = 3.0\n"), "{text}");
    assert_eq!(redact_toml(&text).unwrap(), text);
}
