use netom::cli::bgp::{render_neighbors, render_summary};
use netom::cli::bmp::{render_ingresses, render_router, render_routers, uptime_from, Moment};
use netom::cli::commands::{asks_for_new_word, find_command, help_text, what_may_follow};
use netom::cli::error::CliError;
use netom::cli::grammar::{Command, Typed};
use netom::cli::lex::tokenize;
use netom::cli::routes::{
    dump_truncated, filter_params, neighbors_path, render_best_path, render_flowspec,
    render_prefix, rib_base, route_columns, route_request, TableStream,
};
use netom::cli::tree::{Afi, Argument, Captures, Flag, PeerSource, Safi};

const NEIGHBORS: &str = r#"{
  "data": [
    {
      "peerAddress": "10.1.0.1",
      "peerAsn": 65001,
      "source": "bgp",
      "state": "Established",
      "configured": true,
      "connectMode": true,
      "name": "PeerA",
      "ingressId": 1,
      "upSeconds": 86400,
      "holdTimeConfigured": 90,
      "updatesReceived": 1200,
      "notificationsReceived": 0,
      "prefixesReceived": 12,
      "prefixesRejected": 0,
      "dupPrefixAdvertisements": 3
    },
    {
      "peerAddress": "10.1.0.2",
      "peerAsn": 65002,
      "source": "bgp",
      "state": "Established",
      "configured": true,
      "ingressId": 4,
      "upSeconds": 8073,
      "updatesReceived": 912034,
      "notificationsReceived": 1,
      "prefixesReceived": 84211,
      "prefixesRejected": 17,
      "dupPrefixAdvertisements": 2410338
    },
    {
      "peerAddress": "127.0.0.9",
      "peerAsn": 65009,
      "source": "bgp",
      "state": "Active",
      "configured": true,
      "connectMode": true,
      "updatesReceived": 0,
      "notificationsReceived": 0,
      "lastError": "connection refused"
    },
    {
      "peerAddress": "192.0.2.7",
      "peerAsn": 64500,
      "source": "bmp",
      "state": "Established",
      "configured": false,
      "routerId": "10.99.0.7",
      "ingressId": 3,
      "upSeconds": 600000,
      "viaRouter": "10.99.0.1",
      "viaIngressId": 2,
      "peerRibType": "InPre"
    }
  ]
}"#;

const BEST_PATH: &str = r#"{
  "data": {
    "nlri": "198.51.100.0/24",
    "strategy": "rfc4271",
    "best": {
      "rank": 1,
      "decidedBy": "asPathLength",
      "status": "active",
      "source": { "ingressId": 2 },
      "pathAttributes": [
        { "origin": "IGP" },
        { "asPath": ["AS65001"] },
        { "conventionalNextHop": "10.0.0.2" }
      ]
    },
    "alternatives": [
      {
        "rank": 2,
        "lostAt": "asPathLength",
        "status": "active",
        "ingress": { "id": 4 },
        "source": { "ingressId": 2, "pathId": 1 },
        "pathAttributes": [
          { "asPath": ["AS65001", "AS65002"] },
          { "conventionalNextHop": "10.0.0.2" }
        ]
      },
      {
        "rank": 3,
        "lostAt": "med",
        "status": "active",
        "source": { "ingressId": 3 },
        "pathAttributes": [
          { "asPath": ["AS65003"] },
          { "conventionalNextHop": "10.0.0.3" }
        ]
      }
    ],
    "ineligible": [
      {
        "reason": "missingAsPath",
        "status": "active",
        "source": { "ingressId": 9 },
        "pathAttributes": []
      }
    ]
  }
}"#;

const INGRESSES: &str = r#"{
  "data": [
    {
      "id": 2,
      "ingress_type": "bmp",
      "remote_addr": "10.99.0.1",
      "name": "edge1",
      "state": "connected"
    },
    {
      "id": 3,
      "ingress_type": "bgpViaBmp",
      "parent_ingress": 2,
      "remote_addr": "192.0.2.7",
      "remote_asn": 64500,
      "state": "connected",
      "peer_rib_type": "inPre",
      "session_up_time": "2025-01-01T00:00:00Z"
    },
    {
      "id": 4,
      "ingress_type": "bgpViaBmp",
      "parent_ingress": 2,
      "remote_addr": "192.0.2.8",
      "remote_asn": 64501,
      "state": "disconnected",
      "peer_rib_type": "inPost"
    },
    { "id": 5, "ingress_type": "bgpPath", "parent_ingress": 3, "path_id": 1 },
    { "id": 6, "ingress_type": "bgpPath", "parent_ingress": 3, "path_id": 2 }
  ]
}"#;

const ROUTES_PREFIX: &str = r#"{
  "data": {
    "nlri": "10.0.0.0/24",
    "routes": [
      {
        "status": "active",
        "pathAttributes": [
          { "origin": "IGP" },
          { "asPath": ["AS65001", "AS65010"] },
          { "conventionalNextHop": "192.0.2.1" }
        ]
      },
      {
        "status": "active",
        "pathAttributes": [
          { "asPath": [] },
          { "mpReachNlri": { "nextHop": "192.0.2.2" } }
        ]
      }
    ]
  }
}"#;

fn best(body: &str) -> String {
    render_best_path(body).unwrap()
}

#[test]
fn best_path_marks_exactly_one_winner() {
    let out = best(BEST_PATH);
    let marked: Vec<&str> =
        out.lines().filter(|l| l.trim_start().starts_with('>')).collect();
    assert_eq!(marked.len(), 1, "{out}");
    assert!(marked[0].contains("65001"), "{marked:?}");
    assert!(marked[0].contains("10.0.0.2"), "{marked:?}");
}

#[test]
fn best_path_shows_the_deciding_step_for_every_row() {
    let out = best(BEST_PATH);
    assert!(out.contains("asPathLength"), "{out}");
    assert!(out.contains("med"), "{out}");
}

#[test]
fn best_path_lists_ineligible_routes_with_their_reason() {
    let out = best(BEST_PATH);
    assert!(out.contains("excluded from the decision process"), "{out}");
    assert!(out.contains("missingAsPath"), "{out}");
    assert!(out.contains("peer 9"), "{out}");
}

#[test]
fn best_path_attributes_addpath_rows_to_the_session() {
    let out = best(BEST_PATH);
    let alt = out
        .lines()
        .find(|l| l.contains("65001 65002"))
        .expect("the two-hop alternative must be listed");
    let peer = alt.split_whitespace().last().unwrap();
    assert_eq!(peer, "asPathLength", "{alt}");
    assert!(alt.contains(" 2 "), "session id, not the child: {alt}");
}

#[test]
fn best_path_for_an_address_names_the_address() {
    let body = BEST_PATH.replace(
        r#""strategy": "rfc4271","#,
        r#""queryAddress": "198.51.100.7", "matchType": "longestMatch", "strategy": "rfc4271","#,
    );
    let out = best(&body);
    assert!(out.contains("198.51.100.0/24"), "{out}");
    assert!(out.contains("best path for 198.51.100.7"), "{out}");
}

#[test]
fn best_path_states_a_non_default_strategy() {
    let stated = |out: &str| {
        out.lines()
            .any(|l| l.trim_start().starts_with("decision process:"))
    };

    assert!(!stated(&best(BEST_PATH)), "rfc4271 is the default");

    let body = BEST_PATH.replace(r#""rfc4271""#, r#""skipMed""#);
    let out = best(&body);
    assert!(stated(&out), "{out}");
    assert!(out.contains("decision process: skipMed"), "{out}");
}

#[test]
fn best_path_reports_an_empty_table_and_an_all_ineligible_one_differently() {
    let empty = r#"{"data":{"nlri":"10.0.0.0/8","best":null,"alternatives":[],"ineligible":[]}}"#;
    assert!(best(empty).contains("Network not in table"));

    let excluded = r#"{"data":{"nlri":"10.0.0.0/8","best":null,"alternatives":[],
        "ineligible":[{"reason":"unknownIngress","source":{"ingressId":1},"pathAttributes":[]}]}}"#;
    let out = best(excluded);
    assert!(out.contains("No eligible path"), "{out}");
    assert!(out.contains("unknownIngress"), "{out}");
}

/// The words of a line, with the addresses and prefixes that they are.
fn typed(line: &str) -> Vec<Typed> {
    tokenize(line)
        .into_iter()
        .map(|token| {
            let text = token.text;
            let prefix =
                text.split_once('/').map(|(addr, len)| (addr.to_string(), len.parse().unwrap()));
            let is_ip = prefix.is_none() && text.contains(['.', ':']);
            let ip = if is_ip { Some(text.clone()) } else { None };
            Typed { text, ip, prefix }
        })
        .collect()
}

fn resolve(line: &str) -> Result<(Command, Captures), CliError> {
    find_command(line, &typed(line))
}

#[test]
fn the_best_flag_is_what_selects_the_best_path_command() {
    for line in [
        "show ip bgp 10.0.0.0/24 best",
        "show ip bgp best 10.0.0.7",
        "show ip bgp 10.0.0.0/24 best source bgp",
        "show ip bgp best 10.0.0.7 origin-as 65001",
        "show ipv6 bgp 2001:db8::/32 best",
    ] {
        let (_, captures) = resolve(line)
            .unwrap_or_else(|_| panic!("{line} must parse"));
        assert!(captures.best(), "{line} lost the Best flag");
    }

    let (_, captures) = resolve("show ip bgp 10.0.0.0/24").unwrap();
    assert!(!captures.best());
}

#[test]
fn commands_may_be_typed_in_short() {
    let (command, _) = resolve("sh ver").unwrap();
    assert_eq!(command, Command::Version);
    let (command, captures) = resolve("show bmp router 7").unwrap();
    assert_eq!(command, Command::Router);
    assert_eq!(captures.ingress_id(), Some(7));
    // In full, `router` does not mean `routers`.
    let text = |line: &str| resolve(line).unwrap_err().to_text();
    assert_eq!(text("show bmp router"), "% Incomplete command.");
    assert_eq!(text(" frobnicate x "), "% Invalid input: frobnicate x");
    assert_eq!(text("show bmp router x"), "% Invalid input: show bmp router x");
    assert_eq!(text("show i bgp summary"), "% Ambiguous command.");
    let (command, captures) = resolve("show ip bgp neighbors 10.0.0.1 routes").unwrap();
    assert_eq!(command, Command::Routes);
    assert_eq!(captures.ip(), Some("10.0.0.1"));
}

#[test]
fn what_may_follow_is_listed_once() {
    let found = what_may_follow(&typed("show bmp"), "rou");
    let shown: Vec<&str> = found.iter().map(|c| c.display.as_str()).collect();
    assert_eq!(shown, ["routers", "router"]);
    let found = what_may_follow(&typed("show bmp router"), "");
    assert_eq!(found.len(), 1);
    assert_eq!(found[0].insert, "");
    assert_eq!(help_text(&found), "  <id>             One monitored router");
    let found = what_may_follow(&typed("show ip bgp"), "");
    assert!(found.iter().any(|c| c.display == "<prefix>"));
    assert_eq!(found.iter().filter(|c| c.display == "source").count(), 1);
}

#[test]
fn best_path_notes_assumptions_behind_the_winner() {
    let body = BEST_PATH.replace(
        r#""decidedBy": "asPathLength","#,
        r#""decidedBy": "asPathLength", "assumed": ["routeSource"],"#,
    );
    let out = best(&body);
    assert!(out.contains("assumed routeSource"), "{out}");
}

fn render(body: &str, only: Option<PeerSource>) -> String {
    render_summary(body, only).unwrap()
}

#[test]
fn summary_lists_both_sources_with_a_total() {
    let out = render(NEIGHBORS, None);
    assert!(out.contains("10.1.0.1"));
    assert!(out.contains("192.0.2.7"));
    assert!(out.contains("Total neighbors 4 (bgp 3, bmp 1)"), "{out}");
}

#[test]
fn summary_shows_down_peers_with_their_state() {
    let out = render(NEIGHBORS, None);
    let dead = out
        .lines()
        .find(|l| l.contains("127.0.0.9"))
        .expect("configured-but-down peer must have a row");
    assert!(dead.contains("Active"), "{dead}");
    assert!(dead.contains("never"), "{dead}");
}

#[test]
fn summary_shows_prefix_count_for_established_peers() {
    let out = render(NEIGHBORS, None);
    let up = out.lines().find(|l| l.contains("10.1.0.2")).unwrap();
    assert!(up.contains("84,211"), "{up}");
    assert!(up.contains("02:14:33") || up.contains(":"), "{up}");
}

#[test]
fn summary_does_not_report_zero_prefixes_for_bmp_peers() {
    let out = render(NEIGHBORS, None);
    let bmp = out.lines().find(|l| l.contains("192.0.2.7")).unwrap();
    assert!(bmp.trim_end().ends_with('-'), "{bmp}");
}

#[test]
fn summary_can_be_narrowed_to_one_source() {
    let out = render(NEIGHBORS, Some(PeerSource::Bgp));
    assert!(!out.contains("192.0.2.7"));
    assert!(out.contains("Total neighbors 3 (bgp 3, bmp 0)"), "{out}");

    let out = render(NEIGHBORS, Some(PeerSource::Bmp));
    assert!(out.contains("192.0.2.7"));
    assert!(!out.contains("10.1.0.1 "));
}

#[test]
fn summary_of_an_empty_table_still_has_a_header() {
    let out = render(r#"{"data":[]}"#, None);
    assert!(out.starts_with("Neighbor"));
    assert!(out.contains("Total neighbors 0"));
}

#[test]
fn neighbor_detail_explains_the_counter_limitation() {
    let out = render_neighbors(NEIGHBORS).unwrap();
    assert!(out.contains("BGP neighbor is 10.1.0.2"));
    assert!(out.contains("remote AS 65002"));
    assert!(out.contains("KEEPALIVEs"), "{out}");
    assert!(out.contains("Monitored router: 10.99.0.1"), "{out}");
}

#[test]
fn neighbor_detail_separates_table_size_from_churn() {
    let out = render_neighbors(NEIGHBORS).unwrap();
    assert!(out.contains("Current:    84,211"), "{out}");
    assert!(out.contains("Duplicates: 2,410,338"), "{out}");
}

#[test]
fn neighbor_detail_reports_no_match_clearly() {
    assert_eq!(
        render_neighbors(r#"{"data":[]}"#).unwrap(),
        "% No matching neighbor.\n"
    );
}

#[test]
fn prefix_lookup_renders_each_path() {
    let out = render_prefix(ROUTES_PREFIX).unwrap();
    assert!(out.contains("BGP routing table entry for 10.0.0.0/24"));
    assert!(out.contains("192.0.2.1"));
    assert!(out.contains("192.0.2.2"));
    assert!(out.contains("65001"));
    assert!(!out.contains("AS65001"));
}

#[test]
fn prefix_lookup_reports_a_miss() {
    assert_eq!(
        render_prefix(r#"{"data":{"nlri":null,"routes":[]}}"#).unwrap(),
        "% Network not in table.\n"
    );
}

#[test]
fn prefix_lookup_has_one_row_for_each_route() {
    assert_eq!(
        render_prefix(ROUTES_PREFIX).unwrap(),
        "BGP routing table entry for 10.0.0.0/24\n\
         Network              Next Hop             Path\n\
         10.0.0.0/24          192.0.2.1            65001 65010\n\
         10.0.0.0/24          192.0.2.2            i\n",
    );
}

#[test]
fn rib_paths_cover_every_family() {
    assert_eq!(
        rib_base(Afi::V4, Safi::Unicast),
        "/api/v1/ribs/ipv4unicast/routes"
    );
    assert_eq!(
        rib_base(Afi::V6, Safi::Unicast),
        "/api/v1/ribs/ipv6unicast/routes"
    );
    assert_eq!(
        rib_base(Afi::V4, Safi::FlowSpec),
        "/api/v1/ribs/ipv4flowspec/routes"
    );
    assert_eq!(
        rib_base(Afi::V6, Safi::FlowSpec),
        "/api/v1/ribs/ipv6flowspec/routes"
    );
}

fn captures(args: Vec<Argument>, flags: Vec<Flag>) -> Captures {
    Captures { args, flags }
}

#[test]
fn filters_map_onto_the_query_parameters() {
    assert!(filter_params(&Captures::default()).is_empty());

    assert_eq!(
        filter_params(&captures(vec![], vec![Flag::Source(PeerSource::Bmp)])),
        vec!["filter[ingressType]=bmp"]
    );
    assert_eq!(
        filter_params(&captures(vec![], vec![Flag::Source(PeerSource::Mrt)])),
        vec!["filter[ingressType]=mrt"]
    );
    assert_eq!(
        filter_params(&captures(vec![Argument::IngressId(5)], vec![])),
        vec!["ingressId=5"]
    );
    assert_eq!(
        filter_params(&captures(vec![Argument::Ip("10.0.0.1".into())], vec![])),
        vec!["filter[peerAddress]=10.0.0.1"]
    );
    assert_eq!(
        filter_params(&captures(vec![Argument::Asn(65001)], vec![])),
        vec!["filter[originAsn]=65001"]
    );
    assert_eq!(
        filter_params(&captures(
            vec![Argument::Community("65000:100".into())],
            vec![]
        )),
        vec!["filter[community]=65000:100"]
    );
}

#[test]
fn a_filtered_table_dump_keeps_format_jsonl() {
    let mut query = vec![String::from("format=jsonl")];
    query.extend(filter_params(&captures(
        vec![],
        vec![Flag::Source(PeerSource::Bgp)],
    )));
    assert_eq!(
        format!("{}?{}", rib_base(Afi::V4, Safi::Unicast), query.join("&")),
        "/api/v1/ribs/ipv4unicast/routes\
         ?format=jsonl&filter[ingressType]=bgp"
            .replace(['\n', ' '], "")
    );
    let request = route_request(&captures(
        vec![],
        vec![Flag::Source(PeerSource::Bgp)],
    ))
    .unwrap();
    assert_eq!(
        request.path,
        "/api/v1/ribs/ipv4unicast/routes?format=jsonl&filter[ingressType]=bgp"
    );
}

#[test]
fn a_best_path_query_by_address_does_not_filter_by_peer() {
    let request = route_request(&captures(
        vec![Argument::Ip("10.0.0.7".into()), Argument::Asn(65001)],
        vec![Flag::Best],
    ))
    .unwrap();
    assert_eq!(
        request.path,
        "/api/v1/ribs/ipv4unicast/best-path/10.0.0.7?filter[originAsn]=65001"
    );
    let request = route_request(&captures(
        vec![Argument::Prefix("2001:db8::".into(), 32)],
        vec![Flag::Ipv6, Flag::Best],
    ))
    .unwrap();
    assert_eq!(
        request.path,
        "/api/v1/ribs/ipv6unicast/best-path/2001:db8::/32"
    );
    let error = route_request(&captures(vec![], vec![Flag::Best])).unwrap_err();
    assert_eq!(error.to_text(), "best path needs a prefix or an address");
}

#[test]
fn flowspec_queries_are_never_dumps() {
    let request = route_request(&captures(vec![], vec![Flag::FlowSpec])).unwrap();
    assert_eq!(request.path, "/api/v1/ribs/ipv4flowspec/routes");
    assert_eq!(neighbors_path(&Captures::default()), "/api/v1/bgp/neighbors");
    assert_eq!(
        neighbors_path(&captures(vec![Argument::Ip("10.0.0.1".into())], vec![])),
        "/api/v1/bgp/neighbors/10.0.0.1"
    );
}

#[test]
fn flowspec_rules_are_listed_with_their_actions() {
    let out = render_flowspec(
        r#"{"data":[{"keyPrefix":"10.0.0.0/24","nlri":"dst 10.0.0.0/24",
            "actions":["discard","mark 3"],"validity":"valid","source":{"ingressId":7,"pathId":2}}]}"#,
    )
    .unwrap();
    assert!(out.starts_with("Prefix"), "{out}");
    assert!(out.contains("discard, mark 3"), "{out}");
    assert!(out.contains("10.0.0.0/24"), "{out}");
    assert!(out.contains("7 path 2"), "{out}");
    assert!(out.ends_with("\nTotal rules 1\n"), "{out}");
}

#[test]
fn a_dump_skips_lines_that_are_no_documents() {
    let cols = route_columns();
    let mut stream = TableStream::new(&cols);
    stream.line(r#"{"prefix":"10.0.0.0/24","pathAttributes":[{"asPath":["AS1"]}]}"#);
    stream.line("");
    stream.line("not json");
    stream.line(r#"{"prefix":"10.0.1.0/24","pathAttributes":[]}"#);
    let out = stream.finish();
    assert!(out.contains("10.0.0.0/24"), "{out}");
    assert!(out.ends_with("\nTotal routes 2\n"), "{out}");
    assert!(dump_truncated().to_text().starts_with("% Output truncated"));
}

#[test]
fn malformed_answers_are_transport_errors() {
    let err = render_neighbors("not json").unwrap_err();
    assert!(err.to_text().starts_with("% Malformed JSON: "), "{}", err.to_text());
}

fn data(all: &str) -> Vec<serde_json::Value> {
    let value: serde_json::Value = serde_json::from_str(all).unwrap();
    value["data"].as_array().cloned().unwrap()
}

fn envelope(data: serde_json::Value) -> String {
    let mut fields = serde_json::Map::new();
    fields.insert("data".to_string(), data);
    serde_json::Value::Object(fields).to_string()
}

fn now() -> Moment {
    Moment { secs: 1_735_689_600 + 3_661, nanos: 0 }
}

fn bmp_only() -> String {
    let routers: Vec<_> = data(INGRESSES)
        .into_iter()
        .filter(|i| i["ingress_type"].as_str() == Some("bmp"))
        .collect();
    envelope(serde_json::Value::Array(routers))
}

#[test]
fn routers_are_listed_with_their_peer_counts() {
    let out = render_routers(&bmp_only(), INGRESSES).unwrap();
    let row = out.lines().find(|l| l.contains("10.99.0.1")).unwrap();
    assert!(row.trim_end().ends_with('2'), "{row}");
    assert!(out.contains("Total routers 1"));
}

fn router_json() -> String {
    let router = data(INGRESSES)
        .into_iter()
        .find(|i| i["id"].as_u64() == Some(2))
        .unwrap();
    envelope(router)
}

#[test]
fn router_detail_lists_its_neighbors() {
    let out = render_router(2, &router_json(), INGRESSES, now()).unwrap();
    assert!(out.contains("BMP router 10.99.0.1 (ingress 2)"));
    assert!(out.contains("192.0.2.7"));
    assert!(out.contains("Total neighbors 2"), "{out}");
    let up = out.lines().find(|l| l.contains("192.0.2.7")).unwrap();
    assert!(up.ends_with("01:01:01"), "{up}");
}

#[test]
fn router_detail_rejects_a_non_bmp_ingress() {
    let peer = data(INGRESSES)
        .into_iter()
        .find(|i| i["ingress_type"].as_str() == Some("bgpViaBmp"))
        .unwrap();
    let body = envelope(peer);

    let out = render_router(3, &body, INGRESSES, now()).unwrap();
    assert!(out.contains("not a BMP router"), "{out}");
}

#[test]
fn router_detail_reports_an_unknown_id() {
    let out = render_router(99, r#"{"data":null}"#, INGRESSES, now()).unwrap();
    assert!(out.contains("No ingress with id 99"));
}

#[test]
fn ingresses_are_listed_with_their_parents() {
    let out = render_ingresses(INGRESSES).unwrap();
    assert!(out.contains("bgpViaBmp"));
    assert!(out.contains("bgpPath"));
    assert!(out.contains("Total ingresses 5"), "{out}");
}

#[test]
fn a_missing_timestamp_reads_as_never() {
    assert_eq!(uptime_from(None, now()), "never");
}

#[test]
fn a_timestamp_reads_as_the_time_since() {
    assert_eq!(uptime_from(Some("2025-01-01T00:00:00Z"), now()), "01:01:01");
    assert_eq!(uptime_from(Some("2025-01-01T01:00:00+01:00"), now()), "01:01:01");
    assert_eq!(uptime_from(Some("2026-01-01T00:00:00Z"), now()), "00:00:00");
    assert_eq!(uptime_from(Some("yesterday"), now()), "-");
}

#[test]
fn a_line_of_a_stream_has_to_be_text() {
    let cols = route_columns();
    let mut stream = TableStream::new(&cols);
    assert!(stream.octets(b"{\"prefix\":\"10.0.0.0/8\"}".to_vec()).is_ok());
    assert_eq!(stream.count, 1);
    let error = stream.octets(vec![0xff]).unwrap_err();
    assert!(error.to_text().contains("stream did not contain valid UTF-8"));
    assert_eq!(stream.count, 1);
}

#[test]
fn a_new_word_is_asked_for_between_words() {
    assert!(asks_for_new_word("") && asks_for_new_word("show "));
    assert!(!asks_for_new_word("show"));
}
