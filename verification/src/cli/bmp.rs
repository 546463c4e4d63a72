//! BMP routers and ingresses.

use crate::cli::bgp::{
    data_items, field_or_dash, malformed, number_or_dash, opt_number, or_dash, parse_answer,
};
use crate::cli::error::{CliError, ErrorView};
use crate::cli::fmt::{uptime, uptime_text};
use crate::cli::table::{
    col_views, empty_table, left, left_col, right, right_col, shows, table_text, with_row, Col,
    ColView, Table, TableView,
};
use crate::json::{deep_items, json_in, Json, JsonView};
use crate::text::{decimal, decimal_text, join3, same, string_views};
use vstd::prelude::*;
use vstd::string::StringExecFns;

verus! {

/// A moment: seconds since the epoch and nanoseconds.
#[derive(Clone, Copy, Debug, PartialEq, Eq, Structural)]
pub struct Moment {
    pub secs: i64,
    pub nanos: u32,
}

/// The whole seconds between a time that is written as in RFC 3339 and a
/// moment; nothing if the time or the moment is none.
pub uninterp spec fn seconds_since(text: Seq<char>, secs: i64, nanos: u32) -> Option<i64>;

/// `chrono::DateTime::parse_from_rfc3339` reads a time, and the difference of
/// two times has `num_seconds` whole seconds.
#[verifier::external_body]
fn elapsed_since(text: &str, now: Moment) -> (r: Option<i64>)
    ensures
        r == seconds_since(text@, now.secs, now.nanos),
{
    let when = chrono::DateTime::parse_from_rfc3339(text).ok()?;
    let now = chrono::DateTime::from_timestamp(now.secs, now.nanos)?;
    Some((now - when.with_timezone(&chrono::Utc)).num_seconds())
}

/// What is shown of how long something has lasted, given the seconds; less
/// than nothing counts as nothing.
pub open spec fn lasted_text(seconds: Option<i64>) -> Seq<char> {
    match seconds {
        Some(secs) => uptime_text(
            if secs < 0 {
                0
            } else {
                secs as nat
            },
        ),
        None => "-"@,
    }
}

/// Shows how long something has lasted.
pub fn show_lasted(seconds: Option<i64>) -> (r: String)
    ensures
        r@ == lasted_text(seconds),
{
    match seconds {
        Some(secs) => uptime(
            if secs < 0 {
                0
            } else {
                secs as u64
            },
        ),
        None => "-".to_owned(),
    }
}

/// How long ago a time was, if there is one.
pub open spec fn since_text(time: Option<Seq<char>>, now: Moment) -> Seq<char> {
    match time {
        None => "never"@,
        Some(text) => lasted_text(seconds_since(text, now.secs, now.nanos)),
    }
}

/// Shows how long ago a time was.
pub fn uptime_from(time: Option<&str>, now: Moment) -> (r: String)
    ensures
        r@ == since_text(
            match time {
                Some(text) => Some(text@),
                None => None,
            },
            now,
        ),
{
    match time {
        None => "never".to_owned(),
        Some(text) => show_lasted(elapsed_since(text, now)),
    }
}

/// A number that is zero if it is missing.
pub open spec fn or_zero(n: Option<u64>) -> u64 {
    match n {
        Some(n) => n,
        None => 0,
    }
}

pub(crate) fn zero_if_none(n: Option<u64>) -> (r: u64)
    ensures
        r == or_zero(n),
{
    match n {
        Some(n) => n,
        None => 0,
    }
}

/// Whether an ingress is a peer of a BMP router. Paths of such a peer are not.
pub open spec fn is_peer_of(ingress: JsonView, id: u64) -> bool {
    ingress.unsigned_at("parent_ingress"@) == Some(id) && ingress.text_at("ingress_type"@) == Some(
        "bgpViaBmp"@,
    )
}

fn peer_of(ingress: &Json, id: u64) -> (r: bool)
    ensures
        r == is_peer_of(ingress.deep(), id),
{
    let kind = match ingress.text_at("ingress_type") {
        Some(kind) => same(kind, "bgpViaBmp"),
        None => false,
    };
    ingress.unsigned_at("parent_ingress") == Some(id) && kind
}

/// How many of some ingresses are peers of a BMP router.
pub open spec fn peers_of(all: Seq<JsonView>, id: u64) -> nat
    decreases all.len(),
{
    if all.len() == 0 {
        0
    } else {
        peers_of(all.drop_last(), id) + (if is_peer_of(all.last(), id) {
            1nat
        } else {
            0nat
        })
    }
}

fn count_peers(all: &[Json], id: u64) -> (r: usize)
    ensures
        r == peers_of(deep_items(all@), id),
{
    let ghost items = deep_items(all@);
    let mut n: usize = 0;
    let mut i: usize = 0;
    assert(items.take(0) =~= seq![]);
    while i < all.len()
        invariant
            i <= all@.len(),
            n <= i,
            items == deep_items(all@),
            n == peers_of(items.take(i as int), id),
        decreases all.len() - i,
    {
        proof {
            assert(items.take(i + 1).drop_last() =~= items.take(i as int));
            assert(items.take(i + 1).last() == all@[i as int].deep());
        }
        if peer_of(&all[i], id) {
            n += 1;
        }
        i += 1;
    }
    assert(items.take(i as int) =~= items);
    n
}

/// The columns of a list of BMP routers.
pub open spec fn router_cols() -> Seq<ColView> {
    seq![
        right_col("Id"@, 4),
        left_col("Router"@, 15),
        left_col("Name"@, 20),
        left_col("State"@, 12),
        right_col("Peers"@, 6),
    ]
}

fn router_columns() -> (r: Vec<Col>)
    ensures
        col_views(r@) == router_cols(),
{
    let r = vec![
        right("Id", 4),
        left("Router", 15),
        left("Name", 20),
        left("State", 12),
        right("Peers", 6),
    ];
    assert(col_views(r@) =~= router_cols());
    r
}

/// The row of a BMP router.
pub open spec fn router_row(router: JsonView, all: Seq<JsonView>) -> Seq<Seq<char>> {
    let id = or_zero(router.unsigned_at("id"@));
    seq![
        decimal_text(id as nat),
        or_dash(router.text_at("remote_addr"@)),
        or_dash(router.text_at("name"@)),
        or_dash(router.text_at("state"@)),
        decimal_text(peers_of(all, id)),
    ]
}

fn router_cells(router: &Json, all: &[Json]) -> (r: Vec<String>)
    ensures
        string_views(r@) == router_row(router.deep(), deep_items(all@)),
{
    let id: u64 = zero_if_none(router.unsigned_at("id"));
    let peers: usize = count_peers(all, id);
    let r = vec![
        decimal(id),
        field_or_dash(router, "remote_addr"),
        field_or_dash(router, "name"),
        field_or_dash(router, "state"),
        decimal(peers as u64),
    ];
    assert(string_views(r@) =~= router_row(router.deep(), deep_items(all@)));
    r
}

/// A table of BMP routers.
pub open spec fn routers_table(routers: Seq<JsonView>, all: Seq<JsonView>) -> TableView
    decreases routers.len(),
{
    if routers.len() == 0 {
        empty_table(router_cols(), false)
    } else {
        with_row(routers_table(routers.drop_last(), all), router_row(routers.last(), all))
    }
}

/// A list of BMP routers and how many there are.
pub open spec fn routers_text(routers: Seq<JsonView>, all: Seq<JsonView>) -> Seq<char> {
    table_text(routers_table(routers, all)) + "\nTotal routers "@ + decimal_text(routers.len())
        + "\n"@
}

/// Shows BMP routers, given them and all ingresses.
pub fn show_routers(routers: &[Json], all: &[Json]) -> (r: String)
    ensures
        r@ == routers_text(deep_items(routers@), deep_items(all@)),
{
    let ghost items = deep_items(routers@);
    let cols = router_columns();
    let mut table = Table::fit(&cols);
    let mut i: usize = 0;
    assert(items.take(0) =~= seq![]);
    while i < routers.len()
        invariant
            i <= routers@.len(),
            items == deep_items(routers@),
            table@ == routers_table(items.take(i as int), deep_items(all@)),
        decreases routers.len() - i,
    {
        proof {
            assert(items.take(i + 1).drop_last() =~= items.take(i as int));
            assert(items.take(i + 1).last() == routers@[i as int].deep());
        }
        table.row(router_cells(&routers[i], all));
        i += 1;
    }
    assert(items.take(i as int) =~= items);
    let mut out = table.finish();
    out.append("\nTotal routers ");
    out.append(decimal(routers.len() as u64).as_str());
    out.append("\n");
    out
}

/// What comes of showing something of two answers.
pub open spec fn of_both(
    first: Result<JsonView, Seq<char>>,
    second: Result<JsonView, Seq<char>>,
    text: spec_fn(JsonView, JsonView) -> Seq<char>,
) -> Result<Seq<char>, ErrorView> {
    match first {
        Err(error) => Err(malformed(error)),
        Ok(a) => match second {
            Err(error) => Err(malformed(error)),
            Ok(b) => Ok(text(a, b)),
        },
    }
}

/// Shows the BMP routers in an answer, given another with all ingresses.
pub fn render_routers(routers: &str, all: &str) -> (r: Result<String, CliError>)
    ensures
        match of_both(
            json_in(routers@),
            json_in(all@),
            |a: JsonView, b: JsonView| routers_text(data_items(a), data_items(b)),
        ) {
            Ok(text) => r is Ok && r->Ok_0@ == text,
            Err(error) => r is Err && r->Err_0@ == error,
        },
{
    let first = parse_answer(routers)?;
    let second = parse_answer(all)?;
    let none: Vec<Json> = Vec::new();
    assert(deep_items(none@) =~= seq![]);
    let list = match first.items_at("data") {
        Some(items) => items,
        None => &none,
    };
    let rest = match second.items_at("data") {
        Some(items) => items,
        None => &none,
    };
    Ok(show_routers(list, rest))
}

/// The columns of a list of peers of a BMP router.
pub open spec fn peer_cols() -> Seq<ColView> {
    seq![
        right_col("Id"@, 4),
        left_col("Neighbor"@, 15),
        right_col("AS"@, 6),
        left_col("State"@, 12),
        left_col("RibType"@, 8),
        right_col("Up/Down"@, 9),
    ]
}

fn peer_columns() -> (r: Vec<Col>)
    ensures
        col_views(r@) == peer_cols(),
{
    let r = vec![
        right("Id", 4),
        left("Neighbor", 15),
        right("AS", 6),
        left("State", 12),
        left("RibType", 8),
        right("Up/Down", 9),
    ];
    assert(col_views(r@) =~= peer_cols());
    r
}

/// The row of a peer of a BMP router.
pub open spec fn peer_row(peer: JsonView, now: Moment) -> Seq<Seq<char>> {
    seq![
        decimal_text(or_zero(peer.unsigned_at("id"@)) as nat),
        or_dash(peer.text_at("remote_addr"@)),
        number_or_dash(peer.unsigned_at("remote_asn"@)),
        or_dash(peer.text_at("state"@)),
        or_dash(peer.text_at("peer_rib_type"@)),
        since_text(peer.text_at("session_up_time"@), now),
    ]
}

fn peer_cells(peer: &Json, now: Moment) -> (r: Vec<String>)
    ensures
        string_views(r@) == peer_row(peer.deep(), now),
{
    let r = vec![
        decimal(zero_if_none(peer.unsigned_at("id"))),
        field_or_dash(peer, "remote_addr"),
        opt_number(peer.unsigned_at("remote_asn")),
        field_or_dash(peer, "state"),
        field_or_dash(peer, "peer_rib_type"),
        uptime_from(peer.text_at("session_up_time"), now),
    ];
    assert(string_views(r@) =~= peer_row(peer.deep(), now));
    r
}

/// A table of the peers of a BMP router.
pub open spec fn peers_table(all: Seq<JsonView>, id: u64, now: Moment) -> TableView
    decreases all.len(),
{
    if all.len() == 0 {
        empty_table(peer_cols(), false)
    } else {
        let rest = peers_table(all.drop_last(), id, now);
        if is_peer_of(all.last(), id) {
            with_row(rest, peer_row(all.last(), now))
        } else {
            rest
        }
    }
}

/// What is said of an ingress that is no BMP router.
pub open spec fn no_router_text(id: u32, router: Option<JsonView>) -> Option<Seq<char>> {
    match router {
        None => Some("% No ingress with id "@ + decimal_text(id as nat) + ".\n"@),
        Some(JsonView::Null) => Some("% No ingress with id "@ + decimal_text(id as nat) + ".\n"@),
        Some(router) => if router.text_at("ingress_type"@) != Some("bmp"@) {
            Some(
                "% Ingress "@ + decimal_text(id as nat) + " is a "@ + (match router.text_at(
                    "ingress_type"@,
                ) {
                    Some(kind) => kind,
                    None => "unknown"@,
                }) + ", not a BMP router.\n"@,
            )
        } else {
            None
        },
    }
}

/// The lines before the peers of a BMP router.
pub open spec fn router_head(id: u32, router: JsonView) -> Seq<char> {
    let out = "BMP router "@ + or_dash(router.text_at("remote_addr"@)) + " (ingress "@
        + decimal_text(id as nat) + ")\n"@;
    let out = match router.text_at("name"@) {
        Some(name) => out + "  Name: "@ + name + "\n"@,
        None => out,
    };
    let out = match router.text_at("state"@) {
        Some(state) => out + "  State: "@ + state + "\n"@,
        None => out,
    };
    out + "\n"@
}

/// A BMP router and its peers.
pub open spec fn router_text(id: u32, router: JsonView, all: Seq<JsonView>, now: Moment) -> Seq<
    char,
> {
    router_head(id, router) + table_text(peers_table(all, id as u64, now)) + "\nTotal neighbors "@
        + decimal_text(peers_of(all, id as u64)) + "\n"@
}

/// What comes of showing a BMP router.
pub open spec fn router_answer(
    id: u32,
    first: Result<JsonView, Seq<char>>,
    second: Result<JsonView, Seq<char>>,
    now: Moment,
) -> Result<Seq<char>, ErrorView> {
    match first {
        Err(error) => Err(malformed(error)),
        Ok(document) => match no_router_text(id, document.get("data"@)) {
            Some(text) => Ok(text),
            None => match second {
                Err(error) => Err(malformed(error)),
                Ok(all) => Ok(router_text(id, document.get("data"@)->0, data_items(all), now)),
            },
        },
    }
}

fn show_no_router(id: u32, router: Option<&Json>) -> (r: Option<String>)
    ensures
        match r {
            Some(text) => no_router_text(
                id,
                match router {
                    Some(router) => Some(router.deep()),
                    None => None,
                },
            ) == Some(text@),
            None => no_router_text(
                id,
                match router {
                    Some(router) => Some(router.deep()),
                    None => None,
                },
            ) is None,
        },
{
    let number = decimal(id as u64);
    let router = match router {
        None => {
            return Some(join3("% No ingress with id ", number.as_str(), ".\n"));
        },
        Some(Json::Null) => {
            return Some(join3("% No ingress with id ", number.as_str(), ".\n"));
        },
        Some(router) => router,
    };
    let kind = router.text_at("ingress_type");
    let is_bmp = match kind {
        Some(kind) => same(kind, "bmp"),
        None => false,
    };
    if is_bmp {
        return None;
    }
    let mut out = join3("% Ingress ", number.as_str(), " is a ");
    match kind {
        Some(kind) => out.append(kind),
        None => out.append("unknown"),
    }
    out.append(", not a BMP router.\n");
    Some(out)
}

fn put_router_head(id: u32, router: &Json) -> (r: String)
    ensures
        r@ == router_head(id, router.deep()),
{
    let mut out = "BMP router ".to_owned();
    out.append(field_or_dash(router, "remote_addr").as_str());
    out.append(" (ingress ");
    out.append(decimal(id as u64).as_str());
    out.append(")\n");
    if let Some(name) = router.text_at("name") {
        out.append("  Name: ");
        out.append(name);
        out.append("\n");
    }
    if let Some(state) = router.text_at("state") {
        out.append("  State: ");
        out.append(state);
        out.append("\n");
    }
    out.append("\n");
    out
}

/// Shows a BMP router, given it and all ingresses.
pub fn show_router(id: u32, router: &Json, all: &[Json], now: Moment) -> (r: String)
    ensures
        r@ == router_text(id, router.deep(), deep_items(all@), now),
{
    let ghost items = deep_items(all@);
    let cols = peer_columns();
    let mut table = Table::fit(&cols);
    let mut count: usize = 0;
    let mut i: usize = 0;
    assert(items.take(0) =~= seq![]);
    while i < all.len()
        invariant
            i <= all@.len(),
            count <= i,
            items == deep_items(all@),
            table@ == peers_table(items.take(i as int), id as u64, now),
            count == peers_of(items.take(i as int), id as u64),
        decreases all.len() - i,
    {
        proof {
            assert(items.take(i + 1).drop_last() =~= items.take(i as int));
            assert(items.take(i + 1).last() == all@[i as int].deep());
        }
        if peer_of(&all[i], id as u64) {
            count += 1;
            table.row(peer_cells(&all[i], now));
        }
        i += 1;
    }
    assert(items.take(i as int) =~= items);
    let mut out = put_router_head(id, router);
    out.append(table.finish().as_str());
    out.append("\nTotal neighbors ");
    out.append(decimal(count as u64).as_str());
    out.append("\n");
    out
}

/// Shows the BMP router in an answer, given another with all ingresses.
pub fn render_router(id: u32, router: &str, all: &str, now: Moment) -> (r: Result<
    String,
    CliError,
>)
    ensures
        match router_answer(id, json_in(router@), json_in(all@), now) {
            Ok(text) => r is Ok && r->Ok_0@ == text,
            Err(error) => r is Err && r->Err_0@ == error,
        },
{
    let document = parse_answer(router)?;
    let found = document.get("data");
    if let Some(text) = show_no_router(id, found) {
        return Ok(text);
    }
    let second = parse_answer(all)?;
    let none: Vec<Json> = Vec::new();
    assert(deep_items(none@) =~= seq![]);
    let rest = match second.items_at("data") {
        Some(items) => items,
        None => &none,
    };
    match found {
        Some(router) => Ok(show_router(id, router, rest, now)),
        None => Ok("".to_owned()),
    }
}

/// The columns of a list of ingresses.
pub open spec fn ingress_cols() -> Seq<ColView> {
    seq![
        right_col("Id"@, 4),
        left_col("Type"@, 11),
        right_col("Parent"@, 6),
        left_col("Address"@, 15),
        right_col("AS"@, 6),
        left_col("State"@, 12),
    ]
}

fn ingress_columns() -> (r: Vec<Col>)
    ensures
        col_views(r@) == ingress_cols(),
{
    let r = vec![
        right("Id", 4),
        left("Type", 11),
        right("Parent", 6),
        left("Address", 15),
        right("AS", 6),
        left("State", 12),
    ];
    assert(col_views(r@) =~= ingress_cols());
    r
}

/// The row of an ingress.
pub open spec fn ingress_row(i: JsonView) -> Seq<Seq<char>> {
    seq![
        decimal_text(or_zero(i.unsigned_at("id"@)) as nat),
        or_dash(i.text_at("ingress_type"@)),
        number_or_dash(i.unsigned_at("parent_ingress"@)),
        or_dash(i.text_at("remote_addr"@)),
        number_or_dash(i.unsigned_at("remote_asn"@)),
        or_dash(i.text_at("state"@)),
    ]
}

fn ingress_cells(i: &Json) -> (r: Vec<String>)
    ensures
        string_views(r@) == ingress_row(i.deep()),
{
    let r = vec![
        decimal(zero_if_none(i.unsigned_at("id"))),
        field_or_dash(i, "ingress_type"),
        opt_number(i.unsigned_at("parent_ingress")),
        field_or_dash(i, "remote_addr"),
        opt_number(i.unsigned_at("remote_asn")),
        field_or_dash(i, "state"),
    ];
    assert(string_views(r@) =~= ingress_row(i.deep()));
    r
}

/// A table of ingresses.
pub open spec fn ingresses_table(all: Seq<JsonView>) -> TableView
    decreases all.len(),
{
    if all.len() == 0 {
        empty_table(ingress_cols(), false)
    } else {
        with_row(ingresses_table(all.drop_last()), ingress_row(all.last()))
    }
}

/// A list of ingresses and how many there are.
pub open spec fn ingresses_text(all: Seq<JsonView>) -> Seq<char> {
    table_text(ingresses_table(all)) + "\nTotal ingresses "@ + decimal_text(all.len()) + "\n"@
}

/// Shows ingresses.
pub fn show_ingresses(all: &[Json]) -> (r: String)
    ensures
        r@ == ingresses_text(deep_items(all@)),
{
    let ghost items = deep_items(all@);
    let cols = ingress_columns();
    let mut table = Table::fit(&cols);
    let mut i: usize = 0;
    assert(items.take(0) =~= seq![]);
    while i < all.len()
        invariant
            i <= all@.len(),
            items == deep_items(all@),
            table@ == ingresses_table(items.take(i as int)),
        decreases all.len() - i,
    {
        proof {
            assert(items.take(i + 1).drop_last() =~= items.take(i as int));
            assert(items.take(i + 1).last() == all@[i as int].deep());
        }
        table.row(ingress_cells(&all[i]));
        i += 1;
    }
    assert(items.take(i as int) =~= items);
    let mut out = table.finish();
    out.append("\nTotal ingresses ");
    out.append(decimal(all.len() as u64).as_str());
    out.append("\n");
    out
}

/// Shows the ingresses in an answer.
pub fn render_ingresses(body: &str) -> (r: Result<String, CliError>)
    ensures
        match json_in(body@) {
            Ok(document) => r is Ok && r->Ok_0@ == ingresses_text(data_items(document)),
            Err(error) => r is Err && r->Err_0@ == malformed(error),
        },
{
    let document = parse_answer(body)?;
    let none: Vec<Json> = Vec::new();
    assert(deep_items(none@) =~= seq![]);
    let all = match document.items_at("data") {
        Some(items) => items,
        None => &none,
    };
    Ok(show_ingresses(all))
}

/// A BMP router is shown with each thing under its title.
pub proof fn router_cells_have_their_titles(router: JsonView, all: Seq<JsonView>)
    ensures
        router_cols().len() == 5,
        router_row(router, all).len() == 5,
        shows(router_cols(), router_row(router, all), "Id"@, decimal_text(or_zero(router.unsigned_at("id"@)) as nat)),
        shows(router_cols(), router_row(router, all), "Router"@, or_dash(router.text_at("remote_addr"@))),
        shows(router_cols(), router_row(router, all), "Name"@, or_dash(router.text_at("name"@))),
        shows(router_cols(), router_row(router, all), "State"@, or_dash(router.text_at("state"@))),
        shows(router_cols(), router_row(router, all), "Peers"@, decimal_text(peers_of(all, or_zero(router.unsigned_at("id"@))))),
{
    let cols = router_cols();
    assert(cols[0].title == "Id"@);
    assert(cols[1].title == "Router"@);
    assert(cols[2].title == "Name"@);
    assert(cols[3].title == "State"@);
    assert(cols[4].title == "Peers"@);
}

/// A peer of a BMP router is shown with each thing under its title.
pub proof fn peer_cells_have_their_titles(peer: JsonView, now: Moment)
    ensures
        peer_cols().len() == 6,
        peer_row(peer, now).len() == 6,
        shows(peer_cols(), peer_row(peer, now), "Id"@, decimal_text(or_zero(peer.unsigned_at("id"@)) as nat)),
        shows(peer_cols(), peer_row(peer, now), "Neighbor"@, or_dash(peer.text_at("remote_addr"@))),
        shows(peer_cols(), peer_row(peer, now), "AS"@, number_or_dash(peer.unsigned_at("remote_asn"@))),
        shows(peer_cols(), peer_row(peer, now), "State"@, or_dash(peer.text_at("state"@))),
        shows(peer_cols(), peer_row(peer, now), "RibType"@, or_dash(peer.text_at("peer_rib_type"@))),
        shows(peer_cols(), peer_row(peer, now), "Up/Down"@, since_text(peer.text_at("session_up_time"@), now)),
{
    let cols = peer_cols();
    assert(cols[0].title == "Id"@);
    assert(cols[1].title == "Neighbor"@);
    assert(cols[2].title == "AS"@);
    assert(cols[3].title == "State"@);
    assert(cols[4].title == "RibType"@);
    assert(cols[5].title == "Up/Down"@);
}

/// An ingress is shown with each thing under its title.
pub proof fn ingress_cells_have_their_titles(i: JsonView)
    ensures
        ingress_cols().len() == 6,
        ingress_row(i).len() == 6,
        shows(ingress_cols(), ingress_row(i), "Id"@, decimal_text(or_zero(i.unsigned_at("id"@)) as nat)),
        shows(ingress_cols(), ingress_row(i), "Type"@, or_dash(i.text_at("ingress_type"@))),
        shows(ingress_cols(), ingress_row(i), "Parent"@, number_or_dash(i.unsigned_at("parent_ingress"@))),
        shows(ingress_cols(), ingress_row(i), "Address"@, or_dash(i.text_at("remote_addr"@))),
        shows(ingress_cols(), ingress_row(i), "AS"@, number_or_dash(i.unsigned_at("remote_asn"@))),
        shows(ingress_cols(), ingress_row(i), "State"@, or_dash(i.text_at("state"@))),
{
    let cols = ingress_cols();
    assert(cols[0].title == "Id"@);
    assert(cols[1].title == "Type"@);
    assert(cols[2].title == "Parent"@);
    assert(cols[3].title == "Address"@);
    assert(cols[4].title == "AS"@);
    assert(cols[5].title == "State"@);
}

/// Every BMP router has a row of its own, in order.
pub proof fn every_router_has_a_row(routers: Seq<JsonView>, all_ingresses: Seq<JsonView>)
    ensures
        routers_table(routers, all_ingresses).rows.len() == routers.len(),
        routers_table(routers, all_ingresses).cols == router_cols(),
        !routers_table(routers, all_ingresses).streaming,
        forall|i: int|
            0 <= i < routers.len() ==> #[trigger] routers_table(routers, all_ingresses).rows[i] == router_row(routers[i], all_ingresses),
    decreases routers.len(),
{
    if routers.len() > 0 {
        let fore = routers.drop_last();
        every_router_has_a_row(fore, all_ingresses);
        let all = routers_table(routers, all_ingresses).rows;
        let rest = routers_table(fore, all_ingresses).rows;
        assert forall|i: int| 0 <= i < routers.len() implies #[trigger] all[i] == router_row(routers[i], all_ingresses) by {
            if i < fore.len() {
                assert(all[i] == rest[i]);
                assert(fore[i] == routers[i]);
            }
        }
    }
}

/// Every ingress has a row of its own, in order.
pub proof fn every_ingress_has_a_row(ingresses: Seq<JsonView>)
    ensures
        ingresses_table(ingresses).rows.len() == ingresses.len(),
        ingresses_table(ingresses).cols == ingress_cols(),
        !ingresses_table(ingresses).streaming,
        forall|i: int|
            0 <= i < ingresses.len() ==> #[trigger] ingresses_table(ingresses).rows[i] == ingress_row(ingresses[i]),
    decreases ingresses.len(),
{
    if ingresses.len() > 0 {
        let fore = ingresses.drop_last();
        every_ingress_has_a_row(fore);
        let all = ingresses_table(ingresses).rows;
        let rest = ingresses_table(fore).rows;
        assert forall|i: int| 0 <= i < ingresses.len() implies #[trigger] all[i] == ingress_row(ingresses[i]) by {
            if i < fore.len() {
                assert(all[i] == rest[i]);
                assert(fore[i] == ingresses[i]);
            }
        }
    }
}

/// One more ingress adds to the peers of a router, and to their table, exactly
/// if the router is its parent and it is a monitored session.
pub proof fn peers_are_those_of_the_router(
    all: Seq<JsonView>,
    more: JsonView,
    id: u64,
    now: Moment,
)
    ensures
        more.unsigned_at("parent_ingress"@) == Some(id) && more.text_at("ingress_type"@) == Some(
            "bgpViaBmp"@,
        ) ==> peers_of(all.push(more), id) == peers_of(all, id) + 1 && peers_table(
            all.push(more),
            id,
            now,
        ) == with_row(peers_table(all, id, now), peer_row(more, now)),
        more.unsigned_at("parent_ingress"@) != Some(id) || more.text_at("ingress_type"@) != Some(
            "bgpViaBmp"@,
        ) ==> peers_of(all.push(more), id) == peers_of(all, id) && peers_table(
            all.push(more),
            id,
            now,
        ) == peers_table(all, id, now),
{
    assert(all.push(more).drop_last() =~= all);
}

/// An ingress is shown as a BMP router exactly if it is there and is one.
pub proof fn only_routers_are_shown(id: u32, router: JsonView)
    ensures
        router != JsonView::Null ==> (no_router_text(id, Some(router)) is None
            <==> router.text_at("ingress_type"@) == Some("bmp"@)),
        no_router_text(id, Some(JsonView::Null)) is Some,
        no_router_text(id, None) is Some,
{
}

} // verus!
