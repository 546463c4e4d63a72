//! Routes: which path is asked for and how the answer is shown.

use crate::cli::bgp::{
    data_items, field_or_dash, malformed, number_or_dash, opt_number, or_dash, parse_answer,
};
use crate::cli::error::{CliError, ErrorView};
use crate::cli::fmt::{count, grouped};
use crate::cli::http::NOT_TEXT;
use crate::cli::table::{
    col_views, empty_table, left, left_col, shows, table_text, with_row, Col, ColView, Table,
    TableView,
};
use crate::cli::tree::{Afi, Captures, CapturesView, Safi};
use crate::json::{deep_items, json_in, parse, Json, JsonView};
use crate::text::{
    add_text, decimal, decimal_text, from_utf8, join, join_all, joined_with, same, string_views,
    strip_leading, trim, trimmed, without_leading,
};
use vstd::prelude::*;
use vstd::string::StringExecFns;
use vstd::utf8::{decode_utf8, valid_utf8};

verus! {

/// The path of a table.
pub open spec fn rib_path(afi: Afi, safi: Safi) -> Seq<char> {
    match (afi, safi) {
        (Afi::V4, Safi::Unicast) => "/api/v1/ribs/ipv4unicast/routes"@,
        (Afi::V6, Safi::Unicast) => "/api/v1/ribs/ipv6unicast/routes"@,
        (Afi::V4, Safi::FlowSpec) => "/api/v1/ribs/ipv4flowspec/routes"@,
        (Afi::V6, Safi::FlowSpec) => "/api/v1/ribs/ipv6flowspec/routes"@,
    }
}

/// The path of a table.
pub fn rib_base(afi: Afi, safi: Safi) -> (r: &'static str)
    ensures
        r@ == rib_path(afi, safi),
{
    match (afi, safi) {
        (Afi::V4, Safi::Unicast) => "/api/v1/ribs/ipv4unicast/routes",
        (Afi::V6, Safi::Unicast) => "/api/v1/ribs/ipv6unicast/routes",
        (Afi::V4, Safi::FlowSpec) => "/api/v1/ribs/ipv4flowspec/routes",
        (Afi::V6, Safi::FlowSpec) => "/api/v1/ribs/ipv6flowspec/routes",
    }
}

/// The path of the best paths of a table.
pub open spec fn best_path_path(afi: Afi) -> Seq<char> {
    match afi {
        Afi::V4 => "/api/v1/ribs/ipv4unicast/best-path"@,
        Afi::V6 => "/api/v1/ribs/ipv6unicast/best-path"@,
    }
}

/// The path of the best paths of a table.
pub fn best_path_base(afi: Afi) -> (r: &'static str)
    ensures
        r@ == best_path_path(afi),
{
    match afi {
        Afi::V4 => "/api/v1/ribs/ipv4unicast/best-path",
        Afi::V6 => "/api/v1/ribs/ipv6unicast/best-path",
    }
}

/// A list with a parameter at its end, if there is a value for it.
pub open spec fn with_param(list: Seq<Seq<char>>, name: Seq<char>, value: Option<Seq<char>>) -> Seq<
    Seq<char>,
> {
    match value {
        Some(value) => list.push(name + value),
        None => list,
    }
}

/// The parameters by which a command narrows what it asks for. An address
/// stands for a peer, unless it is what is looked for.
pub open spec fn filters_of(c: CapturesView, peers: bool) -> Seq<Seq<char>> {
    let list = with_param(
        seq![],
        "filter[ingressType]="@,
        match c.source() {
            Some(source) => Some(source.ingress_name()),
            None => None,
        },
    );
    let list = with_param(
        list,
        "ingressId="@,
        match c.ingress_id() {
            Some(id) => Some(decimal_text(id as nat)),
            None => None,
        },
    );
    let list = if peers {
        with_param(list, "filter[peerAddress]="@, c.ip())
    } else {
        list
    };
    let list = with_param(
        list,
        "filter[originAsn]="@,
        match c.asn() {
            Some(asn) => Some(decimal_text(asn as nat)),
            None => None,
        },
    );
    with_param(list, "filter[community]="@, c.community())
}

fn filter_list(c: &Captures, peers: bool) -> (r: Vec<String>)
    ensures
        string_views(r@) == filters_of(c@, peers),
{
    let mut params: Vec<String> = Vec::new();
    assert(string_views(params@) =~= seq![]);
    if let Some(source) = c.source() {
        add_text(&mut params, join("filter[ingressType]=", source.ingress_type()));
    }
    if let Some(id) = c.ingress_id() {
        add_text(&mut params, join("ingressId=", decimal(id as u64).as_str()));
    }
    if peers {
        if let Some(addr) = c.ip() {
            add_text(&mut params, join("filter[peerAddress]=", addr));
        }
    }
    if let Some(asn) = c.asn() {
        add_text(&mut params, join("filter[originAsn]=", decimal(asn as u64).as_str()));
    }
    if let Some(community) = c.community() {
        add_text(&mut params, join("filter[community]=", community));
    }
    params
}

/// The parameters by which a command narrows what it asks for.
pub fn filter_params(c: &Captures) -> (r: Vec<String>)
    ensures
        string_views(r@) == filters_of(c@, true),
{
    filter_list(c, true)
}

/// A path with parameters behind it, if there are any.
pub open spec fn with_query(path: Seq<char>, params: Seq<Seq<char>>) -> Seq<char> {
    if params.len() == 0 {
        path
    } else {
        path + "?"@ + joined_with(params, "&"@)
    }
}

fn add_query(path: String, params: &[String]) -> (r: String)
    ensures
        r@ == with_query(path@, string_views(params@)),
{
    let mut path = path;
    if params.len() > 0 {
        path.append("?");
        path.append(join_all(params, "&").as_str());
    }
    path
}

/// How an answer is to be shown.
#[derive(Clone, Copy, Debug, PartialEq, Eq, Structural)]
pub enum RouteView {
    /// The routes of one prefix.
    Prefix,
    /// A table, line by line.
    Table,
    FlowSpec,
    BestPath,
}

/// What is asked for, and how the answer is to be shown.
#[derive(Debug)]
pub struct RouteRequest {
    pub path: String,
    pub view: RouteView,
}

/// The path of one prefix.
pub open spec fn prefix_path(base: Seq<char>, prefix: (Seq<char>, u8)) -> Seq<char> {
    base + "/"@ + prefix.0 + "/"@ + decimal_text(prefix.1 as nat)
}

/// What a command for routes asks for. A whole table is only to be had line by
/// line, narrowed or not. In a search for the best path to an address, the
/// address is no peer.
pub open spec fn route_request_of(c: CapturesView) -> Result<(Seq<char>, RouteView), ErrorView> {
    if c.best() {
        let base = best_path_path(c.afi());
        match (c.prefix(), c.ip()) {
            (Some(prefix), _) => Ok(
                (with_query(prefix_path(base, prefix), filters_of(c, true)), RouteView::BestPath),
            ),
            (None, Some(addr)) => Ok(
                (with_query(base + "/"@ + addr, filters_of(c, false)), RouteView::BestPath),
            ),
            (None, None) => Err(ErrorView::Usage("best path needs a prefix or an address"@)),
        }
    } else {
        let base = rib_path(c.afi(), c.safi());
        let filters = filters_of(c, true);
        if c.safi() == Safi::FlowSpec {
            Ok(
                (
                    with_query(
                        match c.prefix() {
                            Some(prefix) => prefix_path(base, prefix),
                            None => base,
                        },
                        filters,
                    ),
                    RouteView::FlowSpec,
                ),
            )
        } else {
            match c.prefix() {
                Some(prefix) => Ok(
                    (with_query(prefix_path(base, prefix), filters), RouteView::Prefix),
                ),
                None => Ok(
                    (with_query(base, seq!["format=jsonl"@] + filters), RouteView::Table),
                ),
            }
        }
    }
}

fn path_of_prefix(base: &str, addr: &str, len: u8) -> (r: String)
    ensures
        r@ == prefix_path(base@, (addr@, len)),
{
    let mut path = base.to_owned();
    path.append("/");
    path.append(addr);
    path.append("/");
    path.append(decimal(len as u64).as_str());
    path
}

/// What a command for routes asks for.
pub fn route_request(c: &Captures) -> (r: Result<RouteRequest, CliError>)
    ensures
        match route_request_of(c@) {
            Ok((path, view)) => r is Ok && r->Ok_0.path@ == path && r->Ok_0.view == view,
            Err(error) => r is Err && r->Err_0@ == error,
        },
{
    if c.best() {
        let base = best_path_base(c.afi());
        return match (c.prefix(), c.ip()) {
            (Some((addr, len)), _) => {
                let path = add_query(path_of_prefix(base, addr, len), &filter_list(c, true));
                Ok(RouteRequest { path, view: RouteView::BestPath })
            },
            (None, Some(addr)) => {
                let mut path = base.to_owned();
                path.append("/");
                path.append(addr);
                let path = add_query(path, &filter_list(c, false));
                Ok(RouteRequest { path, view: RouteView::BestPath })
            },
            (None, None) => Err(CliError::usage("best path needs a prefix or an address")),
        };
    }
    let base = rib_base(c.afi(), c.safi());
    let filters = filter_list(c, true);
    if c.safi() == Safi::FlowSpec {
        let path = match c.prefix() {
            Some((addr, len)) => path_of_prefix(base, addr, len),
            None => base.to_owned(),
        };
        return Ok(RouteRequest { path: add_query(path, &filters), view: RouteView::FlowSpec });
    }
    match c.prefix() {
        Some((addr, len)) => {
            let path = path_of_prefix(base, addr, len);
            Ok(RouteRequest { path: add_query(path, &filters), view: RouteView::Prefix })
        },
        None => {
            let mut query: Vec<String> = vec!["format=jsonl".to_owned()];
            let mut filters = filters;
            let ghost narrowed = filters@;
            query.append(&mut filters);
            assert(string_views(query@) =~= seq!["format=jsonl"@] + string_views(narrowed));
            Ok(RouteRequest { path: add_query(base.to_owned(), &query), view: RouteView::Table })
        },
    }
}

/// The path of the peers, or of one of them.
pub open spec fn neighbors_path_of(c: CapturesView) -> Seq<char> {
    match c.ip() {
        Some(addr) => "/api/v1/bgp/neighbors/"@ + addr,
        None => "/api/v1/bgp/neighbors"@,
    }
}

/// The path of the peers, or of one of them.
pub fn neighbors_path(c: &Captures) -> (r: String)
    ensures
        r@ == neighbors_path_of(c@),
{
    match c.ip() {
        Some(addr) => join("/api/v1/bgp/neighbors/", addr),
        None => "/api/v1/bgp/neighbors".to_owned(),
    }
}

/// What is shown of a route.
pub ghost struct AttrsView {
    pub next_hop: Seq<char>,
    pub as_path: Seq<char>,
}

/// The texts among some values.
pub open spec fn texts_in(values: Seq<JsonView>) -> Seq<Seq<char>>
    decreases values.len(),
{
    if values.len() == 0 {
        seq![]
    } else {
        let rest = texts_in(values.drop_last());
        match values.last().as_text() {
            Some(text) => rest.push(text),
            None => rest,
        }
    }
}

/// The hops of a path, each without the letters before its number.
pub open spec fn hops_text(path: Seq<JsonView>) -> Seq<char> {
    joined_with(texts_in(path).map_values(|hop: Seq<char>| without_leading(hop, "AS"@)), " "@)
}

/// The next hop that an attribute for several families gives.
pub open spec fn mp_next_hop(attr: JsonView) -> Option<Seq<char>> {
    match attr.get("mpReachNlri"@) {
        Some(value) => value.text_at("nextHop"@),
        None => None,
    }
}

/// What is shown of a route after one more of its attributes.
pub open spec fn with_attribute(a: AttrsView, attr: JsonView) -> AttrsView {
    let next_hop = match attr.text_at("conventionalNextHop"@) {
        Some(nh) => nh,
        None => a.next_hop,
    };
    let next_hop = match mp_next_hop(attr) {
        Some(nh) => if next_hop == "-"@ {
            nh
        } else {
            next_hop
        },
        None => next_hop,
    };
    AttrsView {
        next_hop,
        as_path: match attr.items_at("asPath"@) {
            Some(path) => hops_text(path),
            None => a.as_path,
        },
    }
}

/// What is shown of a route after some of its attributes.
pub open spec fn with_attributes(attrs: Seq<JsonView>) -> AttrsView
    decreases attrs.len(),
{
    if attrs.len() == 0 {
        AttrsView { next_hop: "-"@, as_path: seq![] }
    } else {
        with_attribute(with_attributes(attrs.drop_last()), attrs.last())
    }
}

/// What is shown of a route. One of the own AS has no path.
pub open spec fn attrs_of(route: JsonView) -> AttrsView {
    let a = with_attributes(
        match route.items_at("pathAttributes"@) {
            Some(attrs) => attrs,
            None => seq![],
        },
    );
    AttrsView {
        as_path: if a.as_path.len() == 0 {
            "i"@
        } else {
            a.as_path
        },
        ..a
    }
}

/// What is shown of a route.
#[derive(Debug)]
pub struct RouteAttrs {
    pub next_hop: String,
    pub as_path: String,
}

impl View for RouteAttrs {
    type V = AttrsView;

    open spec fn view(&self) -> AttrsView {
        AttrsView { next_hop: self.next_hop@, as_path: self.as_path@ }
    }
}

fn texts_of(values: &[Json]) -> (r: Vec<String>)
    ensures
        string_views(r@) == texts_in(deep_items(values@)),
{
    let ghost all = deep_items(values@);
    let mut out: Vec<String> = Vec::new();
    let mut i: usize = 0;
    assert(all.take(0) =~= seq![]);
    assert(string_views(out@) =~= seq![]);
    while i < values.len()
        invariant
            i <= values@.len(),
            all == deep_items(values@),
            string_views(out@) == texts_in(all.take(i as int)),
        decreases values.len() - i,
    {
        proof {
            assert(all.take(i + 1).drop_last() =~= all.take(i as int));
            assert(all.take(i + 1).last() == values@[i as int].deep());
        }
        if let Some(text) = values[i].as_text() {
            add_text(&mut out, text.to_owned());
        }
        i += 1;
    }
    assert(all.take(i as int) =~= all);
    out
}

fn hops_of(path: &[Json]) -> (r: String)
    ensures
        r@ == hops_text(deep_items(path@)),
{
    let hops = texts_of(path);
    let ghost all = string_views(hops@);
    let mut out: Vec<String> = Vec::new();
    let mut i: usize = 0;
    while i < hops.len()
        invariant
            i <= hops@.len(),
            all == string_views(hops@),
            out@.len() == i,
            forall|k: int|
                0 <= k < i ==> (#[trigger] out@[k])@ == without_leading(all[k], "AS"@),
        decreases hops.len() - i,
    {
        assert(all[i as int] == hops@[i as int]@);
        out.push(strip_leading(hops[i].as_str(), "AS"));
        i += 1;
    }
    assert(string_views(out@) =~= all.map_values(
        |hop: Seq<char>| without_leading(hop, "AS"@),
    ));
    join_all(&out, " ")
}

fn add_attribute(a: &mut RouteAttrs, attr: &Json)
    ensures
        final(a)@ == with_attribute(old(a)@, attr.deep()),
{
    if let Some(nh) = attr.text_at("conventionalNextHop") {
        a.next_hop = nh.to_owned();
    }
    if let Some(value) = attr.get("mpReachNlri") {
        if let Some(nh) = value.text_at("nextHop") {
            if same(a.next_hop.as_str(), "-") {
                a.next_hop = nh.to_owned();
            }
        }
    }
    if let Some(path) = attr.items_at("asPath") {
        a.as_path = hops_of(path);
    }
}

/// Finds what is shown of a route. Its attributes are objects with one key
/// each, in any order.
pub fn route_attrs(route: &Json) -> (r: RouteAttrs)
    ensures
        r@ == attrs_of(route.deep()),
{
    let mut a = RouteAttrs { next_hop: "-".to_owned(), as_path: String::new() };
    assert(a.as_path@ =~= seq![]);
    if let Some(attrs) = route.items_at("pathAttributes") {
        let ghost all = deep_items(attrs@);
        let mut i: usize = 0;
        assert(all.take(0) =~= seq![]);
        while i < attrs.len()
            invariant
                i <= attrs@.len(),
                all == deep_items(attrs@),
                a@ == with_attributes(all.take(i as int)),
            decreases attrs.len() - i,
        {
            proof {
                assert(all.take(i + 1).drop_last() =~= all.take(i as int));
                assert(all.take(i + 1).last() == attrs@[i as int].deep());
            }
            add_attribute(&mut a, &attrs[i]);
            i += 1;
        }
        assert(all.take(i as int) =~= all);
    }
    if a.as_path.as_str().is_empty() {
        a.as_path = "i".to_owned();
    }
    a
}

/// The columns of a list of routes.
pub open spec fn route_cols() -> Seq<ColView> {
    seq![left_col("Network"@, 20), left_col("Next Hop"@, 20), left_col("Path"@, 20)]
}

/// The columns of a list of routes.
pub fn route_columns() -> (r: Vec<Col>)
    ensures
        col_views(r@) == route_cols(),
{
    let r = vec![left("Network", 20), left("Next Hop", 20), left("Path", 20)];
    assert(col_views(r@) =~= route_cols());
    r
}

/// The row of a route.
pub open spec fn route_row(nlri: Seq<char>, route: JsonView) -> Seq<Seq<char>> {
    let a = attrs_of(route);
    seq![nlri, a.next_hop, a.as_path]
}

fn route_cells(nlri: &str, route: &Json) -> (r: Vec<String>)
    ensures
        string_views(r@) == route_row(nlri@, route.deep()),
{
    let a = route_attrs(route);
    let r = vec![nlri.to_owned(), a.next_hop, a.as_path];
    assert(string_views(r@) =~= route_row(nlri@, route.deep()));
    r
}

/// A table with the routes of a prefix.
pub open spec fn routes_table(nlri: Seq<char>, routes: Seq<JsonView>) -> TableView
    decreases routes.len(),
{
    if routes.len() == 0 {
        empty_table(route_cols(), false)
    } else {
        with_row(routes_table(nlri, routes.drop_last()), route_row(nlri, routes.last()))
    }
}

/// A field of the `data` of an answer.
pub open spec fn data_field(document: JsonView, key: Seq<char>) -> Option<JsonView> {
    match document.get("data"@) {
        Some(data) => data.get(key),
        None => None,
    }
}

/// A text in the `data` of an answer.
pub open spec fn data_text(document: JsonView, key: Seq<char>) -> Option<Seq<char>> {
    match data_field(document, key) {
        Some(value) => value.as_text(),
        None => None,
    }
}

/// A list in the `data` of an answer, if it has items.
pub open spec fn data_list(document: JsonView, key: Seq<char>) -> Seq<JsonView> {
    match data_field(document, key) {
        Some(value) => match value.as_items() {
            Some(items) => items,
            None => seq![],
        },
        None => seq![],
    }
}

/// The routes of one prefix, or that there are none.
pub open spec fn prefix_text(document: JsonView) -> Seq<char> {
    let nlri = or_dash(data_text(document, "nlri"@));
    let routes = data_list(document, "routes"@);
    if routes.len() == 0 {
        "% Network not in table.\n"@
    } else {
        "BGP routing table entry for "@ + nlri + "\n"@ + table_text(routes_table(nlri, routes))
    }
}

fn text_in_data(document: &Json, key: &str) -> (r: Option<String>)
    ensures
        match r {
            Some(text) => data_text(document.deep(), key@) == Some(text@),
            None => data_text(document.deep(), key@) is None,
        },
{
    match document.get("data") {
        Some(data) => match data.get(key) {
            Some(value) => match value.as_text() {
                Some(text) => Some(text.to_owned()),
                None => None,
            },
            None => None,
        },
        None => None,
    }
}

fn list_in_data<'a>(document: &'a Json, key: &str) -> (r: Option<&'a Vec<Json>>)
    ensures
        match r {
            Some(items) => data_list(document.deep(), key@) == deep_items(items@),
            None => data_list(document.deep(), key@).len() == 0,
        },
{
    match document.get("data") {
        Some(data) => match data.get(key) {
            Some(value) => value.as_items(),
            None => None,
        },
        None => None,
    }
}

/// Shows the routes of one prefix.
pub fn show_prefix(document: &Json) -> (r: String)
    ensures
        r@ == prefix_text(document.deep()),
{
    let nlri = match text_in_data(document, "nlri") {
        Some(nlri) => nlri,
        None => "-".to_owned(),
    };
    let routes = match list_in_data(document, "routes") {
        Some(routes) => routes,
        None => {
            return "% Network not in table.\n".to_owned();
        },
    };
    assert(deep_items(routes@).len() == routes@.len());
    if routes.len() == 0 {
        return "% Network not in table.\n".to_owned();
    }
    let ghost all = deep_items(routes@);
    let cols = route_columns();
    let mut table = Table::fit(&cols);
    let mut i: usize = 0;
    assert(all.take(0) =~= seq![]);
    while i < routes.len()
        invariant
            i <= routes@.len(),
            all == deep_items(routes@),
            table@ == routes_table(nlri@, all.take(i as int)),
        decreases routes.len() - i,
    {
        proof {
            assert(all.take(i + 1).drop_last() =~= all.take(i as int));
            assert(all.take(i + 1).last() == routes@[i as int].deep());
        }
        table.row(route_cells(nlri.as_str(), &routes[i]));
        i += 1;
    }
    assert(all.take(i as int) =~= all);
    let mut out = "BGP routing table entry for ".to_owned();
    out.append(nlri.as_str());
    out.append("\n");
    out.append(table.finish().as_str());
    out
}

/// Shows the routes of one prefix in an answer.
pub fn render_prefix(body: &str) -> (r: Result<String, CliError>)
    ensures
        match json_in(body@) {
            Ok(document) => r is Ok && r->Ok_0@ == prefix_text(document),
            Err(error) => r is Err && r->Err_0@ == malformed(error),
        },
{
    let document = parse_answer(body)?;
    Ok(show_prefix(&document))
}

/// The columns of a best path decision.
pub open spec fn best_path_cols() -> Seq<ColView> {
    seq![
        left_col(""@, 3),
        left_col("Network"@, 20),
        left_col("Next Hop"@, 20),
        left_col("Path"@, 18),
        left_col("Peer"@, 6),
        left_col("Decided by"@, 20),
    ]
}

fn best_path_columns() -> (r: Vec<Col>)
    ensures
        col_views(r@) == best_path_cols(),
{
    let r = vec![
        left("", 3),
        left("Network", 20),
        left("Next Hop", 20),
        left("Path", 18),
        left("Peer", 6),
        left("Decided by", 20),
    ];
    assert(col_views(r@) =~= best_path_cols());
    r
}

/// A number in the `source` of a route.
pub open spec fn source_number(route: JsonView, key: Seq<char>) -> Option<u64> {
    match route.get("source"@) {
        Some(source) => source.unsigned_at(key),
        None => None,
    }
}

fn number_in_source(route: &Json, key: &str) -> (r: Option<u64>)
    ensures
        r == source_number(route.deep(), key@),
{
    match route.get("source") {
        Some(source) => source.unsigned_at(key),
        None => None,
    }
}

/// The session that a route belongs to.
pub open spec fn peer_text(route: JsonView) -> Seq<char> {
    number_or_dash(source_number(route, "ingressId"@))
}

/// The session that a route belongs to, which for one of several paths of a
/// peer is that peer.
pub fn peer_cell(route: &Json) -> (r: String)
    ensures
        r@ == peer_text(route.deep()),
{
    opt_number(number_in_source(route, "ingressId"))
}

/// The row of a route in a best path decision.
pub open spec fn decision_row(
    marker: Seq<char>,
    nlri: Seq<char>,
    route: JsonView,
    step: Seq<char>,
) -> Seq<Seq<char>> {
    let a = attrs_of(route);
    seq![marker, nlri, a.next_hop, a.as_path, peer_text(route), step]
}

fn decision_cells(marker: &str, nlri: &str, route: &Json, step: &str) -> (r: Vec<String>)
    ensures
        string_views(r@) == decision_row(marker@, nlri@, route.deep(), step@),
{
    let a = route_attrs(route);
    let r = vec![
        marker.to_owned(),
        nlri.to_owned(),
        a.next_hop,
        a.as_path,
        peer_cell(route),
        step.to_owned(),
    ];
    assert(string_views(r@) =~= decision_row(marker@, nlri@, route.deep(), step@));
    r
}

/// The table of a decision: the best path, which alone has a mark, and the
/// alternatives, each with the step that put it where it is.
pub open spec fn decision_table(
    nlri: Seq<char>,
    best: JsonView,
    alternatives: Seq<JsonView>,
) -> TableView
    decreases alternatives.len(),
{
    if alternatives.len() == 0 {
        with_row(
            empty_table(best_path_cols(), false),
            decision_row(">"@, nlri, best, or_dash(best.text_at("decidedBy"@))),
        )
    } else {
        let alternative = alternatives.last();
        with_row(
            decision_table(nlri, best, alternatives.drop_last()),
            decision_row(" "@, nlri, alternative, or_dash(alternative.text_at("lostAt"@))),
        )
    }
}

/// The lines with routes that were left out.
pub open spec fn left_out_lines(out: Seq<char>, rows: Seq<JsonView>) -> Seq<char>
    decreases rows.len(),
{
    if rows.len() == 0 {
        out
    } else {
        let route = rows.last();
        left_out_lines(out, rows.drop_last()) + "    peer "@ + peer_text(route) + " - "@ + (
        match route.text_at("reason"@) {
            Some(reason) => reason,
            None => "unknown"@,
        }) + "\n"@
    }
}

/// What is shown of routes that were left out: a route that is missing without
/// a word looks like a fault.
pub open spec fn with_left_out(out: Seq<char>, rows: Seq<JsonView>) -> Seq<char> {
    if rows.len() == 0 {
        out
    } else {
        left_out_lines(out + "  excluded from the decision process:\n"@, rows)
    }
}

fn render_ineligible(out: &mut String, document: &Json)
    ensures
        final(out)@ == with_left_out(old(out)@, data_list(document.deep(), "ineligible"@)),
{
    let rows = match list_in_data(document, "ineligible") {
        Some(rows) => rows,
        None => {
            return ;
        },
    };
    assert(deep_items(rows@).len() == rows@.len());
    if rows.len() == 0 {
        return ;
    }
    out.append("  excluded from the decision process:\n");
    let ghost all = deep_items(rows@);
    let ghost head = out@;
    let mut i: usize = 0;
    assert(all.take(0) =~= seq![]);
    while i < rows.len()
        invariant
            i <= rows@.len(),
            all == deep_items(rows@),
            out@ == left_out_lines(head, all.take(i as int)),
        decreases rows.len() - i,
    {
        let route = &rows[i];
        proof {
            assert(all.take(i + 1).drop_last() =~= all.take(i as int));
            assert(all.take(i + 1).last() == route.deep());
        }
        out.append("    peer ");
        out.append(peer_cell(route).as_str());
        out.append(" - ");
        match route.text_at("reason") {
            Some(reason) => out.append(reason),
            None => out.append("unknown"),
        }
        out.append("\n");
        i += 1;
    }
    assert(all.take(i as int) =~= all);
}

/// Whether an answer has a best path.
pub open spec fn best_in(document: JsonView) -> Option<JsonView> {
    match data_field(document, "best"@) {
        Some(JsonView::Null) => None,
        other => other,
    }
}

/// What is shown if there is no best path. That nothing was eligible is not
/// the same as that nothing was there.
pub open spec fn no_best_path(rows: Seq<JsonView>) -> Seq<char> {
    with_left_out(
        if rows.len() == 0 {
            "% Network not in table.\n"@
        } else {
            "% No eligible path ("@ + decimal_text(rows.len())
                + " route(s) excluded from the decision process).\n"@
        },
        rows,
    )
}

/// The lines before the table of a decision.
pub open spec fn decision_head(document: JsonView) -> Seq<char> {
    let out = "BGP routing table entry for "@ + or_dash(data_text(document, "nlri"@));
    let out = match data_text(document, "queryAddress"@) {
        Some(addr) => out + " (best path for "@ + addr + ")\n"@,
        None => out + "\n"@,
    };
    match data_text(document, "strategy"@) {
        Some(strategy) => if strategy != "rfc4271"@ {
            out + "  decision process: "@ + strategy + "\n"@
        } else {
            out
        },
        None => out,
    }
}

/// The line that says what was assumed of the best path.
pub open spec fn with_assumptions(out: Seq<char>, best: JsonView) -> Seq<char> {
    match best.items_at("assumed"@) {
        Some(assumed) => if assumed.len() > 0 {
            out + "  note: best path assumed "@ + joined_with(texts_in(assumed), ", "@)
                + " (not recorded for this peer)\n"@
        } else {
            out
        },
        None => out,
    }
}

/// A best path decision.
pub open spec fn best_path_text(document: JsonView) -> Seq<char> {
    let rows = data_list(document, "ineligible"@);
    match best_in(document) {
        None => no_best_path(rows),
        Some(best) => {
            let nlri = or_dash(data_text(document, "nlri"@));
            let out = decision_head(document) + table_text(
                decision_table(nlri, best, data_list(document, "alternatives"@)),
            );
            with_assumptions(with_left_out(out, rows), best)
        },
    }
}

fn put_decision_head(document: &Json, nlri: &str) -> (r: String)
    requires
        nlri@ == or_dash(data_text(document.deep(), "nlri"@)),
    ensures
        r@ == decision_head(document.deep()),
{
    let mut out = "BGP routing table entry for ".to_owned();
    out.append(nlri);
    match text_in_data(document, "queryAddress") {
        Some(addr) => {
            out.append(" (best path for ");
            out.append(addr.as_str());
            out.append(")\n");
        },
        None => {
            out.append("\n");
        },
    }
    if let Some(strategy) = text_in_data(document, "strategy") {
        if !same(strategy.as_str(), "rfc4271") {
            out.append("  decision process: ");
            out.append(strategy.as_str());
            out.append("\n");
        }
    }
    out
}

fn show_no_best_path(document: &Json) -> (r: String)
    ensures
        r@ == no_best_path(data_list(document.deep(), "ineligible"@)),
{
    let ineligible: usize = match list_in_data(document, "ineligible") {
        Some(rows) => {
            assert(deep_items(rows@).len() == rows@.len());
            rows.len()
        },
        None => 0,
    };
    let mut out = String::new();
    if ineligible == 0 {
        out = "% Network not in table.\n".to_owned();
    } else {
        out = "% No eligible path (".to_owned();
        out.append(decimal(ineligible as u64).as_str());
        out.append(" route(s) excluded from the decision process).\n");
    }
    render_ineligible(&mut out, document);
    out
}

fn put_assumptions(out: &mut String, best: &Json)
    ensures
        final(out)@ == with_assumptions(old(out)@, best.deep()),
{
    if let Some(assumed) = best.items_at("assumed") {
        assert(deep_items(assumed@).len() == assumed@.len());
        if assumed.len() > 0 {
            let names = texts_of(assumed);
            out.append("  note: best path assumed ");
            out.append(join_all(&names, ", ").as_str());
            out.append(" (not recorded for this peer)\n");
        }
    }
}

/// Shows a best path decision.
pub fn show_best_path(document: &Json) -> (r: String)
    ensures
        r@ == best_path_text(document.deep()),
{
    let best = match document.get("data") {
        Some(data) => match data.get("best") {
            Some(Json::Null) => None,
            other => other,
        },
        None => None,
    };
    let best = match best {
        Some(best) => best,
        None => {
            return show_no_best_path(document);
        },
    };
    assert(best_in(document.deep()) == Some(best.deep()));
    let nlri = match text_in_data(document, "nlri") {
        Some(nlri) => nlri,
        None => "-".to_owned(),
    };
    let cols = best_path_columns();
    let mut table = Table::fit(&cols);
    table.row(decision_cells(">", nlri.as_str(), best, field_or_dash(best, "decidedBy").as_str()));
    let none: Vec<Json> = Vec::new();
    assert(deep_items(none@) =~= seq![]);
    let alternatives = match list_in_data(document, "alternatives") {
        Some(alternatives) => alternatives,
        None => &none,
    };
    let ghost all = deep_items(alternatives@);
    proof {
        assert(data_list(document.deep(), "alternatives"@) =~= all);
    }
    let mut i: usize = 0;
    assert(all.take(0) =~= seq![]);
    while i < alternatives.len()
        invariant
            i <= alternatives@.len(),
            all == deep_items(alternatives@),
            table@ == decision_table(nlri@, best.deep(), all.take(i as int)),
        decreases alternatives.len() - i,
    {
        let alternative = &alternatives[i];
        proof {
            assert(all.take(i + 1).drop_last() =~= all.take(i as int));
            assert(all.take(i + 1).last() == alternative.deep());
        }
        table.row(
            decision_cells(
                " ",
                nlri.as_str(),
                alternative,
                field_or_dash(alternative, "lostAt").as_str(),
            ),
        );
        i += 1;
    }
    assert(all.take(i as int) =~= all);
    let mut out = put_decision_head(document, nlri.as_str());
    out.append(table.finish().as_str());
    render_ineligible(&mut out, document);
    put_assumptions(&mut out, best);
    out
}

/// Shows the best path decision in an answer.
pub fn render_best_path(body: &str) -> (r: Result<String, CliError>)
    ensures
        match json_in(body@) {
            Ok(document) => r is Ok && r->Ok_0@ == best_path_text(document),
            Err(error) => r is Err && r->Err_0@ == malformed(error),
        },
{
    let document = parse_answer(body)?;
    Ok(show_best_path(&document))
}

/// The columns of a list of FlowSpec rules.
pub open spec fn flowspec_cols() -> Seq<ColView> {
    seq![
        left_col("Prefix"@, 18),
        left_col("Rule"@, 30),
        left_col("Actions"@, 20),
        left_col("Valid"@, 14),
        left_col("Peer"@, 6),
    ]
}

fn flowspec_columns() -> (r: Vec<Col>)
    ensures
        col_views(r@) == flowspec_cols(),
{
    let r = vec![
        left("Prefix", 18),
        left("Rule", 30),
        left("Actions", 20),
        left("Valid", 14),
        left("Peer", 6),
    ];
    assert(col_views(r@) =~= flowspec_cols());
    r
}

/// The actions of a rule.
pub open spec fn actions_text(rule: JsonView) -> Seq<char> {
    match rule.items_at("actions"@) {
        Some(actions) => joined_with(texts_in(actions), ", "@),
        None => ""@,
    }
}

/// The session that a rule belongs to, and which of its paths.
pub open spec fn owner_text(rule: JsonView) -> Seq<char> {
    match source_number(rule, "pathId"@) {
        Some(path_id) => decimal_text(
            (match source_number(rule, "ingressId"@) {
                Some(id) => id,
                None => 0,
            }) as nat,
        ) + " path "@ + decimal_text(path_id as nat),
        None => peer_text(rule),
    }
}

/// The row of a rule.
pub open spec fn rule_row(rule: JsonView) -> Seq<Seq<char>> {
    seq![
        or_dash(rule.text_at("keyPrefix"@)),
        or_dash(rule.text_at("nlri"@)),
        actions_text(rule),
        or_dash(rule.text_at("validity"@)),
        owner_text(rule),
    ]
}

fn rule_cells(rule: &Json) -> (r: Vec<String>)
    ensures
        string_views(r@) == rule_row(rule.deep()),
{
    let actions = match rule.items_at("actions") {
        Some(actions) => join_all(&texts_of(actions), ", "),
        None => "".to_owned(),
    };
    let owner = match number_in_source(rule, "pathId") {
        Some(path_id) => {
            let id: u64 = match number_in_source(rule, "ingressId") {
                Some(id) => id,
                None => 0,
            };
            let mut text = decimal(id);
            text.append(" path ");
            text.append(decimal(path_id).as_str());
            text
        },
        None => peer_cell(rule),
    };
    let r = vec![
        field_or_dash(rule, "keyPrefix"),
        field_or_dash(rule, "nlri"),
        actions,
        field_or_dash(rule, "validity"),
        owner,
    ];
    assert(string_views(r@) =~= rule_row(rule.deep()));
    r
}

/// A table of rules.
pub open spec fn rules_table(rules: Seq<JsonView>) -> TableView
    decreases rules.len(),
{
    if rules.len() == 0 {
        empty_table(flowspec_cols(), false)
    } else {
        with_row(rules_table(rules.drop_last()), rule_row(rules.last()))
    }
}

/// A list of rules and how many there are.
pub open spec fn flowspec_text(rules: Seq<JsonView>) -> Seq<char> {
    table_text(rules_table(rules)) + "\nTotal rules "@ + grouped(decimal_text(rules.len())) + "\n"@
}

/// Shows FlowSpec rules.
pub fn show_flowspec(rules: &[Json]) -> (r: String)
    ensures
        r@ == flowspec_text(deep_items(rules@)),
{
    let ghost all = deep_items(rules@);
    let cols = flowspec_columns();
    let mut table = Table::fit(&cols);
    let mut i: usize = 0;
    assert(all.take(0) =~= seq![]);
    while i < rules.len()
        invariant
            i <= rules@.len(),
            all == deep_items(rules@),
            table@ == rules_table(all.take(i as int)),
        decreases rules.len() - i,
    {
        proof {
            assert(all.take(i + 1).drop_last() =~= all.take(i as int));
            assert(all.take(i + 1).last() == rules@[i as int].deep());
        }
        table.row(rule_cells(&rules[i]));
        i += 1;
    }
    assert(all.take(i as int) =~= all);
    let mut out = table.finish();
    out.append("\nTotal rules ");
    out.append(count(rules.len() as u64).as_str());
    out.append("\n");
    out
}

/// Shows the FlowSpec rules in an answer.
pub fn render_flowspec(body: &str) -> (r: Result<String, CliError>)
    ensures
        match json_in(body@) {
            Ok(document) => r is Ok && r->Ok_0@ == flowspec_text(data_items(document)),
            Err(error) => r is Err && r->Err_0@ == malformed(error),
        },
{
    let document = parse_answer(body)?;
    let none: Vec<Json> = Vec::new();
    assert(deep_items(none@) =~= seq![]);
    let rules = match document.items_at("data") {
        Some(items) => items,
        None => &none,
    };
    Ok(show_flowspec(rules))
}

/// A table that is shown line by line.
pub struct TableStream<'a> {
    pub table: Table<'a>,
    pub count: u64,
}

/// The row that a line of a streamed table gives, if it is a document.
pub open spec fn streamed_row(line: Seq<char>) -> Option<Seq<Seq<char>>> {
    if trimmed(line).len() == 0 {
        None
    } else {
        match json_in(line) {
            Ok(record) => Some(route_row(or_dash(record.text_at("prefix"@)), record)),
            Err(_) => None,
        }
    }
}

impl<'a> TableStream<'a> {
    /// A table to which no line has come.
    pub fn new(cols: &'a [Col]) -> (r: TableStream<'a>)
        ensures
            r.table@ == empty_table(col_views(cols@), true),
            r.count == 0,
    {
        TableStream { table: Table::fixed(cols), count: 0 }
    }

    /// Takes in a line. One that is empty or no document is passed over.
    pub fn line(&mut self, line: &str)
        requires
            old(self).count < u64::MAX,
        ensures
            match streamed_row(line@) {
                Some(row) => final(self).table@ == with_row(old(self).table@, row)
                    && final(self).count == old(self).count + 1,
                None => final(self).table@ == old(self).table@ && final(self).count == old(
                    self,
                ).count,
            },
    {
        if trim(line).as_str().is_empty() {
            return ;
        }
        match parse(line) {
            Ok(record) => {
                let prefix = field_or_dash(&record, "prefix");
                self.table.row(route_cells(prefix.as_str(), &record));
                self.count = self.count + 1;
            },
            Err(_) => {},
        }
    }

    /// Takes in a line as octets, which have to be text.
    pub fn octets(&mut self, line: Vec<u8>) -> (r: Result<(), CliError>)
        requires
            old(self).count < u64::MAX,
        ensures
            valid_utf8(line@) ==> r is Ok && match streamed_row(decode_utf8(line@)) {
                Some(row) => final(self).table@ == with_row(old(self).table@, row)
                    && final(self).count == old(self).count + 1,
                None => final(self).table@ == old(self).table@ && final(self).count == old(
                    self,
                ).count,
            },
            !valid_utf8(line@) ==> r is Err && r->Err_0@ == ErrorView::Transport(NOT_TEXT@)
                && final(self).table@ == old(self).table@ && final(self).count == old(self).count,
    {
        match from_utf8(line) {
            Some(text) => {
                self.line(text.as_str());
                Ok(())
            },
            None => Err(CliError::transport(NOT_TEXT)),
        }
    }

    /// Takes away what can be shown so far.
    pub fn take_output(&mut self) -> (r: String)
        ensures
            r@ == old(self).table@.out,
            final(self).table@ == (TableView { out: seq![], ..old(self).table@ }),
            final(self).count == old(self).count,
    {
        self.table.take_output()
    }

    /// Ends the table: what has not been shown yet, and a total.
    pub fn finish(self) -> (r: String)
        ensures
            r@ == table_text(self.table@) + "\nTotal routes "@ + grouped(
                decimal_text(self.count as nat),
            ) + "\n"@,
    {
        let TableStream { table, count: n } = self;
        let mut out = table.finish();
        out.append("\nTotal routes ");
        out.append(count(n).as_str());
        out.append("\n");
        out
    }
}

/// What is said of a table that did not come to its end.
pub fn dump_truncated() -> (r: CliError)
    ensures
        r@ == ErrorView::Transport(
            "Output truncated: the daemon closed the connection before the dump was complete. It aborts dumps whose reader stalls, so avoid paging this command."@,
        ),
{
    CliError::transport(
        "Output truncated: the daemon closed the connection before the dump was complete. It aborts dumps whose reader stalls, so avoid paging this command.",
    )
}

/// Exactly one row of a decision has the mark of the winner, and it is the
/// first.
pub proof fn one_winner_is_marked(nlri: Seq<char>, best: JsonView, alternatives: Seq<JsonView>)
    ensures
        decision_table(nlri, best, alternatives).rows.len() == alternatives.len() + 1,
        decision_table(nlri, best, alternatives).rows[0][0] == ">"@,
        forall|i: int|
            1 <= i <= alternatives.len() ==> (#[trigger] decision_table(
                nlri,
                best,
                alternatives,
            ).rows[i])[0] == " "@,
    decreases alternatives.len(),
{
    if alternatives.len() > 0 {
        one_winner_is_marked(nlri, best, alternatives.drop_last());
        decision_tables_fit(nlri, best, alternatives.drop_last());
    }
}

proof fn decision_tables_fit(nlri: Seq<char>, best: JsonView, alternatives: Seq<JsonView>)
    ensures
        !decision_table(nlri, best, alternatives).streaming,
    decreases alternatives.len(),
{
    if alternatives.len() > 0 {
        decision_tables_fit(nlri, best, alternatives.drop_last());
    }
}

/// A route is shown with each thing under its title.
pub proof fn route_cells_have_their_titles(nlri: Seq<char>, route: JsonView)
    ensures
        route_cols().len() == 3,
        route_row(nlri, route).len() == 3,
        shows(route_cols(), route_row(nlri, route), "Network"@, nlri),
        shows(route_cols(), route_row(nlri, route), "Next Hop"@, attrs_of(route).next_hop),
        shows(route_cols(), route_row(nlri, route), "Path"@, attrs_of(route).as_path),
{
    let cols = route_cols();
    assert(cols[0].title == "Network"@);
    assert(cols[1].title == "Next Hop"@);
    assert(cols[2].title == "Path"@);
}

/// A route of a decision is shown with each thing under its title.
pub proof fn decision_cells_have_their_titles(marker: Seq<char>, nlri: Seq<char>, route: JsonView, step: Seq<char>)
    ensures
        best_path_cols().len() == 6,
        decision_row(marker, nlri, route, step).len() == 6,
        shows(best_path_cols(), decision_row(marker, nlri, route, step), ""@, marker),
        shows(best_path_cols(), decision_row(marker, nlri, route, step), "Network"@, nlri),
        shows(best_path_cols(), decision_row(marker, nlri, route, step), "Next Hop"@, attrs_of(route).next_hop),
        shows(best_path_cols(), decision_row(marker, nlri, route, step), "Path"@, attrs_of(route).as_path),
        shows(best_path_cols(), decision_row(marker, nlri, route, step), "Peer"@, number_or_dash(source_number(route, "ingressId"@))),
        shows(best_path_cols(), decision_row(marker, nlri, route, step), "Decided by"@, step),
{
    let cols = best_path_cols();
    assert(cols[0].title == ""@);
    assert(cols[1].title == "Network"@);
    assert(cols[2].title == "Next Hop"@);
    assert(cols[3].title == "Path"@);
    assert(cols[4].title == "Peer"@);
    assert(cols[5].title == "Decided by"@);
}

/// A rule is shown with each thing under its title.
pub proof fn rule_cells_have_their_titles(rule: JsonView)
    ensures
        flowspec_cols().len() == 5,
        rule_row(rule).len() == 5,
        shows(flowspec_cols(), rule_row(rule), "Prefix"@, or_dash(rule.text_at("keyPrefix"@))),
        shows(flowspec_cols(), rule_row(rule), "Rule"@, or_dash(rule.text_at("nlri"@))),
        shows(flowspec_cols(), rule_row(rule), "Actions"@, actions_text(rule)),
        shows(flowspec_cols(), rule_row(rule), "Valid"@, or_dash(rule.text_at("validity"@))),
        shows(flowspec_cols(), rule_row(rule), "Peer"@, owner_text(rule)),
{
    let cols = flowspec_cols();
    assert(cols[0].title == "Prefix"@);
    assert(cols[1].title == "Rule"@);
    assert(cols[2].title == "Actions"@);
    assert(cols[3].title == "Valid"@);
    assert(cols[4].title == "Peer"@);
}

/// Every route of a prefix has a row of its own, in order.
pub proof fn every_route_has_a_row(nlri: Seq<char>, routes: Seq<JsonView>)
    ensures
        routes_table(nlri, routes).rows.len() == routes.len(),
        routes_table(nlri, routes).cols == route_cols(),
        !routes_table(nlri, routes).streaming,
        forall|i: int|
            0 <= i < routes.len() ==> #[trigger] routes_table(nlri, routes).rows[i] == route_row(nlri, routes[i]),
    decreases routes.len(),
{
    if routes.len() > 0 {
        let fore = routes.drop_last();
        every_route_has_a_row(nlri, fore);
        let all = routes_table(nlri, routes).rows;
        let rest = routes_table(nlri, fore).rows;
        assert forall|i: int| 0 <= i < routes.len() implies #[trigger] all[i] == route_row(nlri, routes[i]) by {
            if i < fore.len() {
                assert(all[i] == rest[i]);
                assert(fore[i] == routes[i]);
            }
        }
    }
}

/// Every rule has a row of its own, in order.
pub proof fn every_rule_has_a_row(rules: Seq<JsonView>)
    ensures
        rules_table(rules).rows.len() == rules.len(),
        rules_table(rules).cols == flowspec_cols(),
        !rules_table(rules).streaming,
        forall|i: int|
            0 <= i < rules.len() ==> #[trigger] rules_table(rules).rows[i] == rule_row(rules[i]),
    decreases rules.len(),
{
    if rules.len() > 0 {
        let fore = rules.drop_last();
        every_rule_has_a_row(fore);
        let all = rules_table(rules).rows;
        let rest = rules_table(fore).rows;
        assert forall|i: int| 0 <= i < rules.len() implies #[trigger] all[i] == rule_row(rules[i]) by {
            if i < fore.len() {
                assert(all[i] == rest[i]);
                assert(fore[i] == rules[i]);
            }
        }
    }
}

/// A decision shows the best path first, marked and with the step that decided,
/// and then each alternative with the step at which it lost.
pub proof fn best_path_is_shown_first(nlri: Seq<char>, best: JsonView, alternatives: Seq<JsonView>)
    ensures
        decision_table(nlri, best, alternatives).cols == best_path_cols(),
        !decision_table(nlri, best, alternatives).streaming,
        decision_table(nlri, best, alternatives).rows.len() == alternatives.len() + 1,
        decision_table(nlri, best, alternatives).rows[0] == decision_row(
            ">"@,
            nlri,
            best,
            or_dash(best.text_at("decidedBy"@)),
        ),
        forall|i: int|
            0 <= i < alternatives.len() ==> decision_table(nlri, best, alternatives).rows[i + 1]
                == decision_row(
                " "@,
                nlri,
                #[trigger] alternatives[i],
                or_dash(alternatives[i].text_at("lostAt"@)),
            ),
    decreases alternatives.len(),
{
    if alternatives.len() > 0 {
        let fore = alternatives.drop_last();
        best_path_is_shown_first(nlri, best, fore);
        let all = decision_table(nlri, best, alternatives).rows;
        let rest = decision_table(nlri, best, fore).rows;
        assert(all[0] == rest[0]);
        assert forall|i: int| 0 <= i < alternatives.len() implies all[i + 1] == decision_row(
            " "@,
            nlri,
            #[trigger] alternatives[i],
            or_dash(alternatives[i].text_at("lostAt"@)),
        ) by {
            if i < fore.len() {
                assert(fore[i] == alternatives[i]);
                assert(all[i + 1] == rest[i + 1]);
            }
        }
    }
}

/// A next hop of its own counts ahead of one for several families; of the former
/// the last counts, of the latter the first. The last path counts.
pub proof fn next_hops_and_paths_count(attrs: Seq<JsonView>, attr: JsonView)
    ensures
        ({
            let before = with_attributes(attrs);
            let after = with_attributes(attrs.push(attr));
            &&& attr.text_at("conventionalNextHop"@) is Some && attr.text_at(
                "conventionalNextHop"@,
            )->0 != "-"@ ==> after.next_hop == attr.text_at("conventionalNextHop"@)->0
            &&& attr.text_at("conventionalNextHop"@) is None && before.next_hop != "-"@
                ==> after.next_hop == before.next_hop
            &&& attr.text_at("conventionalNextHop"@) is None && before.next_hop == "-"@
                && mp_next_hop(attr) is Some ==> after.next_hop == mp_next_hop(attr)->0
            &&& attr.text_at("conventionalNextHop"@) is None && mp_next_hop(attr) is None
                ==> after.next_hop == before.next_hop
            &&& attr.items_at("asPath"@) is Some ==> after.as_path == hops_text(
                attr.items_at("asPath"@)->0,
            )
            &&& attr.items_at("asPath"@) is None ==> after.as_path == before.as_path
        }),
        with_attributes(Seq::empty()).next_hop == "-"@,
        with_attributes(Seq::empty()).as_path.len() == 0,
{
    assert(attrs.push(attr).drop_last() =~= attrs);
}

/// What a command narrows by is asked for under its own name, and nothing else
/// is. An address narrows only where it stands for a peer.
pub proof fn filters_have_their_names(c: CapturesView, peers: bool)
    ensures
        ({
            let list = filters_of(c, peers);
            &&& c.source() is Some ==> list.contains(
                "filter[ingressType]="@ + c.source()->0.ingress_name(),
            )
            &&& c.ingress_id() is Some ==> list.contains(
                "ingressId="@ + decimal_text(c.ingress_id()->0 as nat),
            )
            &&& c.ip() is Some && peers ==> list.contains("filter[peerAddress]="@ + c.ip()->0)
            &&& c.asn() is Some ==> list.contains(
                "filter[originAsn]="@ + decimal_text(c.asn()->0 as nat),
            )
            &&& c.community() is Some ==> list.contains(
                "filter[community]="@ + c.community()->0,
            )
            &&& list.len() == (if c.source() is Some {
                1int
            } else {
                0
            }) + (if c.ingress_id() is Some {
                1int
            } else {
                0
            }) + (if c.ip() is Some && peers {
                1int
            } else {
                0
            }) + (if c.asn() is Some {
                1int
            } else {
                0
            }) + (if c.community() is Some {
                1int
            } else {
                0
            })
        }),
{
    let list = filters_of(c, peers);
    let a: int = if c.source() is Some {
        1
    } else {
        0
    };
    let b: int = if c.ingress_id() is Some {
        a + 1
    } else {
        a
    };
    let d: int = if c.ip() is Some && peers {
        b + 1
    } else {
        b
    };
    let e: int = if c.asn() is Some {
        d + 1
    } else {
        d
    };
    if c.source() is Some {
        assert(list[0] == "filter[ingressType]="@ + c.source()->0.ingress_name());
    }
    if c.ingress_id() is Some {
        assert(list[a] == "ingressId="@ + decimal_text(c.ingress_id()->0 as nat));
    }
    if c.ip() is Some && peers {
        assert(list[b] == "filter[peerAddress]="@ + c.ip()->0);
    }
    if c.asn() is Some {
        assert(list[d] == "filter[originAsn]="@ + decimal_text(c.asn()->0 as nat));
    }
    if c.community() is Some {
        assert(list[e] == "filter[community]="@ + c.community()->0);
    }
}

/// A command is answered from the table of its own family: IPv4 or IPv6, unicast
/// or FlowSpec, or from the best paths of the unicast one.
pub proof fn requests_go_to_their_family(afi: Afi, safi: Safi)
    ensures
        afi is V4 && safi is Unicast ==> rib_path(afi, safi) == "/api/v1/ribs/ipv4unicast/routes"@,
        afi is V6 && safi is Unicast ==> rib_path(afi, safi) == "/api/v1/ribs/ipv6unicast/routes"@,
        afi is V4 && safi is FlowSpec ==> rib_path(afi, safi)
            == "/api/v1/ribs/ipv4flowspec/routes"@,
        afi is V6 && safi is FlowSpec ==> rib_path(afi, safi)
            == "/api/v1/ribs/ipv6flowspec/routes"@,
        afi is V4 ==> best_path_path(afi) == "/api/v1/ribs/ipv4unicast/best-path"@,
        afi is V6 ==> best_path_path(afi) == "/api/v1/ribs/ipv6unicast/best-path"@,
{
}

/// What is asked for and how the answer is shown go together: a best path for
/// a search for one, rules for FlowSpec, the routes of a prefix where one is
/// given, else the table line by line. Only a search for a best path without a
/// prefix or an address is refused.
pub proof fn answers_are_shown_as_asked(c: CapturesView)
    ensures
        route_request_of(c) is Err <==> c.best() && c.prefix() is None && c.ip() is None,
        route_request_of(c) is Ok ==> {
            let (path, view) = route_request_of(c)->Ok_0;
            &&& view is BestPath <==> c.best()
            &&& view is FlowSpec <==> !c.best() && c.safi() is FlowSpec
            &&& view is Prefix <==> !c.best() && c.safi() is Unicast && c.prefix() is Some
            &&& view is Table <==> !c.best() && c.safi() is Unicast && c.prefix() is None
            &&& c.best() ==> (best_path_path(c.afi()) + "/"@).is_prefix_of(path)
            &&& !c.best() ==> rib_path(c.afi(), c.safi()).is_prefix_of(path)
            &&& c.prefix() is Some && c.best() ==> (best_path_path(c.afi()) + "/"@ + (
            c.prefix()->0).0 + "/"@ + decimal_text((c.prefix()->0).1 as nat)).is_prefix_of(path)
            &&& c.prefix() is Some && !c.best() ==> (rib_path(c.afi(), c.safi()) + "/"@ + (
            c.prefix()->0).0 + "/"@ + decimal_text((c.prefix()->0).1 as nat)).is_prefix_of(path)
            &&& view is Table ==> (rib_path(c.afi(), c.safi()) + "?"@).is_prefix_of(path)
        },
{
}

/// What is asked for of a peer, or of all of them.
pub proof fn peers_are_asked_for_by_address(c: CapturesView)
    ensures
        c.ip() is Some ==> neighbors_path_of(c) == "/api/v1/bgp/neighbors/"@ + c.ip()->0,
        c.ip() is None ==> neighbors_path_of(c) == "/api/v1/bgp/neighbors"@,
{
}

/// Where there is no best path, it is told apart whether there was nothing at
/// all or nothing eligible, and each excluded route is listed with its peer and
/// the reason.
pub proof fn missing_best_paths_are_explained(
    out: Seq<char>,
    rows: Seq<JsonView>,
    more: JsonView,
    document: JsonView,
)
    ensures
        no_best_path(Seq::empty()) == "% Network not in table.\n"@,
        rows.len() > 0 ==> no_best_path(rows) == left_out_lines(
            "% No eligible path ("@ + decimal_text(rows.len())
                + " route(s) excluded from the decision process).\n"@
                + "  excluded from the decision process:\n"@,
            rows,
        ),
        more.text_at("reason"@) is Some ==> left_out_lines(out, rows.push(more))
            == left_out_lines(out, rows) + "    peer "@ + number_or_dash(
            source_number(more, "ingressId"@),
        ) + " - "@ + more.text_at("reason"@)->0 + "\n"@,
        best_in(document) is None ==> best_path_text(document) == no_best_path(
            data_list(document, "ineligible"@),
        ),
        data_field(document, "best"@) == Some(JsonView::Null) ==> best_in(document) is None,
        data_field(document, "best"@) is Some && data_field(document, "best"@)->0 != JsonView::Null
            ==> best_in(document) == data_field(document, "best"@),
{
    assert(rows.push(more).drop_last() =~= rows);
}

/// A rule of one of several paths of a session is told by the session and the
/// path, any other by its session. The texts of a list come in order, and what is
/// no text is passed over.
pub proof fn owners_and_texts_are_told(rule: JsonView, values: Seq<JsonView>, more: JsonView)
    ensures
        source_number(rule, "pathId"@) is Some && source_number(rule, "ingressId"@) is Some
            ==> owner_text(rule) == decimal_text(source_number(rule, "ingressId"@)->0 as nat)
            + " path "@ + decimal_text(source_number(rule, "pathId"@)->0 as nat),
        source_number(rule, "pathId"@) is None ==> owner_text(rule) == number_or_dash(
            source_number(rule, "ingressId"@),
        ),
        more is Text ==> texts_in(values.push(more)) == texts_in(values).push(more->Text_0),
        more !is Text ==> texts_in(values.push(more)) == texts_in(values),
{
    assert(values.push(more).drop_last() =~= values);
}

/// A line of a table that is shown as it comes in is passed over if it is empty
/// or no document; any other is a route with its prefix.
pub proof fn lines_of_a_table_are_routes(line: Seq<char>)
    ensures
        streamed_row(line) is Some <==> trimmed(line).len() > 0 && json_in(line) is Ok,
        streamed_row(line) is Some ==> streamed_row(line)->0 == route_row(
            or_dash(json_in(line)->Ok_0.text_at("prefix"@)),
            json_in(line)->Ok_0,
        ),
{
}

} // verus!
