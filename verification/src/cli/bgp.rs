//! Peers and routes: what is asked of the daemon and how its answers are
//! shown.

use crate::cli::error::{CliError, ErrorView};
use crate::cli::fmt::{count, grouped, uptime, uptime_text};
use crate::cli::table::{
    col_views, empty_table, left, left_col, right, right_col, shows, table_text, with_row, Col,
    ColView, Table, TableView,
};
use crate::cli::tree::PeerSource;
use crate::json::{deep_items, json_in, parse, Json, JsonView};
use crate::text::{decimal, decimal_text, join, same, string_views};
use vstd::prelude::*;
use vstd::string::StringExecFns;

verus! {

/// A text, or a dash.
pub open spec fn or_dash(text: Option<Seq<char>>) -> Seq<char> {
    match text {
        Some(text) => text,
        None => "-"@,
    }
}

/// A text, or a dash.
pub(crate) fn text_or_dash(text: Option<&str>) -> (r: String)
    ensures
        r@ == or_dash(
            match text {
                Some(text) => Some(text@),
                None => None,
            },
        ),
{
    match text {
        Some(text) => text.to_owned(),
        None => "-".to_owned(),
    }
}

/// The text of a field, or a dash.
pub(crate) fn field_or_dash(value: &Json, key: &str) -> (r: String)
    ensures
        r@ == or_dash(value.deep().text_at(key@)),
{
    text_or_dash(value.text_at(key))
}

/// A number with its digits in groups, or a dash.
pub open spec fn count_or_dash(n: Option<u64>) -> Seq<char> {
    match n {
        Some(n) => grouped(decimal_text(n as nat)),
        None => "-"@,
    }
}

/// A number with its digits in groups, or a dash.
pub fn opt_count(n: Option<u64>) -> (r: String)
    ensures
        r@ == count_or_dash(n),
{
    match n {
        Some(n) => count(n),
        None => "-".to_owned(),
    }
}

/// A number, or a dash.
pub open spec fn number_or_dash(n: Option<u64>) -> Seq<char> {
    match n {
        Some(n) => decimal_text(n as nat),
        None => "-"@,
    }
}

/// A number, or a dash.
pub(crate) fn opt_number(n: Option<u64>) -> (r: String)
    ensures
        r@ == number_or_dash(n),
{
    match n {
        Some(n) => decimal(n),
        None => "-".to_owned(),
    }
}

/// The items of the `data` field of an answer; none if there is no such list.
pub open spec fn data_items(document: JsonView) -> Seq<JsonView> {
    match document.items_at("data"@) {
        Some(items) => items,
        None => seq![],
    }
}

/// The error for an answer that is no document.
pub open spec fn malformed(error: Seq<char>) -> ErrorView {
    ErrorView::Transport("Malformed JSON: "@ + error)
}

/// Reads an answer as a document.
pub(crate) fn parse_answer(body: &str) -> (r: Result<Json, CliError>)
    ensures
        match json_in(body@) {
            Ok(document) => r is Ok && r->Ok_0.deep() == document,
            Err(error) => r is Err && r->Err_0@ == malformed(error),
        },
{
    match parse(body) {
        Ok(document) => Ok(document),
        Err(error) => Err(CliError::Transport(join("Malformed JSON: ", error.as_str()))),
    }
}

/// The columns of the summary.
pub open spec fn summary_cols() -> Seq<ColView> {
    seq![
        left_col("Neighbor"@, 15),
        right_col("V"@, 1),
        right_col("AS"@, 6),
        left_col("Src"@, 3),
        right_col("UpdRcvd"@, 8),
        right_col("NotifRcvd"@, 9),
        right_col("Up/Down"@, 9),
        right_col("State/PfxRcd"@, 12),
    ]
}

/// Whether a peer is one of a source.
pub open spec fn source_fits(source: Seq<char>, only: Option<PeerSource>) -> bool {
    match only {
        Some(PeerSource::Bgp) => source == "bgp"@,
        Some(PeerSource::Bmp) => source == "bmp"@,
        _ => true,
    }
}

/// How many prefixes a peer has sent, if its session is up, else the state of
/// the session. That a number is not known does not make it zero.
pub open spec fn state_or_prefixes(n: JsonView) -> Seq<char> {
    let state = or_dash(n.text_at("state"@));
    if state == "Established"@ {
        count_or_dash(n.unsigned_at("prefixesReceived"@))
    } else {
        state
    }
}

/// How long a session has been up.
pub open spec fn up_time(n: JsonView) -> Seq<char> {
    match n.unsigned_at("upSeconds"@) {
        Some(secs) => uptime_text(secs as nat),
        None => "never"@,
    }
}

/// The row of a peer in the summary.
pub open spec fn summary_row(n: JsonView) -> Seq<Seq<char>> {
    seq![
        or_dash(n.text_at("peerAddress"@)),
        "4"@,
        number_or_dash(n.unsigned_at("peerAsn"@)),
        or_dash(n.text_at("source"@)),
        count_or_dash(n.unsigned_at("updatesReceived"@)),
        count_or_dash(n.unsigned_at("notificationsReceived"@)),
        up_time(n),
        state_or_prefixes(n),
    ]
}

/// The summary of some peers as it grows: the table, and how many peers there
/// are of each source.
pub ghost struct SummaryView {
    pub table: TableView,
    pub bgp: int,
    pub bmp: int,
}

/// The summary of the first peers.
pub open spec fn summary_of(neighbors: Seq<JsonView>, only: Option<PeerSource>) -> SummaryView
    decreases neighbors.len(),
{
    if neighbors.len() == 0 {
        SummaryView { table: empty_table(summary_cols(), false), bgp: 0, bmp: 0 }
    } else {
        let rest = summary_of(neighbors.drop_last(), only);
        let n = neighbors.last();
        let source = or_dash(n.text_at("source"@));
        if source_fits(source, only) {
            SummaryView {
                table: with_row(rest.table, summary_row(n)),
                bgp: rest.bgp + (if source == "bgp"@ {
                    1int
                } else {
                    0
                }),
                bmp: rest.bmp + (if source != "bgp"@ && source == "bmp"@ {
                    1int
                } else {
                    0
                }),
            }
        } else {
            rest
        }
    }
}

/// The summary of some peers: a table and a total.
pub open spec fn summary_text(neighbors: Seq<JsonView>, only: Option<PeerSource>) -> Seq<char> {
    let summary = summary_of(neighbors, only);
    table_text(summary.table) + "\nTotal neighbors "@ + decimal_text(
        (summary.bgp + summary.bmp) as nat,
    ) + " (bgp "@ + decimal_text(summary.bgp as nat) + ", bmp "@ + decimal_text(summary.bmp as nat)
        + ")\n"@
}

fn summary_columns() -> (r: Vec<Col>)
    ensures
        col_views(r@) == summary_cols(),
{
    let r = vec![
        left("Neighbor", 15),
        right("V", 1),
        right("AS", 6),
        left("Src", 3),
        right("UpdRcvd", 8),
        right("NotifRcvd", 9),
        right("Up/Down", 9),
        right("State/PfxRcd", 12),
    ];
    assert(col_views(r@) =~= summary_cols());
    r
}

fn summary_cells(n: &Json) -> (r: Vec<String>)
    ensures
        string_views(r@) == summary_row(n.deep()),
{
    let state = field_or_dash(n, "state");
    let state_or_pfx = if same(state.as_str(), "Established") {
        opt_count(n.unsigned_at("prefixesReceived"))
    } else {
        state
    };
    let up = match n.unsigned_at("upSeconds") {
        Some(secs) => uptime(secs),
        None => "never".to_owned(),
    };
    let r = vec![
        field_or_dash(n, "peerAddress"),
        "4".to_owned(),
        opt_number(n.unsigned_at("peerAsn")),
        field_or_dash(n, "source"),
        opt_count(n.unsigned_at("updatesReceived")),
        opt_count(n.unsigned_at("notificationsReceived")),
        up,
        state_or_pfx,
    ];
    assert(string_views(r@) =~= summary_row(n.deep()));
    r
}

/// Shows the summary of some peers.
pub fn show_summary(neighbors: &[Json], only: Option<PeerSource>) -> (r: String)
    ensures
        r@ == summary_text(deep_items(neighbors@), only),
{
    let ghost all = deep_items(neighbors@);
    let cols = summary_columns();
    let mut table = Table::fit(&cols);
    let mut bgp: usize = 0;
    let mut bmp: usize = 0;
    let mut i: usize = 0;
    assert(all.take(0) =~= seq![]);
    while i < neighbors.len()
        invariant
            i <= neighbors@.len(),
            all == deep_items(neighbors@),
            bgp + bmp <= i,
            summary_of(all.take(i as int), only) == (SummaryView {
                table: table@,
                bgp: bgp as int,
                bmp: bmp as int,
            }),
        decreases neighbors.len() - i,
    {
        let n = &neighbors[i];
        proof {
            assert(all.take(i + 1).drop_last() =~= all.take(i as int));
            assert(all.take(i + 1).last() == n.deep());
        }
        let source = field_or_dash(n, "source");
        let is_bgp = same(source.as_str(), "bgp");
        let is_bmp = same(source.as_str(), "bmp");
        let fits = match only {
            Some(PeerSource::Bgp) => is_bgp,
            Some(PeerSource::Bmp) => is_bmp,
            _ => true,
        };
        if fits {
            if is_bgp {
                bgp += 1;
            } else if is_bmp {
                bmp += 1;
            }
            table.row(summary_cells(n));
        }
        i += 1;
    }
    assert(all.take(i as int) =~= all);
    let mut out = table.finish();
    out.append("\nTotal neighbors ");
    out.append(decimal((bgp + bmp) as u64).as_str());
    out.append(" (bgp ");
    out.append(decimal(bgp as u64).as_str());
    out.append(", bmp ");
    out.append(decimal(bmp as u64).as_str());
    out.append(")\n");
    out
}

/// Shows the summary of the peers in an answer.
pub fn render_summary(body: &str, only: Option<PeerSource>) -> (r: Result<String, CliError>)
    ensures
        match json_in(body@) {
            Ok(document) => r is Ok && r->Ok_0@ == summary_text(data_items(document), only),
            Err(error) => r is Err && r->Err_0@ == malformed(error),
        },
{
    let document = parse_answer(body)?;
    let none: Vec<Json> = Vec::new();
    assert(deep_items(none@) =~= seq![]);
    let neighbors = match document.items_at("data") {
        Some(items) => items,
        None => &none,
    };
    Ok(show_summary(neighbors, only))
}

/// The lines that say who a peer is.
pub open spec fn peer_lines(out: Seq<char>, n: JsonView) -> Seq<char> {
    let out = out + "BGP neighbor is "@ + or_dash(n.text_at("peerAddress"@));
    let out = match n.unsigned_at("peerAsn"@) {
        Some(asn) => out + ", remote AS "@ + decimal_text(asn as nat),
        None => out,
    };
    let out = out + "\n"@;
    let out = match n.text_at("name"@) {
        Some(name) => out + "  Description: "@ + name + "\n"@,
        None => out,
    };
    match n.text_at("routerId"@) {
        Some(id) => out + "  BGP router identifier: "@ + id + "\n"@,
        None => out,
    }
}

/// The lines that say how things stand with a peer and where it is known from.
pub open spec fn state_lines(out: Seq<char>, n: JsonView) -> Seq<char> {
    let out = out + "  BGP state = "@ + (match n.text_at("state"@) {
        Some(state) => state,
        None => "unknown"@,
    });
    let out = match n.unsigned_at("upSeconds"@) {
        Some(secs) => out + ", up for "@ + uptime_text(secs as nat),
        None => out,
    };
    let out = out + "\n  Learned via: "@ + (if n.text_at("source"@) == Some("bmp"@) {
        "BMP feed"@
    } else {
        "direct BGP session"@
    }) + "\n"@;
    let out = match n.text_at("viaRouter"@) {
        Some(via) => out + "  Monitored router: "@ + via + " (ingress "@ + decimal_text(
            (match n.unsigned_at("viaIngressId"@) {
                Some(id) => id,
                None => 0,
            }) as nat,
        ) + ")\n"@,
        None => out,
    };
    match n.text_at("peerRibType"@) {
        Some(rib) => out + "  RIB type: "@ + rib + "\n"@,
        None => out,
    }
}

/// The lines that say how a session is set up.
pub open spec fn setup_lines(out: Seq<char>, n: JsonView) -> Seq<char> {
    let out = if n.bool_at("configured"@) == Some(true) {
        out + "  Configured: yes"@ + (if n.bool_at("connectMode"@) == Some(true) {
            " (active mode; we initiate the connection)"@
        } else {
            ""@
        }) + "\n"@
    } else {
        out
    };
    let out = match n.unsigned_at("holdTimeConfigured"@) {
        Some(hold) => out + "  Configured hold time: "@ + decimal_text(hold as nat) + " seconds\n"@,
        None => out,
    };
    match n.unsigned_at("ingressId"@) {
        Some(id) => out + "  Ingress id: "@ + decimal_text(id as nat) + "\n"@,
        None => out,
    }
}

/// The lines with what was counted. The size of the table and the
/// announcements that did not change it are different things.
pub open spec fn statistics_lines(out: Seq<char>, n: JsonView) -> Seq<char> {
    let out = out + "  Message statistics:\n    UPDATEs received:       "@ + count_or_dash(
        n.unsigned_at("updatesReceived"@),
    ) + "\n    NOTIFICATIONs received: "@ + count_or_dash(n.unsigned_at("notificationsReceived"@))
        + "\n    (netom is a collector: it sends no UPDATEs, and KEEPALIVEs are handled inside the FSM and not counted)\n"@;
    let out = if n.unsigned_at("prefixesReceived"@) is Some || n.unsigned_at("prefixesRejected"@)
        is Some {
        out + "  Prefix statistics:\n    Current:    "@ + count_or_dash(
            n.unsigned_at("prefixesReceived"@),
        ) + "\n    Rejected:   "@ + count_or_dash(n.unsigned_at("prefixesRejected"@))
            + "\n    Duplicates: "@ + count_or_dash(n.unsigned_at("dupPrefixAdvertisements"@))
            + "\n"@
    } else {
        out
    };
    match n.text_at("lastError"@) {
        Some(error) => out + "  Last error: "@ + error + "\n"@,
        None => out,
    }
}

/// All that is shown of a peer.
pub open spec fn neighbor_lines(out: Seq<char>, n: JsonView) -> Seq<char> {
    statistics_lines(setup_lines(state_lines(peer_lines(out, n), n), n), n)
}

/// Peers in detail, with an empty line between them.
pub open spec fn neighbors_text(neighbors: Seq<JsonView>) -> Seq<char>
    decreases neighbors.len(),
{
    if neighbors.len() == 0 {
        seq![]
    } else {
        let before = neighbors_text(neighbors.drop_last());
        neighbor_lines(
            if neighbors.len() > 1 {
                before + "\n"@
            } else {
                before
            },
            neighbors.last(),
        )
    }
}

fn put_peer(out: &mut String, n: &Json)
    ensures
        final(out)@ == peer_lines(old(out)@, n.deep()),
{
    out.append("BGP neighbor is ");
    out.append(field_or_dash(n, "peerAddress").as_str());
    if let Some(asn) = n.unsigned_at("peerAsn") {
        out.append(", remote AS ");
        out.append(decimal(asn).as_str());
    }
    out.append("\n");
    if let Some(name) = n.text_at("name") {
        out.append("  Description: ");
        out.append(name);
        out.append("\n");
    }
    if let Some(id) = n.text_at("routerId") {
        out.append("  BGP router identifier: ");
        out.append(id);
        out.append("\n");
    }
}

fn put_state(out: &mut String, n: &Json)
    ensures
        final(out)@ == state_lines(old(out)@, n.deep()),
{
    out.append("  BGP state = ");
    match n.text_at("state") {
        Some(state) => out.append(state),
        None => out.append("unknown"),
    }
    if let Some(secs) = n.unsigned_at("upSeconds") {
        out.append(", up for ");
        out.append(uptime(secs).as_str());
    }
    out.append("\n  Learned via: ");
    let bmp = match n.text_at("source") {
        Some(source) => same(source, "bmp"),
        None => false,
    };
    if bmp {
        out.append("BMP feed");
    } else {
        out.append("direct BGP session");
    }
    out.append("\n");
    if let Some(via) = n.text_at("viaRouter") {
        out.append("  Monitored router: ");
        out.append(via);
        out.append(" (ingress ");
        let id: u64 = match n.unsigned_at("viaIngressId") {
            Some(id) => id,
            None => 0,
        };
        out.append(decimal(id).as_str());
        out.append(")\n");
    }
    if let Some(rib) = n.text_at("peerRibType") {
        out.append("  RIB type: ");
        out.append(rib);
        out.append("\n");
    }
}

fn put_setup(out: &mut String, n: &Json)
    ensures
        final(out)@ == setup_lines(old(out)@, n.deep()),
{
    if n.bool_at("configured") == Some(true) {
        out.append("  Configured: yes");
        if n.bool_at("connectMode") == Some(true) {
            out.append(" (active mode; we initiate the connection)");
        } else {
            out.append("");
        }
        out.append("\n");
    }
    if let Some(hold) = n.unsigned_at("holdTimeConfigured") {
        out.append("  Configured hold time: ");
        out.append(decimal(hold).as_str());
        out.append(" seconds\n");
    }
    if let Some(id) = n.unsigned_at("ingressId") {
        out.append("  Ingress id: ");
        out.append(decimal(id).as_str());
        out.append("\n");
    }
}

fn put_statistics(out: &mut String, n: &Json)
    ensures
        final(out)@ == statistics_lines(old(out)@, n.deep()),
{
    out.append("  Message statistics:\n    UPDATEs received:       ");
    out.append(opt_count(n.unsigned_at("updatesReceived")).as_str());
    out.append("\n    NOTIFICATIONs received: ");
    out.append(opt_count(n.unsigned_at("notificationsReceived")).as_str());
    out.append(
        "\n    (netom is a collector: it sends no UPDATEs, and KEEPALIVEs are handled inside the FSM and not counted)\n",
    );
    let received = n.unsigned_at("prefixesReceived");
    let rejected = n.unsigned_at("prefixesRejected");
    if received.is_some() || rejected.is_some() {
        out.append("  Prefix statistics:\n    Current:    ");
        out.append(opt_count(received).as_str());
        out.append("\n    Rejected:   ");
        out.append(opt_count(rejected).as_str());
        out.append("\n    Duplicates: ");
        out.append(opt_count(n.unsigned_at("dupPrefixAdvertisements")).as_str());
        out.append("\n");
    }
    if let Some(error) = n.text_at("lastError") {
        out.append("  Last error: ");
        out.append(error);
        out.append("\n");
    }
}

/// What is shown of some peers, or that there are none.
pub open spec fn neighbors_or_none(neighbors: Seq<JsonView>) -> Seq<char> {
    if neighbors.len() == 0 {
        "% No matching neighbor.\n"@
    } else {
        neighbors_text(neighbors)
    }
}

/// Shows some peers in detail.
pub fn show_neighbors(neighbors: &[Json]) -> (r: String)
    ensures
        r@ == neighbors_or_none(deep_items(neighbors@)),
{
    if neighbors.len() == 0 {
        return "% No matching neighbor.\n".to_owned();
    }
    let ghost all = deep_items(neighbors@);
    let mut out = String::new();
    let mut i: usize = 0;
    assert(all.take(0) =~= seq![]);
    assert(out@ =~= neighbors_text(all.take(0)));
    while i < neighbors.len()
        invariant
            i <= neighbors@.len(),
            all == deep_items(neighbors@),
            out@ == neighbors_text(all.take(i as int)),
        decreases neighbors.len() - i,
    {
        let n = &neighbors[i];
        proof {
            assert(all.take(i + 1).drop_last() =~= all.take(i as int));
            assert(all.take(i + 1).last() == n.deep());
        }
        if i > 0 {
            out.append("\n");
        }
        put_peer(&mut out, n);
        put_state(&mut out, n);
        put_setup(&mut out, n);
        put_statistics(&mut out, n);
        i += 1;
    }
    assert(all.take(i as int) =~= all);
    out
}

/// Shows the peers in an answer in detail.
pub fn render_neighbors(body: &str) -> (r: Result<String, CliError>)
    ensures
        match json_in(body@) {
            Ok(document) => r is Ok && r->Ok_0@ == neighbors_or_none(data_items(document)),
            Err(error) => r is Err && r->Err_0@ == malformed(error),
        },
{
    let document = parse_answer(body)?;
    let none: Vec<Json> = Vec::new();
    assert(deep_items(none@) =~= seq![]);
    let neighbors = match document.items_at("data") {
        Some(items) => items,
        None => &none,
    };
    Ok(show_neighbors(neighbors))
}

/// A peer is shown with each thing under its title. What it has sent is shown only
/// while its session is established; else its state is.
pub proof fn summary_cells_have_their_titles(n: JsonView)
    ensures
        summary_cols().len() == 8,
        summary_row(n).len() == 8,
        shows(summary_cols(), summary_row(n), "Neighbor"@, or_dash(n.text_at("peerAddress"@))),
        shows(summary_cols(), summary_row(n), "V"@, "4"@),
        shows(summary_cols(), summary_row(n), "AS"@, number_or_dash(n.unsigned_at("peerAsn"@))),
        shows(summary_cols(), summary_row(n), "Src"@, or_dash(n.text_at("source"@))),
        shows(summary_cols(), summary_row(n), "UpdRcvd"@, count_or_dash(n.unsigned_at("updatesReceived"@))),
        shows(summary_cols(), summary_row(n), "NotifRcvd"@, count_or_dash(n.unsigned_at("notificationsReceived"@))),
        shows(summary_cols(), summary_row(n), "Up/Down"@, up_time(n)),
        shows(summary_cols(), summary_row(n), "State/PfxRcd"@, state_or_prefixes(n)),
        n.text_at("state"@) == Some("Established"@) ==> state_or_prefixes(n) == count_or_dash(
            n.unsigned_at("prefixesReceived"@),
        ),
        n.text_at("state"@) is Some && n.text_at("state"@)->0 != "Established"@
            ==> state_or_prefixes(n) == n.text_at("state"@)->0,
        n.unsigned_at("upSeconds"@) is None ==> up_time(n) == "never"@,
        n.unsigned_at("upSeconds"@) is Some ==> up_time(n) == uptime_text(
            n.unsigned_at("upSeconds"@)->0 as nat,
        ),
{
    let cols = summary_cols();
    assert(cols[0].title == "Neighbor"@);
    assert(cols[1].title == "V"@);
    assert(cols[2].title == "AS"@);
    assert(cols[3].title == "Src"@);
    assert(cols[4].title == "UpdRcvd"@);
    assert(cols[5].title == "NotifRcvd"@);
    assert(cols[6].title == "Up/Down"@);
    assert(cols[7].title == "State/PfxRcd"@);
}

/// One more peer adds a row if it is of the source that is asked for, and counts
/// as one of its own source alone.
pub proof fn summaries_count_by_source(
    neighbors: Seq<JsonView>,
    n: JsonView,
    only: Option<PeerSource>,
)
    ensures
        ({
            let before = summary_of(neighbors, only);
            let after = summary_of(neighbors.push(n), only);
            let source = or_dash(n.text_at("source"@));
            &&& source_fits(source, only) ==> after.table == with_row(before.table, summary_row(n))
            &&& !source_fits(source, only) ==> after == before
            &&& source_fits(source, only) && source == "bgp"@ ==> after.bgp == before.bgp + 1
                && after.bmp == before.bmp
            &&& source_fits(source, only) && source == "bmp"@ ==> after.bmp == before.bmp + 1
                && after.bgp == before.bgp
            &&& source != "bgp"@ && source != "bmp"@ ==> after.bgp == before.bgp && after.bmp
                == before.bmp
        }),
        source_fits("bgp"@, None) && source_fits("bmp"@, None),
        source_fits("bgp"@, Some(PeerSource::Bgp)) && source_fits("bmp"@, Some(PeerSource::Bmp)),
        !source_fits("bgp"@, Some(PeerSource::Bmp)) && !source_fits("bmp"@, Some(PeerSource::Bgp)),
{
    assert(neighbors.push(n).drop_last() =~= neighbors);
    reveal_strlit("bgp");
    reveal_strlit("bmp");
    assert("bgp"@[1] == 'g' && "bmp"@[1] == 'm');
}

/// What was counted of a peer stands behind its own label: the two kinds of
/// messages, and the prefixes that it has, that were refused and that it sent
/// again.
pub proof fn counts_follow_their_labels(out: Seq<char>, n: JsonView)
    requires
        n.text_at("lastError"@) is None,
    ensures
        ({
            let messages = out + "  Message statistics:\n    UPDATEs received:       "@
                + count_or_dash(n.unsigned_at("updatesReceived"@))
                + "\n    NOTIFICATIONs received: "@ + count_or_dash(
                n.unsigned_at("notificationsReceived"@),
            )
                + "\n    (netom is a collector: it sends no UPDATEs, and KEEPALIVEs are handled inside the FSM and not counted)\n"@;
            &&& n.unsigned_at("prefixesReceived"@) is None && n.unsigned_at("prefixesRejected"@)
                is None ==> statistics_lines(out, n) == messages
            &&& n.unsigned_at("prefixesReceived"@) is Some || n.unsigned_at("prefixesRejected"@)
                is Some ==> statistics_lines(out, n) == messages
                + "  Prefix statistics:\n    Current:    "@ + count_or_dash(
                n.unsigned_at("prefixesReceived"@),
            ) + "\n    Rejected:   "@ + count_or_dash(n.unsigned_at("prefixesRejected"@))
                + "\n    Duplicates: "@ + count_or_dash(n.unsigned_at("dupPrefixAdvertisements"@))
                + "\n"@
        }),
{
}

/// A peer is told by its address and its AS number, and the state of its session
/// with how long it is up. It is said to be known from a BMP feed exactly if it
/// is.
pub proof fn peers_are_told_by_address_and_state(out: Seq<char>, n: JsonView)
    ensures
        n.unsigned_at("peerAsn"@) is Some && n.text_at("name"@) is None && n.text_at("routerId"@)
            is None ==> peer_lines(out, n) == out + "BGP neighbor is "@ + or_dash(
            n.text_at("peerAddress"@),
        ) + ", remote AS "@ + decimal_text(n.unsigned_at("peerAsn"@)->0 as nat) + "\n"@,
        n.text_at("state"@) is Some && n.unsigned_at("upSeconds"@) is Some && n.text_at(
            "viaRouter"@,
        ) is None && n.text_at("peerRibType"@) is None && n.text_at("source"@) == Some("bmp"@)
            ==> state_lines(out, n) == out + "  BGP state = "@ + n.text_at("state"@)->0
            + ", up for "@ + uptime_text(n.unsigned_at("upSeconds"@)->0 as nat)
            + "\n  Learned via: "@ + "BMP feed"@ + "\n"@,
        n.text_at("state"@) is Some && n.unsigned_at("upSeconds"@) is None && n.text_at(
            "viaRouter"@,
        ) is None && n.text_at("peerRibType"@) is None && n.text_at("source"@) != Some("bmp"@)
            ==> state_lines(out, n) == out + "  BGP state = "@ + n.text_at("state"@)->0
            + "\n  Learned via: "@ + "direct BGP session"@ + "\n"@,
{
}

} // verus!
