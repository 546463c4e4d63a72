//! The daemon itself: its version, its state, its configuration.

use crate::cli::bgp::{field_or_dash, or_dash};
use crate::cli::bmp::{or_zero, zero_if_none};
use crate::cli::fmt::{bytes, bytes_text, count, grouped, uptime, uptime_text};
use crate::cli::session::VERSION;
use crate::cli::table::{
    col_views, empty_table, left, left_col, right, right_col, shows, table_text, with_row, Col,
    ColView, Table, TableView,
};
use crate::json::{deep_items, Json, JsonView};
use crate::text::{
    chars_of, decimal, decimal_text, end_of, string_between, string_views, trimmed_end,
};
use vstd::prelude::*;
use vstd::string::StringExecFns;

verus! {

/// A text, or that it is not known.
pub open spec fn or_unknown(text: Option<Seq<char>>) -> Seq<char> {
    match text {
        Some(text) => text,
        None => "unknown"@,
    }
}

fn put_or_unknown(out: &mut String, text: Option<&str>)
    ensures
        final(out)@ == old(out)@ + or_unknown(
            match text {
                Some(text) => Some(text@),
                None => None,
            },
        ),
{
    match text {
        Some(text) => out.append(text),
        None => out.append("unknown"),
    }
}

/// What is shown of the versions.
pub open spec fn version_text(data: JsonView) -> Seq<char> {
    let out = "netom "@ + or_unknown(data.text_at("version"@)) + "\nnetom-cli "@ + VERSION@ + "\n"@;
    let out = match data.unsigned_at("uptimeSeconds"@) {
        Some(secs) => out + "Uptime "@ + uptime_text(secs as nat) + "\n"@,
        None => out,
    };
    match data.text_at("started"@) {
        Some(started) => out + "Started "@ + started + "\n"@,
        None => out,
    }
}

/// Shows the versions.
pub fn version(data: &Json) -> (r: String)
    ensures
        r@ == version_text(data.deep()),
{
    let mut out = "netom ".to_owned();
    put_or_unknown(&mut out, data.text_at("version"));
    out.append("\nnetom-cli ");
    out.append(VERSION);
    out.append("\n");
    if let Some(secs) = data.unsigned_at("uptimeSeconds") {
        out.append("Uptime ");
        out.append(uptime(secs).as_str());
        out.append("\n");
    }
    if let Some(started) = data.text_at("started") {
        out.append("Started ");
        out.append(started);
        out.append("\n");
    }
    out
}

/// A number in a part of the state; zero if it is missing.
pub open spec fn part_number(data: JsonView, part: Seq<char>, key: Seq<char>) -> u64 {
    match data.get(part) {
        Some(value) => or_zero(value.unsigned_at(key)),
        None => 0,
    }
}

fn number_in_part(data: &Json, part: &str, key: &str) -> (r: u64)
    ensures
        r == part_number(data.deep(), part@, key@),
{
    match data.get(part) {
        Some(value) => zero_if_none(value.unsigned_at(key)),
        None => 0,
    }
}

/// The memory that the daemon uses, if that is known.
pub open spec fn resident_bytes(data: JsonView) -> Option<u64> {
    match data.get("memory"@) {
        Some(memory) => memory.unsigned_at("rssBytes"@),
        None => None,
    }
}

/// The lines with the version and the ingresses.
pub open spec fn status_head(data: JsonView) -> Seq<char> {
    "netom "@ + or_unknown(data.text_at("version"@)) + ", up "@ + uptime_text(
        or_zero(data.unsigned_at("uptimeSeconds"@)) as nat,
    ) + "\nIngresses "@ + decimal_text(part_number(data, "ingresses"@, "total"@) as nat)
        + " total, "@ + decimal_text(part_number(data, "ingresses"@, "connected"@) as nat)
        + " connected, "@ + decimal_text(part_number(data, "ingresses"@, "disconnected"@) as nat)
        + " disconnected\n"@
}

/// The line with the memory that the daemon uses.
pub open spec fn with_memory(out: Seq<char>, data: JsonView) -> Seq<char> {
    match resident_bytes(data) {
        Some(rss) => {
            let out = out + "Memory RSS "@ + bytes_text(rss as nat);
            let clients = part_number(data, "memory"@, "bmpOutClients"@);
            let out = if clients > 0 {
                out + ", bmp-out "@ + decimal_text(clients as nat) + " client(s) buffering "@
                    + bytes_text(part_number(data, "memory"@, "bmpOutBufferedBytes"@) as nat)
            } else {
                out
            };
            out + "\n"@
        },
        None => out,
    }
}

/// The columns of a list of components.
pub open spec fn unit_cols() -> Seq<ColView> {
    seq![left_col("Name"@, 16), left_col("Type"@, 14)]
}

/// The columns of a list of stores.
pub open spec fn rib_cols() -> Seq<ColView> {
    seq![
        left_col("Store"@, 10),
        right_col("Prefixes"@, 12),
        right_col("IPv4"@, 12),
        right_col("IPv6"@, 12),
        right_col("Routes"@, 12),
    ]
}

fn unit_columns() -> (r: Vec<Col>)
    ensures
        col_views(r@) == unit_cols(),
{
    let r = vec![left("Name", 16), left("Type", 14)];
    assert(col_views(r@) =~= unit_cols());
    r
}

fn rib_columns() -> (r: Vec<Col>)
    ensures
        col_views(r@) == rib_cols(),
{
    let r = vec![
        left("Store", 10),
        right("Prefixes", 12),
        right("IPv4", 12),
        right("IPv6", 12),
        right("Routes", 12),
    ];
    assert(col_views(r@) =~= rib_cols());
    r
}

/// The row of a component.
pub open spec fn unit_row(item: JsonView) -> Seq<Seq<char>> {
    seq![or_dash(item.text_at("name"@)), or_dash(item.text_at("type"@))]
}

/// A number with its digits in groups; zero if it is missing.
pub open spec fn count_at(item: JsonView, key: Seq<char>) -> Seq<char> {
    grouped(decimal_text(or_zero(item.unsigned_at(key)) as nat))
}

/// The row of a store.
pub open spec fn store_row(store: JsonView) -> Seq<Seq<char>> {
    seq![
        or_dash(store.text_at("name"@)),
        count_at(store, "prefixes"@),
        count_at(store, "prefixesV4"@),
        count_at(store, "prefixesV6"@),
        count_at(store, "routes"@),
    ]
}

fn count_of(item: &Json, key: &str) -> (r: String)
    ensures
        r@ == count_at(item.deep(), key@),
{
    count(zero_if_none(item.unsigned_at(key)))
}

fn unit_cells(item: &Json) -> (r: Vec<String>)
    ensures
        string_views(r@) == unit_row(item.deep()),
{
    let r = vec![field_or_dash(item, "name"), field_or_dash(item, "type")];
    assert(string_views(r@) =~= unit_row(item.deep()));
    r
}

fn store_cells(store: &Json) -> (r: Vec<String>)
    ensures
        string_views(r@) == store_row(store.deep()),
{
    let r = vec![
        field_or_dash(store, "name"),
        count_of(store, "prefixes"),
        count_of(store, "prefixesV4"),
        count_of(store, "prefixesV6"),
        count_of(store, "routes"),
    ];
    assert(string_views(r@) =~= store_row(store.deep()));
    r
}

/// A table of components.
pub open spec fn units_table(items: Seq<JsonView>) -> TableView
    decreases items.len(),
{
    if items.len() == 0 {
        empty_table(unit_cols(), false)
    } else {
        with_row(units_table(items.drop_last()), unit_row(items.last()))
    }
}

/// A table of stores.
pub open spec fn stores_table(items: Seq<JsonView>) -> TableView
    decreases items.len(),
{
    if items.len() == 0 {
        empty_table(rib_cols(), false)
    } else {
        with_row(stores_table(items.drop_last()), store_row(items.last()))
    }
}

/// The components under some key; nothing if there are none.
pub open spec fn with_units(out: Seq<char>, data: JsonView, title: Seq<char>, key: Seq<char>) -> Seq<
    char,
> {
    match data.items_at(key) {
        Some(items) => if items.len() > 0 {
            out + "\n"@ + title + ":\n"@ + table_text(units_table(items))
        } else {
            out
        },
        None => out,
    }
}

/// The stores; nothing if there are none.
pub open spec fn with_stores(out: Seq<char>, data: JsonView) -> Seq<char> {
    match data.items_at("rib"@) {
        Some(items) => if items.len() > 0 {
            out + "\nRIB:\n"@ + table_text(stores_table(items))
        } else {
            out
        },
        None => out,
    }
}

/// The state of the daemon.
pub open spec fn status_text(data: JsonView) -> Seq<char> {
    let out = with_memory(status_head(data), data);
    let out = with_units(out, data, "Units"@, "units"@);
    let out = with_units(out, data, "Targets"@, "targets"@);
    with_stores(out, data)
}

fn put_memory(out: &mut String, data: &Json)
    ensures
        final(out)@ == with_memory(old(out)@, data.deep()),
{
    let rss = match data.get("memory") {
        Some(memory) => memory.unsigned_at("rssBytes"),
        None => None,
    };
    if let Some(rss) = rss {
        out.append("Memory RSS ");
        out.append(bytes(rss).as_str());
        let clients: u64 = number_in_part(data, "memory", "bmpOutClients");
        if clients > 0 {
            out.append(", bmp-out ");
            out.append(decimal(clients).as_str());
            out.append(" client(s) buffering ");
            out.append(bytes(number_in_part(data, "memory", "bmpOutBufferedBytes")).as_str());
        }
        out.append("\n");
    }
}

fn put_units(out: &mut String, data: &Json, title: &str, key: &str)
    ensures
        final(out)@ == with_units(old(out)@, data.deep(), title@, key@),
{
    let items = match data.items_at(key) {
        Some(items) => items,
        None => {
            return ;
        },
    };
    let ghost all = deep_items(items@);
    assert(all.len() == items@.len());
    if items.len() == 0 {
        return ;
    }
    let cols = unit_columns();
    let mut table = Table::fit(&cols);
    let mut i: usize = 0;
    assert(all.take(0) =~= seq![]);
    while i < items.len()
        invariant
            i <= items@.len(),
            all == deep_items(items@),
            table@ == units_table(all.take(i as int)),
        decreases items.len() - i,
    {
        proof {
            assert(all.take(i + 1).drop_last() =~= all.take(i as int));
            assert(all.take(i + 1).last() == items@[i as int].deep());
        }
        table.row(unit_cells(&items[i]));
        i += 1;
    }
    assert(all.take(i as int) =~= all);
    out.append("\n");
    out.append(title);
    out.append(":\n");
    out.append(table.finish().as_str());
}

fn put_stores(out: &mut String, data: &Json)
    ensures
        final(out)@ == with_stores(old(out)@, data.deep()),
{
    let items = match data.items_at("rib") {
        Some(items) => items,
        None => {
            return ;
        },
    };
    let ghost all = deep_items(items@);
    assert(all.len() == items@.len());
    if items.len() == 0 {
        return ;
    }
    let cols = rib_columns();
    let mut table = Table::fit(&cols);
    let mut i: usize = 0;
    assert(all.take(0) =~= seq![]);
    while i < items.len()
        invariant
            i <= items@.len(),
            all == deep_items(items@),
            table@ == stores_table(all.take(i as int)),
        decreases items.len() - i,
    {
        proof {
            assert(all.take(i + 1).drop_last() =~= all.take(i as int));
            assert(all.take(i + 1).last() == items@[i as int].deep());
        }
        table.row(store_cells(&items[i]));
        i += 1;
    }
    assert(all.take(i as int) =~= all);
    out.append("\nRIB:\n");
    out.append(table.finish().as_str());
}

/// Shows the state of the daemon.
pub fn status(data: &Json) -> (r: String)
    ensures
        r@ == status_text(data.deep()),
{
    let mut out = "netom ".to_owned();
    put_or_unknown(&mut out, data.text_at("version"));
    out.append(", up ");
    out.append(uptime(zero_if_none(data.unsigned_at("uptimeSeconds"))).as_str());
    out.append("\nIngresses ");
    out.append(decimal(number_in_part(data, "ingresses", "total")).as_str());
    out.append(" total, ");
    out.append(decimal(number_in_part(data, "ingresses", "connected")).as_str());
    out.append(" connected, ");
    out.append(decimal(number_in_part(data, "ingresses", "disconnected")).as_str());
    out.append(" disconnected\n");
    put_memory(&mut out, data);
    put_units(&mut out, data, "Units", "units");
    put_units(&mut out, data, "Targets", "targets");
    put_stores(&mut out, data);
    out
}

fn put_trimmed_line(out: &mut String, text: &str)
    ensures
        final(out)@ == old(out)@ + trimmed_end(text@) + "\n"@,
{
    let chars = chars_of(text);
    let end: usize = end_of(&chars);
    let shown = string_between(&chars, 0, end);
    assert(shown@ =~= chars@.take(end as int));
    out.append(shown.as_str());
    out.append("\n");
}

/// The configuration of the daemon.
pub open spec fn config_text(data: JsonView) -> Seq<char> {
    let out = match data.text_at("path"@) {
        Some(path) => "! Configuration file: "@ + path + "\n"@,
        None => ""@,
    };
    out + "! Secrets are redacted.\n!\n"@ + trimmed_end(
        match data.text_at("toml"@) {
            Some(toml) => toml,
            None => ""@,
        },
    ) + "\n"@
}

/// Shows the configuration of the daemon.
pub fn running_config(data: &Json) -> (r: String)
    ensures
        r@ == config_text(data.deep()),
{
    let mut out = "".to_owned();
    if let Some(path) = data.text_at("path") {
        out = "! Configuration file: ".to_owned();
        out.append(path);
        out.append("\n");
    }
    out.append("! Secrets are redacted.\n!\n");
    match data.text_at("toml") {
        Some(toml) => put_trimmed_line(&mut out, toml),
        None => put_trimmed_line(&mut out, ""),
    }
    out
}

/// The lines with the names that a script may define.
pub open spec fn entrypoint_lines(out: Seq<char>, names: Seq<JsonView>) -> Seq<char>
    decreases names.len(),
{
    if names.len() == 0 {
        out
    } else {
        let out = entrypoint_lines(out, names.drop_last());
        match names.last().as_text() {
            Some(name) => out + "  "@ + name + "\n"@,
            None => out,
        }
    }
}

/// What is known of the filter script.
pub open spec fn filters_text(data: JsonView) -> Seq<char> {
    let out = match data.text_at("rotoScript"@) {
        Some(path) => "Roto script: "@ + path + "\n"@,
        None => "No Roto script configured.\n"@,
    };
    let out = match data.items_at("entrypoints"@) {
        Some(names) => entrypoint_lines(
            out + "\nEntrypoints netom calls if the script defines them:\n"@,
            names,
        ),
        None => out,
    };
    match data.text_at("source"@) {
        Some(source) => out + "\n! ---- script source ----\n"@ + trimmed_end(source) + "\n"@,
        None => out,
    }
}

/// Shows what is known of the filter script.
pub fn filters(data: &Json) -> (r: String)
    ensures
        r@ == filters_text(data.deep()),
{
    let mut out = "No Roto script configured.\n".to_owned();
    if let Some(path) = data.text_at("rotoScript") {
        out = "Roto script: ".to_owned();
        out.append(path);
        out.append("\n");
    }
    if let Some(names) = data.items_at("entrypoints") {
        out.append("\nEntrypoints netom calls if the script defines them:\n");
        let ghost all = deep_items(names@);
        let ghost head = out@;
        let mut i: usize = 0;
        assert(all.take(0) =~= seq![]);
        while i < names.len()
            invariant
                i <= names@.len(),
                all == deep_items(names@),
                out@ == entrypoint_lines(head, all.take(i as int)),
            decreases names.len() - i,
        {
            proof {
                assert(all.take(i + 1).drop_last() =~= all.take(i as int));
                assert(all.take(i + 1).last() == names@[i as int].deep());
            }
            if let Some(name) = names[i].as_text() {
                out.append("  ");
                out.append(name);
                out.append("\n");
            }
            i += 1;
        }
        assert(all.take(i as int) =~= all);
    }
    if let Some(source) = data.text_at("source") {
        out.append("\n! ---- script source ----\n");
        put_trimmed_line(&mut out, source);
    }
    out
}

/// A component is shown with each thing under its title.
pub proof fn component_cells_have_their_titles(item: JsonView)
    ensures
        unit_cols().len() == 2,
        unit_row(item).len() == 2,
        shows(unit_cols(), unit_row(item), "Name"@, or_dash(item.text_at("name"@))),
        shows(unit_cols(), unit_row(item), "Type"@, or_dash(item.text_at("type"@))),
{
    let cols = unit_cols();
    assert(cols[0].title == "Name"@);
    assert(cols[1].title == "Type"@);
}

/// A store is shown with each number under its title.
pub proof fn store_cells_have_their_titles(store: JsonView)
    ensures
        rib_cols().len() == 5,
        store_row(store).len() == 5,
        shows(rib_cols(), store_row(store), "Store"@, or_dash(store.text_at("name"@))),
        shows(rib_cols(), store_row(store), "Prefixes"@, count_at(store, "prefixes"@)),
        shows(rib_cols(), store_row(store), "IPv4"@, count_at(store, "prefixesV4"@)),
        shows(rib_cols(), store_row(store), "IPv6"@, count_at(store, "prefixesV6"@)),
        shows(rib_cols(), store_row(store), "Routes"@, count_at(store, "routes"@)),
{
    let cols = rib_cols();
    assert(cols[0].title == "Store"@);
    assert(cols[1].title == "Prefixes"@);
    assert(cols[2].title == "IPv4"@);
    assert(cols[3].title == "IPv6"@);
    assert(cols[4].title == "Routes"@);
}

/// Every component has a row of its own, in order.
pub proof fn every_component_has_a_row(components: Seq<JsonView>)
    ensures
        units_table(components).rows.len() == components.len(),
        units_table(components).cols == unit_cols(),
        !units_table(components).streaming,
        forall|i: int|
            0 <= i < components.len() ==> #[trigger] units_table(components).rows[i] == unit_row(components[i]),
    decreases components.len(),
{
    if components.len() > 0 {
        let fore = components.drop_last();
        every_component_has_a_row(fore);
        let all = units_table(components).rows;
        let rest = units_table(fore).rows;
        assert forall|i: int| 0 <= i < components.len() implies #[trigger] all[i] == unit_row(components[i]) by {
            if i < fore.len() {
                assert(all[i] == rest[i]);
                assert(fore[i] == components[i]);
            }
        }
    }
}

/// Every store has a row of its own, in order.
pub proof fn every_store_has_a_row(stores: Seq<JsonView>)
    ensures
        stores_table(stores).rows.len() == stores.len(),
        stores_table(stores).cols == rib_cols(),
        !stores_table(stores).streaming,
        forall|i: int|
            0 <= i < stores.len() ==> #[trigger] stores_table(stores).rows[i] == store_row(stores[i]),
    decreases stores.len(),
{
    if stores.len() > 0 {
        let fore = stores.drop_last();
        every_store_has_a_row(fore);
        let all = stores_table(stores).rows;
        let rest = stores_table(fore).rows;
        assert forall|i: int| 0 <= i < stores.len() implies #[trigger] all[i] == store_row(stores[i]) by {
            if i < fore.len() {
                assert(all[i] == rest[i]);
                assert(fore[i] == stores[i]);
            }
        }
    }
}

/// The state of the daemon tells its version, how long it is up and its
/// ingresses, all of them, those that are connected and those that are not; then
/// its components, units ahead of targets, and its stores.
pub proof fn states_tell_the_ingresses(data: JsonView)
    ensures
        status_head(data) == "netom "@ + or_unknown(data.text_at("version"@)) + ", up "@
            + uptime_text(or_zero(data.unsigned_at("uptimeSeconds"@)) as nat) + "\nIngresses "@
            + decimal_text(part_number(data, "ingresses"@, "total"@) as nat) + " total, "@
            + decimal_text(part_number(data, "ingresses"@, "connected"@) as nat) + " connected, "@
            + decimal_text(part_number(data, "ingresses"@, "disconnected"@) as nat)
            + " disconnected\n"@,
        status_text(data) == with_stores(
            with_units(
                with_units(with_memory(status_head(data), data), data, "Units"@, "units"@),
                data,
                "Targets"@,
                "targets"@,
            ),
            data,
        ),
        resident_bytes(data) is None ==> with_memory(status_head(data), data) == status_head(data),
        data.get("memory"@) is Some ==> resident_bytes(data) == data.get("memory"@)->0.unsigned_at(
            "rssBytes"@,
        ),
{
}

/// The versions are those of the daemon and of this program, each under its
/// name, then how long the daemon is up and when it was started, where that is
/// known.
pub proof fn versions_are_told_by_name(data: JsonView)
    ensures
        data.text_at("version"@) is Some && data.unsigned_at("uptimeSeconds"@) is Some
            && data.text_at("started"@) is Some ==> version_text(data) == "netom "@ + data.text_at(
            "version"@,
        )->0 + "\nnetom-cli "@ + VERSION@ + "\n"@ + "Uptime "@ + uptime_text(
            data.unsigned_at("uptimeSeconds"@)->0 as nat,
        ) + "\n"@ + "Started "@ + data.text_at("started"@)->0 + "\n"@,
        data.text_at("version"@) is None && data.unsigned_at("uptimeSeconds"@) is None
            && data.text_at("started"@) is None ==> version_text(data) == "netom "@ + "unknown"@
            + "\nnetom-cli "@ + VERSION@ + "\n"@,
        data.text_at("path"@) is Some && data.text_at("toml"@) is Some ==> config_text(data)
            == "! Configuration file: "@ + data.text_at("path"@)->0 + "\n"@
            + "! Secrets are redacted.\n!\n"@ + trimmed_end(data.text_at("toml"@)->0) + "\n"@,
{
}

} // verus!
