//! What the daemon tells about itself: its status, its configuration with
//! the secrets taken out, and its filters.

use crate::bgp_in::neighbors::IngressState;
use crate::cli::session::VERSION;
use crate::json::{
    add_field, add_some_text, deep_fields, deep_items, deep_parts, some_text, text_array,
    texts_view, with_some_text, Json, JsonView,
};
use crate::order::{bytes_order, Order};
use crate::text::{same, string_views};
use crate::toml_doc::{
    self, comes_back, toml_in, toml_parts, toml_text, written, Toml, TomlView,
};
use vstd::prelude::*;
use vstd::string::StrSliceExecFns;
use vstd::utf8::encode_utf8;

verus! {

/// What stands in place of a secret.
pub const REDACTED: &'static str = "<redacted>";

/// Whether the value of a key is a secret.
pub open spec fn is_secret(key: Seq<char>) -> bool {
    key == "md5_key"@ || key == "password"@
}

/// A document in which no secret is left, at any depth. Everything else is as
/// it was.
pub open spec fn redacted(value: TomlView) -> TomlView
    decreases value,
{
    match value {
        TomlView::Array(items) => TomlView::Array(
            Seq::new(
                items.len(),
                |i: int|
                    if 0 <= i < items.len() {
                        redacted(items[i])
                    } else {
                        TomlView::Boolean(false)
                    },
            ),
        ),
        TomlView::Table(fields) => TomlView::Table(
            Seq::new(
                fields.len(),
                |i: int|
                    if 0 <= i < fields.len() {
                        if is_secret(fields[i].0) {
                            (fields[i].0, TomlView::Text(REDACTED@))
                        } else {
                            (fields[i].0, redacted(fields[i].1))
                        }
                    } else {
                        (seq![], TomlView::Boolean(false))
                    },
            ),
        ),
        _ => value,
    }
}

/// Whether a document tells a secret, at any depth.
pub open spec fn tells_a_secret(value: TomlView) -> bool
    decreases value,
{
    match value {
        TomlView::Array(items) => exists|i: int|
            0 <= i < items.len() && tells_a_secret(#[trigger] items[i]),
        TomlView::Table(fields) => exists|i: int|
            0 <= i < fields.len() && {
                let (key, item) = #[trigger] fields[i];
                if is_secret(key) {
                    item != TomlView::Text(REDACTED@)
                } else {
                    tells_a_secret(fields[i].1)
                }
            },
        _ => false,
    }
}

/// A redacted document tells no secret.
pub proof fn redaction_leaves_no_secret(value: TomlView)
    ensures
        !tells_a_secret(redacted(value)),
    decreases value,
{
    match value {
        TomlView::Array(items) => {
            assert forall|i: int| 0 <= i < items.len() implies !tells_a_secret(
                #[trigger] redacted(value)->Array_0[i],
            ) by {
                redaction_leaves_no_secret(items[i]);
            }
        },
        TomlView::Table(fields) => {
            assert forall|i: int| 0 <= i < fields.len() && !is_secret(fields[i].0) implies !tells_a_secret(
                (#[trigger] redacted(value)->Table_0[i]).1,
            ) by {
                redaction_leaves_no_secret(fields[i].1);
            }
        },
        _ => {},
    }
}

/// A document that tells no secret is left as it is.
pub proof fn redaction_keeps_the_rest(value: TomlView)
    requires
        !tells_a_secret(value),
    ensures
        redacted(value) == value,
    decreases value,
{
    match value {
        TomlView::Array(items) => {
            assert forall|i: int| 0 <= i < items.len() implies redacted(#[trigger] items[i])
                == items[i] by {
                redaction_keeps_the_rest(items[i]);
            }
            assert(redacted(value)->Array_0 =~= items);
        },
        TomlView::Table(fields) => {
            assert forall|i: int| 0 <= i < fields.len() implies redacted(value)->Table_0[i]
                == #[trigger] fields[i] by {
                if !is_secret(fields[i].0) {
                    redaction_keeps_the_rest(fields[i].1);
                }
            }
            assert(redacted(value)->Table_0 =~= fields);
        },
        _ => {},
    }
}

/// A document that is made again as it was from its parts is so without its
/// secrets too.
pub proof fn redaction_keeps_the_form(value: TomlView)
    requires
        comes_back(value),
    ensures
        comes_back(redacted(value)),
    decreases value,
{
    match value {
        TomlView::Array(items) => {
            let list = redacted(value)->Array_0;
            assert forall|i: int| 0 <= i < list.len() implies comes_back(#[trigger] list[i]) by {
                assert(comes_back(items[i]));
                redaction_keeps_the_form(items[i]);
            }
        },
        TomlView::Table(fields) => {
            let list = redacted(value)->Table_0;
            assert forall|i: int, j: int| 0 <= i < j < list.len() implies bytes_order(
                encode_utf8((#[trigger] list[i]).0),
                encode_utf8((#[trigger] list[j]).0),
            ) == Order::Less by {
                assert(list[i].0 == fields[i].0 && list[j].0 == fields[j].0);
            }
            assert forall|i: int| 0 <= i < list.len() implies comes_back((#[trigger] list[i]).1) by {
                assert(comes_back(fields[i].1));
                redaction_keeps_the_form(fields[i].1);
            }
        },
        _ => {},
    }
}

/// Takes the secrets out of a document.
fn redact_value(value: Toml) -> (r: Toml)
    ensures
        r.deep() == redacted(value.deep()),
    decreases value,
{
    broadcast use toml_parts;

    let ghost before = value;
    match value {
        Toml::Array(items) => {
            let ghost list = items;
            let ghost all = items@;
            let mut out: Vec<Toml> = Vec::new();
            for item in iter: items
                invariant
                    iter.seq() == all,
                    before == Toml::Array(list),
                    list@ == all,
                    value == before,
                    out@.len() == iter.index(),
                    forall|i: int|
                        0 <= i < out@.len() ==> (#[trigger] out@[i]).deep() == redacted(
                            all[i].deep(),
                        ),
            {
                proof {
                    assert(item == list[iter.index() as int]);
                    assert(decreases_to!(before => before->Array_0));
                    assert(decreases_to!(list => list[iter.index() as int]));
                }
                out.push(redact_value(item));
            }
            let r = Toml::Array(out);
            proof {
                assert(r.deep()->Array_0 =~= redacted(before.deep())->Array_0);
            }
            r
        },
        Toml::Table(fields) => {
            let ghost list = fields;
            let ghost all = fields@;
            let mut out: Vec<(String, Toml)> = Vec::new();
            for field in iter: fields
                invariant
                    iter.seq() == all,
                    before == Toml::Table(list),
                    list@ == all,
                    value == before,
                    out@.len() == iter.index(),
                    forall|i: int|
                        0 <= i < out@.len() ==> (#[trigger] out@[i]).0@ == all[i].0@
                            && out@[i].1.deep() == (if is_secret(all[i].0@) {
                            TomlView::Text(REDACTED@)
                        } else {
                            redacted(all[i].1.deep())
                        }),
            {
                proof {
                    assert(field == list[iter.index() as int]);
                    assert(decreases_to!(before => before->Table_0));
                    assert(decreases_to!(list => list[iter.index() as int]));
                    assert(decreases_to!(field => field.1));
                }
                let (key, item) = field;
                if same(key.as_str(), "md5_key") || same(key.as_str(), "password") {
                    out.push((key, Toml::Text(REDACTED.to_owned())));
                } else {
                    out.push((key, redact_value(item)));
                }
            }
            let r = Toml::Table(out);
            proof {
                assert(r.deep()->Table_0 =~= redacted(before.deep())->Table_0);
            }
            r
        },
        other => other,
    }
}

/// A text in which no secret is left; nothing if the text is no document.
pub open spec fn redacted_text(document: Result<TomlView, Seq<char>>) -> Option<Seq<char>> {
    match document {
        Ok(value) => written(redacted(value)),
        Err(_) => None,
    }
}

/// A document as a text in which no secret is left, or nothing if there is no
/// document.
pub fn redact_document(document: Result<Toml, String>) -> (r: Option<String>)
    ensures
        match (document, r) {
            (Ok(value), Some(text)) => redacted_text(Ok(value.deep())) == Some(text@),
            (Ok(value), None) => redacted_text(Ok(value.deep())) is None,
            (Err(_), _) => r is None,
        },
        document matches Ok(value) ==> (comes_back(value.deep()) ==> redacted_text(
            Ok(value.deep()),
        ) == toml_text(redacted(value.deep()))),
{
    match document {
        Ok(value) => {
            proof {
                if comes_back(value.deep()) {
                    redaction_keeps_the_form(value.deep());
                }
            }
            toml_doc::document_text(redact_value(value))
        },
        Err(_) => None,
    }
}

/// Takes the secrets out of a text that is a TOML document. A text that is
/// none gives nothing, not the text.
pub fn redact_toml(input: &str) -> (r: Option<String>)
    ensures
        match r {
            Some(text) => redacted_text(toml_in(input@)) == Some(text@),
            None => redacted_text(toml_in(input@)) is None,
        },
        toml_in(input@) is Ok ==> redacted_text(toml_in(input@)) == toml_text(
            redacted(toml_in(input@)->Ok_0),
        ),
{
    redact_document(toml_doc::parse(input))
}

/// The functions that are looked up in the filter script.
pub const ROTO_ENTRYPOINTS: [&'static str; 6] = [
    "bgp_in",
    "bmp_in",
    "rib_in_pre",
    "rib_in_post",
    "vrp_update",
    "rib_in_rov_status_update",
];

/// A unit or a target of the configuration.
#[derive(Debug)]
pub struct ComponentInfo {
    pub name: String,
    pub kind: String,
}

/// The running configuration.
#[derive(Debug)]
pub struct ConfigSnapshot {
    /// The file that it was loaded from, if it was.
    pub path: Option<String>,
    /// Its text with the secrets taken out; empty if they could not be.
    pub toml: String,
    pub units: Vec<ComponentInfo>,
    pub targets: Vec<ComponentInfo>,
    pub roto_script: Option<String>,
    pub http_listen: Vec<String>,
}

/// What the daemon knows of itself.
#[derive(Debug)]
pub struct DaemonInfo {
    /// When it was started, as a text.
    pub started: String,
    /// When it was started, in seconds of a clock that does not go back.
    pub started_at: u64,
    /// The running configuration; none before the first is loaded.
    pub config: Option<ConfigSnapshot>,
}

/// How many ingresses there are, and how many of them are connected and
/// disconnected.
#[derive(Clone, Copy, Debug, PartialEq, Eq, Structural)]
pub struct IngressCounts {
    pub total: u64,
    pub connected: u64,
    pub disconnected: u64,
}

/// What a store of the RIB holds.
#[derive(Debug)]
pub struct StoreInfo {
    pub name: String,
    pub prefixes: u64,
    pub prefixes_v4: u64,
    pub prefixes_v6: u64,
    pub routes: u64,
}

/// What memory is used for.
#[derive(Clone, Copy, Debug)]
pub struct Memory {
    /// The resident set size, where it can be told.
    pub rss_bytes: Option<u64>,
    pub bmp_out_buffered_bytes: u64,
    pub bmp_out_buffered_entries: u64,
    pub bmp_out_clients: u64,
}

/// Why a request is not answered.
#[derive(Debug)]
pub enum ApiError {
    ServiceUnavailable(String),
    InternalServerError(String),
    BadRequest(String),
}

/// The number of ingresses in some state.
pub open spec fn in_state(states: Seq<Option<IngressState>>, state: IngressState) -> nat
    decreases states.len(),
{
    if states.len() == 0 {
        0
    } else {
        in_state(states.drop_last(), state) + (if states.last() == Some(state) {
            1nat
        } else {
            0
        })
    }
}

/// Counts ingresses by their states.
pub fn count_ingresses(states: &[Option<IngressState>]) -> (r: IngressCounts)
    ensures
        r.total == states@.len(),
        r.connected == in_state(states@, IngressState::Connected),
        r.disconnected == in_state(states@, IngressState::Disconnected),
        r.connected + r.disconnected <= r.total,
{
    let mut connected: u64 = 0;
    let mut disconnected: u64 = 0;
    let mut i: usize = 0;
    while i < states.len()
        invariant
            i <= states@.len(),
            connected == in_state(states@.take(i as int), IngressState::Connected),
            disconnected == in_state(states@.take(i as int), IngressState::Disconnected),
            connected + disconnected <= i,
        decreases states.len() - i,
    {
        assert(states@.take(i + 1).drop_last() =~= states@.take(i as int));
        match states[i] {
            Some(IngressState::Connected) => {
                connected += 1;
            },
            Some(IngressState::Disconnected) => {
                disconnected += 1;
            },
            None => {},
        }
        i += 1;
    }
    assert(states@.take(i as int) =~= states@);
    IngressCounts { total: states.len() as u64, connected, disconnected }
}

/// A component as a document.
pub open spec fn component_view(component: ComponentInfo) -> JsonView {
    JsonView::Object(
        seq![
            ("name"@, JsonView::Text(component.name@)),
            ("type"@, JsonView::Text(component.kind@)),
        ],
    )
}

/// Some components as a document.
pub open spec fn components_view(components: Seq<ComponentInfo>) -> JsonView {
    JsonView::Array(components.map_values(|component: ComponentInfo| component_view(component)))
}

fn components(list: &[ComponentInfo]) -> (r: Json)
    ensures
        r.deep() == components_view(list@),
{
    broadcast use deep_parts;

    let mut items: Vec<Json> = Vec::new();
    let mut i: usize = 0;
    while i < list.len()
        invariant
            i <= list@.len(),
            items@.len() == i,
            forall|k: int|
                0 <= k < i ==> (#[trigger] items@[k]).deep() == component_view(list@[k]),
        decreases list.len() - i,
    {
        broadcast use deep_parts;

        let mut fields: Vec<(String, Json)> = Vec::new();
        add_field(&mut fields, "name", Json::text(list[i].name.as_str()));
        add_field(&mut fields, "type", Json::text(list[i].kind.as_str()));
        assert(deep_fields(fields@) =~= component_view(list@[i as int])->Object_0);
        items.push(Json::Object(fields));
        i += 1;
    }
    assert(deep_items(items@) =~= components_view(list@)->Array_0);
    Json::Array(items)
}

/// A store as a document.
pub open spec fn store_view(store: StoreInfo) -> JsonView {
    JsonView::Object(
        seq![
            ("name"@, JsonView::Text(store.name@)),
            ("prefixes"@, JsonView::Unsigned(store.prefixes)),
            ("prefixesV4"@, JsonView::Unsigned(store.prefixes_v4)),
            ("prefixesV6"@, JsonView::Unsigned(store.prefixes_v6)),
            ("routes"@, JsonView::Unsigned(store.routes)),
        ],
    )
}

/// Some stores as a document.
pub open spec fn stores_view(stores: Seq<StoreInfo>) -> JsonView {
    JsonView::Array(stores.map_values(|store: StoreInfo| store_view(store)))
}

fn stores(list: &[StoreInfo]) -> (r: Json)
    ensures
        r.deep() == stores_view(list@),
{
    broadcast use deep_parts;

    let mut items: Vec<Json> = Vec::new();
    let mut i: usize = 0;
    while i < list.len()
        invariant
            i <= list@.len(),
            items@.len() == i,
            forall|k: int| 0 <= k < i ==> (#[trigger] items@[k]).deep() == store_view(list@[k]),
        decreases list.len() - i,
    {
        broadcast use deep_parts;

        let mut fields: Vec<(String, Json)> = Vec::new();
        add_field(&mut fields, "name", Json::text(list[i].name.as_str()));
        add_field(&mut fields, "prefixes", Json::Unsigned(list[i].prefixes));
        add_field(&mut fields, "prefixesV4", Json::Unsigned(list[i].prefixes_v4));
        add_field(&mut fields, "prefixesV6", Json::Unsigned(list[i].prefixes_v6));
        add_field(&mut fields, "routes", Json::Unsigned(list[i].routes));
        assert(deep_fields(fields@) =~= store_view(list@[i as int])->Object_0);
        items.push(Json::Object(fields));
        i += 1;
    }
    assert(deep_items(items@) =~= stores_view(list@)->Array_0);
    Json::Array(items)
}

/// The numbers of ingresses as a document.
pub open spec fn ingresses_view(counts: IngressCounts) -> JsonView {
    JsonView::Object(
        seq![
            ("total"@, JsonView::Unsigned(counts.total)),
            ("connected"@, JsonView::Unsigned(counts.connected)),
            ("disconnected"@, JsonView::Unsigned(counts.disconnected)),
        ],
    )
}

fn ingresses(counts: IngressCounts) -> (r: Json)
    ensures
        r.deep() == ingresses_view(counts),
{
    broadcast use deep_parts;

    let mut fields: Vec<(String, Json)> = Vec::new();
    add_field(&mut fields, "total", Json::Unsigned(counts.total));
    add_field(&mut fields, "connected", Json::Unsigned(counts.connected));
    add_field(&mut fields, "disconnected", Json::Unsigned(counts.disconnected));
    assert(deep_fields(fields@) =~= ingresses_view(counts)->Object_0);
    Json::Object(fields)
}

/// What memory is used for as a document.
pub open spec fn memory_view(memory: Memory) -> JsonView {
    JsonView::Object(
        (match memory.rss_bytes {
            Some(rss) => seq![("rssBytes"@, JsonView::Unsigned(rss))],
            None => seq![],
        }) + seq![
            ("bmpOutBufferedBytes"@, JsonView::Unsigned(memory.bmp_out_buffered_bytes)),
            ("bmpOutBufferedEntries"@, JsonView::Unsigned(memory.bmp_out_buffered_entries)),
            ("bmpOutClients"@, JsonView::Unsigned(memory.bmp_out_clients)),
        ],
    )
}

fn memory_document(memory: Memory) -> (r: Json)
    ensures
        r.deep() == memory_view(memory),
{
    broadcast use deep_parts;

    let mut fields: Vec<(String, Json)> = Vec::new();
    if let Some(rss) = memory.rss_bytes {
        add_field(&mut fields, "rssBytes", Json::Unsigned(rss));
    }
    add_field(&mut fields, "bmpOutBufferedBytes", Json::Unsigned(memory.bmp_out_buffered_bytes));
    add_field(&mut fields, "bmpOutBufferedEntries", Json::Unsigned(memory.bmp_out_buffered_entries));
    add_field(&mut fields, "bmpOutClients", Json::Unsigned(memory.bmp_out_clients));
    assert(deep_fields(fields@) =~= memory_view(memory)->Object_0);
    Json::Object(fields)
}

/// A document in the envelope that answers have.
pub open spec fn answer_view(data: JsonView) -> JsonView {
    JsonView::Object(seq![("data"@, data)])
}

/// Puts a document in the envelope that answers have.
pub fn json_ok(data: Json) -> (r: Json)
    ensures
        r.deep() == answer_view(data.deep()),
{
    broadcast use deep_parts;

    let mut fields: Vec<(String, Json)> = Vec::new();
    add_field(&mut fields, "data", data);
    assert(deep_fields(fields@) =~= answer_view(data.deep())->Object_0);
    Json::Object(fields)
}

impl DaemonInfo {
    /// A daemon that was started at a moment, without a configuration yet.
    pub fn new(started: String, started_at: u64) -> (r: DaemonInfo)
        ensures
            r == (DaemonInfo { started, started_at, config: None }),
    {
        DaemonInfo { started, started_at, config: None }
    }

    /// The version of the daemon.
    pub fn version(&self) -> (r: &'static str)
        ensures
            r@ == VERSION@,
    {
        VERSION
    }

    /// When the daemon was started, as a text.
    pub fn started(&self) -> (r: &str)
        ensures
            r@ == self.started@,
    {
        self.started.as_str()
    }

    /// How many seconds the daemon has run at a moment.
    pub fn uptime_secs(&self, now: u64) -> (r: u64)
        ensures
            r == self.uptime(now),
    {
        if now < self.started_at {
            0
        } else {
            now - self.started_at
        }
    }

    /// How many seconds the daemon has run at a moment.
    pub open spec fn uptime(self, now: u64) -> u64 {
        if now < self.started_at {
            0
        } else {
            (now - self.started_at) as u64
        }
    }

    /// The running configuration, if one was loaded.
    pub fn config(&self) -> (r: Option<&ConfigSnapshot>)
        ensures
            r is Some <==> self.config is Some,
            r is Some ==> self.config == Some(*r->0),
    {
        match &self.config {
            Some(config) => Some(config),
            None => None,
        }
    }

    /// Puts a configuration in place of the one before.
    pub fn set_config(&mut self, snapshot: ConfigSnapshot)
        ensures
            *final(self) == (DaemonInfo { config: Some(snapshot), ..*old(self) }),
    {
        self.config = Some(snapshot);
    }

    /// The units of the running configuration.
    pub open spec fn units(self) -> Seq<ComponentInfo> {
        match self.config {
            Some(config) => config.units@,
            None => seq![],
        }
    }

    /// The targets of the running configuration.
    pub open spec fn targets(self) -> Seq<ComponentInfo> {
        match self.config {
            Some(config) => config.targets@,
            None => seq![],
        }
    }

    /// The script of the running configuration.
    pub open spec fn script(self) -> Option<Seq<char>> {
        match self.config {
            Some(config) => some_text(config.roto_script),
            None => None,
        }
    }

    /// The status of the daemon as a document. The stores are left out where
    /// there is no RIB.
    pub open spec fn status_view(
        self,
        now: u64,
        counts: IngressCounts,
        rib: Option<Seq<StoreInfo>>,
        memory: Memory,
    ) -> JsonView {
        answer_view(
            JsonView::Object(
                seq![
                    ("version"@, JsonView::Text(VERSION@)),
                    ("started"@, JsonView::Text(self.started@)),
                    ("uptimeSeconds"@, JsonView::Unsigned(self.uptime(now))),
                    ("units"@, components_view(self.units())),
                    ("targets"@, components_view(self.targets())),
                    ("ingresses"@, ingresses_view(counts)),
                ] + (match rib {
                    Some(stores) => seq![("rib"@, stores_view(stores))],
                    None => seq![],
                }) + seq![("memory"@, memory_view(memory))],
            ),
        )
    }

    /// The status of the daemon at a moment.
    pub fn status(
        &self,
        now: u64,
        counts: IngressCounts,
        rib: Option<&[StoreInfo]>,
        memory: Memory,
    ) -> (r: Json)
        ensures
            r.deep() == self.status_view(
                now,
                counts,
                match rib {
                    Some(stores) => Some(stores@),
                    None => None,
                },
                memory,
            ),
    {
        broadcast use deep_parts;

        let none: Vec<ComponentInfo> = Vec::new();
        let (units, targets) = match &self.config {
            Some(config) => (&config.units, &config.targets),
            None => (&none, &none),
        };
        assert(none@ =~= seq![]);
        let mut fields: Vec<(String, Json)> = Vec::new();
        add_field(&mut fields, "version", Json::text(self.version()));
        add_field(&mut fields, "started", Json::text(self.started()));
        add_field(&mut fields, "uptimeSeconds", Json::Unsigned(self.uptime_secs(now)));
        add_field(&mut fields, "units", components(units));
        add_field(&mut fields, "targets", components(targets));
        add_field(&mut fields, "ingresses", ingresses(counts));
        if let Some(list) = rib {
            add_field(&mut fields, "rib", stores(list));
        }
        add_field(&mut fields, "memory", memory_document(memory));
        let ghost whole = self.status_view(
            now,
            counts,
            match rib {
                Some(stores) => Some(stores@),
                None => None,
            },
            memory,
        );
        assert(deep_fields(fields@) =~= whole->Object_0[0].1->Object_0);
        json_ok(Json::Object(fields))
    }

    /// The running configuration as a document.
    pub open spec fn config_view(config: ConfigSnapshot) -> JsonView {
        answer_view(
            JsonView::Object(
                with_some_text(
                    with_some_text(seq![], "path"@, some_text(config.path)).push(
                        ("toml"@, JsonView::Text(config.toml@)),
                    ).push(("httpListen"@, texts_view(string_views(config.http_listen@)))),
                    "rotoScript"@,
                    some_text(config.roto_script),
                ),
            ),
        )
    }

    /// The running configuration. One whose secrets could not be taken out is
    /// not shown, and said to be so.
    pub fn config_document(&self) -> (r: Result<Json, ApiError>)
        ensures
            match self.config {
                None => r matches Err(ApiError::ServiceUnavailable(text)) && text@
                    == "config not loaded yet"@,
                Some(config) => if config.toml@.len() == 0 {
                    r matches Err(ApiError::InternalServerError(text)) && text@
                        == "config could not be redacted for display"@
                } else {
                    r matches Ok(document) && document.deep() == DaemonInfo::config_view(config)
                },
            },
    {
        broadcast use deep_parts;

        let config = match &self.config {
            Some(config) => config,
            None => {
                return Err(ApiError::ServiceUnavailable("config not loaded yet".to_owned()));
            },
        };
        if config.toml.as_str().unicode_len() == 0 {
            return Err(
                ApiError::InternalServerError(
                    "config could not be redacted for display".to_owned(),
                ),
            );
        }
        let mut fields: Vec<(String, Json)> = Vec::new();
        assert(deep_fields(fields@) =~= seq![]);
        add_some_text(&mut fields, "path", &config.path);
        add_field(&mut fields, "toml", Json::text(config.toml.as_str()));
        add_field(&mut fields, "httpListen", text_array(&config.http_listen));
        add_some_text(&mut fields, "rotoScript", &config.roto_script);
        Ok(json_ok(Json::Object(fields)))
    }

    /// The filters as a document, with the text of the script.
    pub open spec fn filters_view(self, source: Option<Seq<char>>) -> JsonView {
        answer_view(
            JsonView::Object(
                with_some_text(
                    with_some_text(seq![], "rotoScript"@, self.script()),
                    "source"@,
                    source,
                ).push(
                    (
                        "entrypoints"@,
                        texts_view(
                            seq![
                                "bgp_in"@,
                                "bmp_in"@,
                                "rib_in_pre"@,
                                "rib_in_post"@,
                                "vrp_update"@,
                                "rib_in_rov_status_update"@,
                            ],
                        ),
                    ),
                ),
            ),
        )
    }

    /// The filters: the script of the running configuration, its text if it
    /// could be read, and the functions that are looked up in it.
    pub fn filters(&self, source: &Option<String>) -> (r: Json)
        ensures
            r.deep() == self.filters_view(some_text(*source)),
    {
        broadcast use deep_parts;

        let mut fields: Vec<(String, Json)> = Vec::new();
        assert(deep_fields(fields@) =~= seq![]);
        if let Some(config) = &self.config {
            add_some_text(&mut fields, "rotoScript", &config.roto_script);
        }
        add_some_text(&mut fields, "source", source);
        let mut names: Vec<String> = Vec::new();
        let mut i: usize = 0;
        while i < 6
            invariant
                i <= 6,
                names@.len() == i,
                forall|k: int| 0 <= k < i ==> (#[trigger] names@[k])@ == ROTO_ENTRYPOINTS@[k]@,
            decreases 6 - i,
        {
            names.push(ROTO_ENTRYPOINTS[i].to_owned());
            i += 1;
        }
        assert(string_views(names@) =~= seq![
            "bgp_in"@,
            "bmp_in"@,
            "rib_in_pre"@,
            "rib_in_post"@,
            "vrp_update"@,
            "rib_in_rov_status_update"@,
        ]);
        add_field(&mut fields, "entrypoints", text_array(&names));
        json_ok(Json::Object(fields))
    }
}

/// The status of the daemon tells each thing under its own name; the stores only
/// if there is a RIB.
pub proof fn status_names_its_parts(
    info: DaemonInfo,
    now: u64,
    counts: IngressCounts,
    rib: Option<Seq<StoreInfo>>,
    memory: Memory,
)
    ensures
        ({
            let envelope = info.status_view(now, counts, rib, memory)->Object_0;
            let fields = envelope[0].1->Object_0;
            let n = fields.len() as int;
            &&& envelope.len() == 1 && envelope[0].0 == "data"@
            &&& fields[0] == ("version"@, JsonView::Text(VERSION@))
            &&& fields[1] == ("started"@, JsonView::Text(info.started@))
            &&& fields[2].0 == "uptimeSeconds"@
            &&& info.started_at <= now ==> info.started_at + fields[2].1->Unsigned_0 == now
            &&& info.started_at > now ==> fields[2].1->Unsigned_0 == 0
            &&& fields[3].0 == "units"@
            &&& info.config is Some ==> fields[3].1 == components_view(info.config->0.units@)
            &&& info.config is None ==> fields[3].1->Array_0.len() == 0
            &&& fields[4].0 == "targets"@
            &&& info.config is Some ==> fields[4].1 == components_view(info.config->0.targets@)
            &&& info.config is None ==> fields[4].1->Array_0.len() == 0
            &&& fields[5] == ("ingresses"@, ingresses_view(counts))
            &&& n == 7 || n == 8
            &&& n == 8 <==> rib is Some
            &&& n == 8 ==> fields[6] == ("rib"@, stores_view(rib->0))
            &&& fields[n - 1] == ("memory"@, memory_view(memory))
        }),
{
}

/// Ingresses, memory, components and stores are told number by number, each
/// under its own name.
pub proof fn numbers_have_their_names(
    counts: IngressCounts,
    memory: Memory,
    component: ComponentInfo,
    store: StoreInfo,
)
    ensures
        ingresses_view(counts)->Object_0.contains(("total"@, JsonView::Unsigned(counts.total))),
        ingresses_view(counts)->Object_0.contains(
            ("connected"@, JsonView::Unsigned(counts.connected)),
        ),
        ingresses_view(counts)->Object_0.contains(
            ("disconnected"@, JsonView::Unsigned(counts.disconnected)),
        ),
        memory.rss_bytes is Some ==> memory_view(memory)->Object_0.contains(
            ("rssBytes"@, JsonView::Unsigned(memory.rss_bytes->0)),
        ),
        memory_view(memory)->Object_0.contains(
            ("bmpOutBufferedBytes"@, JsonView::Unsigned(memory.bmp_out_buffered_bytes)),
        ),
        memory_view(memory)->Object_0.contains(
            ("bmpOutBufferedEntries"@, JsonView::Unsigned(memory.bmp_out_buffered_entries)),
        ),
        memory_view(memory)->Object_0.contains(
            ("bmpOutClients"@, JsonView::Unsigned(memory.bmp_out_clients)),
        ),
        component_view(component)->Object_0.contains(("name"@, JsonView::Text(component.name@))),
        component_view(component)->Object_0.contains(("type"@, JsonView::Text(component.kind@))),
        store_view(store)->Object_0.contains(("name"@, JsonView::Text(store.name@))),
        store_view(store)->Object_0.contains(("prefixes"@, JsonView::Unsigned(store.prefixes))),
        store_view(store)->Object_0.contains(
            ("prefixesV4"@, JsonView::Unsigned(store.prefixes_v4)),
        ),
        store_view(store)->Object_0.contains(
            ("prefixesV6"@, JsonView::Unsigned(store.prefixes_v6)),
        ),
        store_view(store)->Object_0.contains(("routes"@, JsonView::Unsigned(store.routes))),
{
    let list = ingresses_view(counts)->Object_0;
    assert(list[0].0 == "total"@ && list[1].0 == "connected"@ && list[2].0 == "disconnected"@);
    let list = memory_view(memory)->Object_0;
    let n = list.len() as int;
    assert(memory.rss_bytes is Some ==> list[0].0 == "rssBytes"@);
    assert(list[n - 3].0 == "bmpOutBufferedBytes"@);
    assert(list[n - 2].0 == "bmpOutBufferedEntries"@);
    assert(list[n - 1].0 == "bmpOutClients"@);
    let list = component_view(component)->Object_0;
    assert(list[0].0 == "name"@ && list[1].0 == "type"@);
    let list = store_view(store)->Object_0;
    assert(list[0].0 == "name"@ && list[1].0 == "prefixes"@ && list[2].0 == "prefixesV4"@);
    assert(list[3].0 == "prefixesV6"@ && list[4].0 == "routes"@);
}

/// One more ingress in a state raises the number of that state by one and of no
/// other.
pub proof fn ingresses_count_by_state(
    states: Seq<Option<IngressState>>,
    more: Option<IngressState>,
    state: IngressState,
)
    ensures
        more == Some(state) ==> in_state(states.push(more), state) == in_state(states, state) + 1,
        more != Some(state) ==> in_state(states.push(more), state) == in_state(states, state),
        in_state(Seq::empty(), state) == 0,
{
    assert(states.push(more).drop_last() =~= states);
}

/// The running configuration is shown with its path and its script where it has
/// them, and with its text and where it listens; the filters with the script and
/// its source where they are known.
pub proof fn configuration_names_its_parts(
    config: ConfigSnapshot,
    info: DaemonInfo,
    source: Option<Seq<char>>,
)
    ensures
        ({
            let fields = (DaemonInfo::config_view(config)->Object_0)[0].1->Object_0;
            &&& config.path is Some ==> fields[0] == ("path"@, JsonView::Text(config.path->0@))
            &&& fields.contains(("toml"@, JsonView::Text(config.toml@)))
            &&& fields.contains(("httpListen"@, texts_view(string_views(config.http_listen@))))
            &&& config.roto_script is Some ==> fields.last() == (
                "rotoScript"@,
                JsonView::Text(config.roto_script->0@),
            )
            &&& fields.len() == 2 + (if config.path is Some {
                1int
            } else {
                0
            }) + (if config.roto_script is Some {
                1int
            } else {
                0
            })
        }),
        ({
            let fields = (info.filters_view(source)->Object_0)[0].1->Object_0;
            &&& info.config is Some && info.config->0.roto_script is Some ==> fields[0] == (
                "rotoScript"@,
                JsonView::Text(info.config->0.roto_script->0@),
            )
            &&& source is Some ==> fields[fields.len() - 2] == (
                "source"@,
                JsonView::Text(source->0),
            )
            &&& fields.last().0 == "entrypoints"@
            &&& fields.last().1->Array_0.len() == 6
        }),
{
    let fields = (DaemonInfo::config_view(config)->Object_0)[0].1->Object_0;
    let at: int = if config.path is Some {
        1
    } else {
        0
    };
    assert(fields[at] == ("toml"@, JsonView::Text(config.toml@)));
    assert(fields[at + 1].0 == "httpListen"@);
}

/// The keys of secrets, and no others, are redacted; their values are replaced
/// and their keys stay.
pub proof fn secrets_are_replaced(fields: Seq<(Seq<char>, TomlView)>, i: int)
    requires
        0 <= i < fields.len(),
    ensures
        redacted(TomlView::Table(fields))->Table_0.len() == fields.len(),
        redacted(TomlView::Table(fields))->Table_0[i].0 == fields[i].0,
        fields[i].0 == "md5_key"@ || fields[i].0 == "password"@ ==> redacted(
            TomlView::Table(fields),
        )->Table_0[i].1 == TomlView::Text(REDACTED@),
        fields[i].0 != "md5_key"@ && fields[i].0 != "password"@ ==> redacted(
            TomlView::Table(fields),
        )->Table_0[i].1 == redacted(fields[i].1),
{
}

} // verus!
