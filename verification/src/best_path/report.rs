//! The answer to a best path query, as a document.

use crate::best_path::decision::{Assumed, DecisionStep, IneligibleReason, Strategy};
use crate::best_path::select::{Excluded, ExcludedView, Ranked, RankedView, RouteStatus};
use crate::ingress::IngressId;
use crate::json::{add_field, deep_fields, deep_items, deep_parts, Json, JsonView};
use vstd::prelude::*;

verus! {

/// The outcome of a best path query.
pub struct BestPathResult {
    /// The prefix that was found.
    pub prefix: Option<String>,
    /// The address that was asked for, if it was not a prefix.
    pub query_addr: Option<String>,
    pub exact_match: bool,
    pub strategy: Strategy,
    pub best: Option<Ranked>,
    pub alternatives: Vec<Ranked>,
    pub excluded: Vec<Excluded>,
    /// The number of records that the prefix has.
    pub total: usize,
}

/// The parts of a row that other documents share: the ingress as the register
/// shows it, the session behind it, and the path attributes.
pub struct RowParts {
    pub ingress: Option<Json>,
    pub source: Json,
    pub attributes: Vec<(String, Json)>,
}

/// What [`RowParts`] hold.
pub ghost struct RowPartsView {
    pub ingress: Option<JsonView>,
    pub source: JsonView,
    pub attributes: Seq<(Seq<char>, JsonView)>,
}

impl View for RowParts {
    type V = RowPartsView;

    open spec fn view(&self) -> RowPartsView {
        RowPartsView {
            ingress: match self.ingress {
                Some(value) => Some(value.deep()),
                None => None,
            },
            source: self.source.deep(),
            attributes: deep_fields(self.attributes@),
        }
    }
}

/// The name of a route status.
pub open spec fn status_name(status: RouteStatus) -> Seq<char> {
    match status {
        RouteStatus::Active => "active"@,
        RouteStatus::InActive => "inactive"@,
        RouteStatus::Withdrawn => "withdrawn"@,
    }
}

/// The name of a route status.
pub fn status_str(status: RouteStatus) -> (r: &'static str)
    ensures
        r@ == status_name(status),
{
    match status {
        RouteStatus::Active => "active",
        RouteStatus::InActive => "inactive",
        RouteStatus::Withdrawn => "withdrawn",
    }
}

/// A field that is there only if it has a value.
pub open spec fn optional_field(key: Seq<char>, value: Option<JsonView>) -> Seq<
    (Seq<char>, JsonView),
> {
    match value {
        Some(value) => seq![(key, value)],
        None => seq![],
    }
}

/// The names of what was assumed.
pub open spec fn assumed_names(assumed: Seq<Assumed>) -> Seq<JsonView> {
    assumed.map_values(|a: Assumed| JsonView::Text(a.name()))
}

/// A row: what places the route, its status, where it came from, and its
/// attributes as further fields of the same object.
pub open spec fn row_fields(
    rank: Option<u64>,
    step_key: Seq<char>,
    step: Option<DecisionStep>,
    reason: Option<IneligibleReason>,
    assumed: Seq<Assumed>,
    status: RouteStatus,
    parts: RowPartsView,
) -> Seq<(Seq<char>, JsonView)> {
    optional_field(
        "rank"@,
        match rank {
            Some(rank) => Some(JsonView::Unsigned(rank)),
            None => None,
        },
    ) + optional_field(
        step_key,
        match step {
            Some(step) => Some(JsonView::Text(step.name())),
            None => None,
        },
    ) + optional_field(
        "reason"@,
        match reason {
            Some(reason) => Some(JsonView::Text(reason.name())),
            None => None,
        },
    ) + optional_field(
        "assumed"@,
        if assumed.len() > 0 {
            Some(JsonView::Array(assumed_names(assumed)))
        } else {
            None
        },
    ) + seq![("status"@, JsonView::Text(status_name(status)))] + optional_field(
        "ingress"@,
        parts.ingress,
    ) + seq![("source"@, parts.source)] + parts.attributes
}

/// A list of what was assumed.
fn assumed_list(assumed: &[Assumed]) -> (r: Json)
    ensures
        r.deep() == JsonView::Array(assumed_names(assumed@)),
{
    broadcast use deep_parts;

    let mut names: Vec<Json> = Vec::new();
    let mut i: usize = 0;
    while i < assumed.len()
        invariant
            i <= assumed.len(),
            names@.len() == i,
            forall|k: int|
                0 <= k < i ==> (#[trigger] names@[k]).deep() == JsonView::Text(assumed@[k].name()),
        decreases assumed.len() - i,
    {
        names.push(Json::text(assumed[i].as_str()));
        i += 1;
    }
    assert(deep_items(names@) =~= assumed_names(assumed@));
    Json::Array(names)
}

/// Builds a row.
#[verifier::rlimit(40)]
fn row(
    rank: Option<u64>,
    step_key: &str,
    step: Option<DecisionStep>,
    reason: Option<IneligibleReason>,
    assumed: &[Assumed],
    status: RouteStatus,
    parts: RowParts,
) -> (r: Json)
    ensures
        r.deep() == JsonView::Object(
            row_fields(rank, step_key@, step, reason, assumed@, status, parts@),
        ),
{
    broadcast use deep_parts;

    let ghost whole = row_fields(rank, step_key@, step, reason, assumed@, status, parts@);
    let mut fields: Vec<(String, Json)> = Vec::new();
    if let Some(rank) = rank {
        add_field(&mut fields, "rank", Json::Unsigned(rank));
    }
    if let Some(step) = step {
        add_field(&mut fields, step_key, Json::text(step.as_str()));
    }
    if let Some(reason) = reason {
        add_field(&mut fields, "reason", Json::text(reason.as_str()));
    }
    if assumed.len() > 0 {
        add_field(&mut fields, "assumed", assumed_list(assumed));
    }
    add_field(&mut fields, "status", Json::text(status_str(status)));
    let RowParts { ingress, source, attributes } = parts;
    if let Some(ingress) = ingress {
        add_field(&mut fields, "ingress", ingress);
    }
    add_field(&mut fields, "source", source);
    let ghost head = fields@;
    let mut attributes = attributes;
    let ghost tail = attributes@;
    fields.append(&mut attributes);
    assert(deep_fields(fields@) =~= deep_fields(head) + deep_fields(tail));
    assert(deep_fields(fields@) =~= whole);
    Json::Object(fields)
}

/// The row of a ranked route.
pub open spec fn ranked_row(ranked: RankedView, step_key: Seq<char>, parts: RowPartsView) -> JsonView {
    JsonView::Object(
        row_fields(
            Some(ranked.rank as u64),
            step_key,
            ranked.step,
            None,
            ranked.candidate.assumed,
            ranked.candidate.status,
            parts,
        ),
    )
}

/// The row of an excluded record.
pub open spec fn excluded_row(excluded: ExcludedView, parts: RowPartsView) -> JsonView {
    JsonView::Object(
        row_fields(
            None,
            "lostAt"@,
            None,
            Some(excluded.reason),
            seq![],
            excluded.status,
            parts,
        ),
    )
}

fn row_of_ranked(ranked: &Ranked, step_key: &str, parts: RowParts) -> (r: Json)
    ensures
        r.deep() == ranked_row(ranked@, step_key@, parts@),
{
    row(
        Some(ranked.rank as u64),
        step_key,
        ranked.step,
        None,
        &ranked.candidate.assumed,
        ranked.candidate.status,
        parts,
    )
}

fn row_of_excluded(excluded: &Excluded, parts: RowParts) -> (r: Json)
    ensures
        r.deep() == excluded_row(excluded@, parts@),
{
    let none: Vec<Assumed> = Vec::new();
    assert(none@ =~= Seq::<Assumed>::empty());
    row(None, "lostAt", None, Some(excluded.reason), &none, excluded.status, parts)
}

/// What the rows of a document are made of, one for each route.
pub struct DocumentParts {
    pub best: Option<RowParts>,
    pub alternatives: Vec<RowParts>,
    pub excluded: Vec<RowParts>,
}

/// A text, or null.
pub open spec fn text_or_null(text: Option<String>) -> JsonView {
    match text {
        Some(text) => JsonView::Text(text@),
        None => JsonView::Null,
    }
}

impl BestPathResult {
    /// Whether there is one set of parts for each route.
    pub open spec fn fits(self, parts: DocumentParts) -> bool {
        &&& self.best is Some <==> parts.best is Some
        &&& self.alternatives@.len() == parts.alternatives@.len()
        &&& self.excluded@.len() == parts.excluded@.len()
    }

    /// The numbers of records: all of them, those that were candidates, those
    /// that were not, and the candidates that the document lists. The last is
    /// lower than the second where the query capped the alternatives.
    pub open spec fn counts(self) -> JsonView {
        let reported = self.alternatives@.len() + (if self.best is Some {
            1int
        } else {
            0
        });
        JsonView::Object(
            seq![
                ("total"@, JsonView::Unsigned(self.total as u64)),
                ("eligible"@, JsonView::Unsigned((self.total - self.excluded@.len()) as u64)),
                ("ineligible"@, JsonView::Unsigned(self.excluded@.len() as u64)),
                ("reported"@, JsonView::Unsigned(reported as u64)),
            ],
        )
    }

    /// The fields that echo an address that was asked for.
    pub open spec fn query_fields(self) -> Seq<(Seq<char>, JsonView)> {
        match self.query_addr {
            Some(addr) => seq![
                ("queryAddress"@, JsonView::Text(addr@)),
                (
                    "matchType"@,
                    JsonView::Text(
                        if self.exact_match {
                            "exactMatch"@
                        } else {
                            "longestMatch"@
                        },
                    ),
                ),
            ],
            None => seq![],
        }
    }

    /// The whole document.
    pub open spec fn document(self, parts: DocumentParts) -> JsonView {
        let best = match self.best {
            Some(best) => ranked_row(best@, "decidedBy"@, parts.best->0@),
            None => JsonView::Null,
        };
        let alternatives = Seq::new(
            self.alternatives@.len(),
            |i: int| ranked_row(self.alternatives@[i]@, "lostAt"@, parts.alternatives@[i]@),
        );
        let excluded = Seq::new(
            self.excluded@.len(),
            |i: int| excluded_row(self.excluded@[i]@, parts.excluded@[i]@),
        );
        JsonView::Object(
            seq![("nlri"@, text_or_null(self.prefix))] + self.query_fields() + seq![
                ("strategy"@, JsonView::Text(self.strategy.name())),
                ("counts"@, self.counts()),
                ("best"@, best),
                ("alternatives"@, JsonView::Array(alternatives)),
                ("ineligible"@, JsonView::Array(excluded)),
            ],
        )
    }

    /// The ingress of the best path.
    pub fn best_mui(&self) -> (r: Option<IngressId>)
        ensures
            r == (match self.best {
                Some(best) => Some(best.candidate.mui),
                None => None,
            }),
    {
        match &self.best {
            Some(best) => Some(best.candidate.mui),
            None => None,
        }
    }

    fn counts_json(&self) -> (r: Json)
        requires
            self.total >= self.excluded@.len(),
            self.alternatives@.len() < usize::MAX,
        ensures
            r.deep() == self.counts(),
    {
        broadcast use deep_parts;

        let mut fields: Vec<(String, Json)> = Vec::new();
        let reported: usize = self.alternatives.len() + if self.best.is_some() {
            1
        } else {
            0
        };
        add_field(&mut fields, "total", Json::Unsigned(self.total as u64));
        add_field(
            &mut fields,
            "eligible",
            Json::Unsigned((self.total - self.excluded.len()) as u64),
        );
        add_field(&mut fields, "ineligible", Json::Unsigned(self.excluded.len() as u64));
        add_field(&mut fields, "reported", Json::Unsigned(reported as u64));
        assert(deep_fields(fields@) =~= self.counts()->Object_0);
        Json::Object(fields)
    }

    /// Builds the document.
    pub fn to_json(&self, parts: DocumentParts) -> (r: Json)
        requires
            self.fits(parts),
            self.total >= self.excluded@.len(),
            self.alternatives@.len() < usize::MAX,
        ensures
            r.deep() == self.document(parts),
    {
        broadcast use deep_parts;

        let ghost whole = self.document(parts);
        let DocumentParts { best, alternatives, excluded } = parts;
        let mut fields: Vec<(String, Json)> = Vec::new();
        let nlri = match &self.prefix {
            Some(prefix) => Json::text(prefix),
            None => Json::Null,
        };
        add_field(&mut fields, "nlri", nlri);
        if let Some(addr) = &self.query_addr {
            add_field(&mut fields, "queryAddress", Json::text(addr));
            let kind = if self.exact_match {
                "exactMatch"
            } else {
                "longestMatch"
            };
            add_field(&mut fields, "matchType", Json::text(kind));
        }
        add_field(&mut fields, "strategy", Json::text(self.strategy.as_str()));
        add_field(&mut fields, "counts", self.counts_json());
        let best_row = match (&self.best, best) {
            (Some(ranked), Some(parts)) => row_of_ranked(ranked, "decidedBy", parts),
            _ => Json::Null,
        };
        add_field(&mut fields, "best", best_row);
        let mut rows: Vec<Json> = Vec::new();
        for parts in iter: alternatives
            invariant
                rows@.len() == iter.index(),
                self.alternatives@.len() == iter.seq().len(),
                forall|i: int|
                    0 <= i < rows@.len() ==> (#[trigger] rows@[i]).deep() == ranked_row(
                        self.alternatives@[i]@,
                        "lostAt"@,
                        iter.seq()[i]@,
                    ),
        {
            let i: usize = rows.len();
            rows.push(row_of_ranked(&self.alternatives[i], "lostAt", parts));
        }
        assert(deep_items(rows@) =~= Seq::new(
            self.alternatives@.len(),
            |i: int| ranked_row(self.alternatives@[i]@, "lostAt"@, alternatives@[i]@),
        ));
        add_field(&mut fields, "alternatives", Json::Array(rows));
        let mut rows: Vec<Json> = Vec::new();
        for parts in iter: excluded
            invariant
                rows@.len() == iter.index(),
                self.excluded@.len() == iter.seq().len(),
                forall|i: int|
                    0 <= i < rows@.len() ==> (#[trigger] rows@[i]).deep() == excluded_row(
                        self.excluded@[i]@,
                        iter.seq()[i]@,
                    ),
        {
            let i: usize = rows.len();
            rows.push(row_of_excluded(&self.excluded[i], parts));
        }
        assert(deep_items(rows@) =~= Seq::new(
            self.excluded@.len(),
            |i: int| excluded_row(self.excluded@[i]@, excluded@[i]@),
        ));
        add_field(&mut fields, "ineligible", Json::Array(rows));
        assert(deep_fields(fields@) =~= whole->Object_0);
        Json::Object(fields)
    }
}

/// The document counts every record once: as a candidate or as excluded. The
/// candidates that it lists are the best path and the alternatives.
pub proof fn counts_add_up(result: BestPathResult)
    requires
        result.excluded@.len() <= result.total,
        result.total <= u64::MAX,
        result.alternatives@.len() < u64::MAX,
    ensures
        ({
            let fields = result.counts()->Object_0;
            &&& fields.len() == 4
            &&& fields[0] == ("total"@, JsonView::Unsigned(result.total as u64))
            &&& fields[1].0 == "eligible"@
            &&& fields[2] == ("ineligible"@, JsonView::Unsigned(result.excluded@.len() as u64))
            &&& fields[3].0 == "reported"@
            &&& fields[1].1->Unsigned_0 + fields[2].1->Unsigned_0 == fields[0].1->Unsigned_0
            &&& result.best is Some ==> fields[3].1->Unsigned_0 == result.alternatives@.len() + 1
            &&& result.best is None ==> fields[3].1->Unsigned_0 == result.alternatives@.len()
        }),
{
}

/// A ranked route is listed with its rank, with the step that decided under the
/// given name, and with what was assumed of it; an excluded one with its reason
/// in place of those.
pub proof fn rows_say_what_became_of_the_route(
    ranked: RankedView,
    excluded: ExcludedView,
    step_key: Seq<char>,
    parts: RowPartsView,
)
    requires
        0 <= ranked.rank <= u64::MAX,
    ensures
        ({
            let fields = ranked_row(ranked, step_key, parts)->Object_0;
            &&& fields.contains(("rank"@, JsonView::Unsigned(ranked.rank as u64)))
            &&& ranked.step is Some ==> fields.contains(
                (step_key, JsonView::Text(ranked.step->0.name())),
            )
            &&& ranked.candidate.assumed.len() > 0 ==> fields.contains(
                ("assumed"@, JsonView::Array(assumed_names(ranked.candidate.assumed))),
            )
            &&& fields.contains(
                ("status"@, JsonView::Text(status_name(ranked.candidate.status))),
            )
            &&& fields.contains(("source"@, parts.source))
            &&& parts.ingress is Some ==> fields.contains(("ingress"@, parts.ingress->0))
            &&& fields.len() >= parts.attributes.len() && fields.skip(
                fields.len() - parts.attributes.len(),
            ) == parts.attributes
        }),
        ({
            let fields = excluded_row(excluded, parts)->Object_0;
            &&& fields.contains(("reason"@, JsonView::Text(excluded.reason.name())))
            &&& fields[0].0 == "reason"@
            &&& fields.contains(("status"@, JsonView::Text(status_name(excluded.status))))
            &&& fields.contains(("source"@, parts.source))
            &&& parts.ingress is Some ==> fields.contains(("ingress"@, parts.ingress->0))
            &&& fields.len() >= parts.attributes.len() && fields.skip(
                fields.len() - parts.attributes.len(),
            ) == parts.attributes
        }),
{
    fields_are_in_the_row(
        Some(ranked.rank as u64),
        step_key,
        ranked.step,
        None,
        ranked.candidate.assumed,
        ranked.candidate.status,
        parts,
    );
    fields_are_in_the_row(
        None,
        "lostAt"@,
        None,
        Some(excluded.reason),
        seq![],
        excluded.status,
        parts,
    );
}

proof fn fields_are_in_the_row(
    rank: Option<u64>,
    step_key: Seq<char>,
    step: Option<DecisionStep>,
    reason: Option<IneligibleReason>,
    assumed: Seq<Assumed>,
    status: RouteStatus,
    parts: RowPartsView,
)
    ensures
        ({
            let fields = row_fields(rank, step_key, step, reason, assumed, status, parts);
            &&& rank is Some ==> fields.contains(("rank"@, JsonView::Unsigned(rank->0)))
            &&& step is Some ==> fields.contains((step_key, JsonView::Text(step->0.name())))
            &&& reason is Some ==> fields.contains(("reason"@, JsonView::Text(reason->0.name())))
            &&& rank is None && step is None && reason is Some ==> fields[0].0 == "reason"@
            &&& assumed.len() > 0 ==> fields.contains(
                ("assumed"@, JsonView::Array(assumed_names(assumed))),
            )
            &&& fields.contains(("status"@, JsonView::Text(status_name(status))))
            &&& fields.contains(("source"@, parts.source))
            &&& parts.ingress is Some ==> fields.contains(("ingress"@, parts.ingress->0))
            &&& fields.len() >= parts.attributes.len()
            &&& fields.skip(fields.len() - parts.attributes.len()) == parts.attributes
        }),
{
    let fields = row_fields(rank, step_key, step, reason, assumed, status, parts);
    let a: int = if rank is Some {
        1
    } else {
        0
    };
    let b: int = if step is Some {
        a + 1
    } else {
        a
    };
    let c: int = if reason is Some {
        b + 1
    } else {
        b
    };
    let d: int = if assumed.len() > 0 {
        c + 1
    } else {
        c
    };
    if rank is Some {
        assert(fields[0] == ("rank"@, JsonView::Unsigned(rank->0)));
    }
    if step is Some {
        assert(fields[a] == (step_key, JsonView::Text(step->0.name())));
    }
    if reason is Some {
        assert(fields[b] == ("reason"@, JsonView::Text(reason->0.name())));
    }
    if assumed.len() > 0 {
        assert(fields[c] == ("assumed"@, JsonView::Array(assumed_names(assumed))));
    }
    assert(fields[d] == ("status"@, JsonView::Text(status_name(status))));
    if parts.ingress is Some {
        assert(fields[d + 1] == ("ingress"@, parts.ingress->0));
        assert(fields[d + 2] == ("source"@, parts.source));
    } else {
        assert(fields[d + 1] == ("source"@, parts.source));
    }
    assert(fields.skip(fields.len() - parts.attributes.len()) =~= parts.attributes);
}

/// The document lists the best path under the step that decided, each
/// alternative under the step at which it lost, and the excluded records, each
/// with its own parts.
pub proof fn documents_list_every_route(result: BestPathResult, parts: DocumentParts)
    requires
        result.fits(parts),
    ensures
        ({
            let fields = result.document(parts)->Object_0;
            let n = fields.len() as int;
            &&& n == 6 || n == 8
            &&& n == 8 <==> result.query_addr is Some
            &&& fields[0].0 == "nlri"@
            &&& result.prefix is Some ==> fields[0].1 == JsonView::Text(result.prefix->0@)
            &&& result.prefix is None ==> fields[0].1 == JsonView::Null
            &&& n == 8 ==> fields[1] == ("queryAddress"@, JsonView::Text(result.query_addr->0@))
            &&& n == 8 && result.exact_match ==> fields[2] == (
                "matchType"@,
                JsonView::Text("exactMatch"@),
            )
            &&& n == 8 && !result.exact_match ==> fields[2] == (
                "matchType"@,
                JsonView::Text("longestMatch"@),
            )
            &&& fields[n - 5] == ("strategy"@, JsonView::Text(result.strategy.name()))
            &&& fields[n - 4] == ("counts"@, result.counts())
            &&& fields[n - 3].0 == "best"@
            &&& result.best is None ==> fields[n - 3].1 == JsonView::Null
            &&& result.best is Some ==> fields[n - 3].1 == ranked_row(
                result.best->0@,
                "decidedBy"@,
                parts.best->0@,
            )
            &&& fields[n - 2].0 == "alternatives"@
            &&& fields[n - 2].1->Array_0.len() == result.alternatives@.len()
            &&& forall|i: int|
                0 <= i < result.alternatives@.len() ==> fields[n - 2].1->Array_0[i] == ranked_row(
                    (#[trigger] result.alternatives@[i])@,
                    "lostAt"@,
                    parts.alternatives@[i]@,
                )
            &&& fields[n - 1].0 == "ineligible"@
            &&& fields[n - 1].1->Array_0.len() == result.excluded@.len()
            &&& forall|i: int|
                0 <= i < result.excluded@.len() ==> fields[n - 1].1->Array_0[i] == excluded_row(
                    (#[trigger] result.excluded@[i])@,
                    parts.excluded@[i]@,
                )
        }),
{
}

/// Each status has its own name.
pub proof fn statuses_have_their_names(status: RouteStatus)
    ensures
        status is Active ==> status_name(status) == "active"@,
        status is InActive ==> status_name(status) == "inactive"@,
        status is Withdrawn ==> status_name(status) == "withdrawn"@,
{
}

} // verus!
