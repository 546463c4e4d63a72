//! What is asked of ClickHouse and what is made of its answers.

use crate::clickhouse::config::Config;
use crate::clickhouse::event::COLUMN_NAMES;
use crate::json::{deep_items, json_in, parse, Json, JsonView};
use crate::metrics::{label, label_views};
use crate::text::{
    chars_of, contains, from_utf8_lossy, join, lossy_text, number_in, occurs_in, pieces, same,
    split_on, string_between,
    string_views, trim, trimmed,
};
use vstd::prelude::*;
use vstd::string::StringExecFns;

verus! {

/// The most that is read of an answer.
pub const MAX_RESPONSE: usize = 65_536;

/// A text without the line ends behind it.
pub open spec fn without_line_ends(s: Seq<char>) -> Seq<char>
    decreases s.len(),
{
    if s.len() > 0 && (s.last() == '\r' || s.last() == '\n') {
        without_line_ends(s.drop_last())
    } else {
        s
    }
}

/// The password in a file: its text without the line ends behind it.
pub fn password_in(text: &str) -> (r: String)
    ensures
        r@ == without_line_ends(text@),
{
    let chars = chars_of(text);
    let mut end: usize = chars.len();
    assert(chars@.take(end as int) =~= chars@);
    while end > 0 && (chars[end - 1] == '\r' || chars[end - 1] == '\n')
        invariant
            end <= chars@.len(),
            without_line_ends(chars@) == without_line_ends(chars@.take(end as int)),
        decreases end,
    {
        assert(chars@.take(end as int).drop_last() =~= chars@.take(end - 1));
        end -= 1;
    }
    assert(chars@.subrange(0, end as int) =~= chars@.take(end as int));
    string_between(&chars, 0, end)
}

/// Takes in a part of an answer. Says whether the answer is still small enough
/// to be read.
pub fn add_chunk(body: &mut Vec<u8>, chunk: &[u8]) -> (r: bool)
    ensures
        r == (old(body)@.len() + chunk@.len() <= MAX_RESPONSE),
        final(body)@ == (if r {
            old(body)@ + chunk@
        } else {
            old(body)@
        }),
{
    if body.len() > MAX_RESPONSE || chunk.len() > MAX_RESPONSE - body.len() {
        return false;
    }
    crate::wire::put(body, chunk);
    true
}

/// An answer is its text if the status says so; else it is an error. What is
/// no text in it is replaced.
pub fn answer(success: bool, status: &str, body: &[u8]) -> (r: Result<String, String>)
    ensures
        success ==> r is Ok && r->Ok_0@ == lossy_text(body@),
        !success ==> r is Err && r->Err_0@ == "ClickHouse HTTP "@ + status@ + ": "@ + lossy_text(
            body@,
        ),
{
    let text = from_utf8_lossy(body);
    if success {
        Ok(text)
    } else {
        let mut error = "ClickHouse HTTP ".to_owned();
        error.append(status);
        error.append(": ");
        error.append(text.as_str());
        Err(error)
    }
}

/// What `str::parse::<u32>` says of a text that is no number.
pub uninterp spec fn number_error(text: Seq<char>) -> Seq<char>;

/// `str::parse::<u32>` reads decimal digits, possibly behind a plus sign, or
/// says why the text is no number.
#[verifier::external_body]
fn parse_u32(text: &str) -> (r: Result<u32, String>)
    ensures
        r is Ok <==> number_in(text@, u32::MAX as nat) is Some,
        r is Ok ==> number_in(text@, u32::MAX as nat) == Some(r->Ok_0 as nat),
        r is Err ==> r->Err_0@ == number_error(text@),
{
    text.parse::<u32>().map_err(|e| e.to_string())
}

/// The parts of a version.
pub open spec fn version_parts(version: Seq<char>) -> Seq<Seq<char>> {
    pieces(trimmed(version), '.')
}

/// The first number of a version, if it is one.
pub open spec fn major_in(version: Seq<char>) -> Option<nat> {
    number_in(version_parts(version)[0], u32::MAX as nat)
}

/// The second number of a version, if it is one; zero if there is none.
pub open spec fn minor_in(version: Seq<char>) -> Option<nat> {
    if version_parts(version).len() > 1 {
        number_in(version_parts(version)[1], u32::MAX as nat)
    } else {
        Some(0)
    }
}

/// Whether a version is recent enough.
pub open spec fn version_fits(version: Seq<char>) -> bool {
    match (major_in(version), minor_in(version)) {
        (Some(major), Some(minor)) => major > 25 || (major == 25 && minor >= 8),
        _ => false,
    }
}

/// What is wrong with a version that is not recent enough.
pub open spec fn version_problem(version: Seq<char>) -> Seq<char> {
    if major_in(version) is None {
        number_error(version_parts(version)[0])
    } else if minor_in(version) is None {
        number_error(version_parts(version)[1])
    } else {
        "ClickHouse >=25.8 required; found "@ + version
    }
}

/// Checks the version of the server.
pub fn check_version(version: &str) -> (r: Result<(), String>)
    ensures
        r is Ok <==> version_fits(version@),
        r is Err ==> r->Err_0@ == version_problem(version@),
{
    let text = trim(version);
    let chars = chars_of(text.as_str());
    let parts = split_on(&chars, '.');
    assert(string_views(parts@) == version_parts(version@));
    assert(string_views(parts@)[0] == parts@[0]@);
    let major: u32 = match parse_u32(parts[0].as_str()) {
        Ok(n) => n,
        Err(error) => {
            return Err(error);
        },
    };
    let minor: u32 = if parts.len() > 1 {
        assert(string_views(parts@)[1] == parts@[1]@);
        match parse_u32(parts[1].as_str()) {
            Ok(n) => n,
            Err(error) => {
                return Err(error);
            },
        }
    } else {
        0
    };
    if major > 25 || (major == 25 && minor >= 8) {
        Ok(())
    } else {
        Err(join("ClickHouse >=25.8 required; found ", version))
    }
}

/// The types of the columns, in their order.
pub open spec fn column_types() -> Seq<Seq<char>> {
    seq![
        "UInt16"@,
        "FixedString(16)"@,
        "FixedString(16)"@,
        "UInt64"@,
        "DateTime64(3, 'UTC')"@,
        "DateTime"@,
        "UInt8"@,
        "UInt8"@,
        "FixedString(16)"@,
        "UInt32"@,
        "Nullable(UInt32)"@,
        "UInt16"@,
        "UInt8"@,
        "IPv6"@,
        "UInt8"@,
        "UInt8"@,
        "UInt8"@,
        "String"@,
        "Array(UInt32)"@,
        "Array(UInt32)"@,
        "Array(UInt32)"@,
        "Array(FixedString(12))"@,
        "Array(FixedString(8))"@,
        "Nullable(IPv6)"@,
        "Nullable(UInt32)"@,
        "Nullable(UInt32)"@,
        "UInt8"@,
        "String"@,
    ]
}

/// What some string slices hold.
pub open spec fn str_views(list: Seq<&'static str>) -> Seq<Seq<char>> {
    list.map_values(|s: &'static str| s@)
}

/// The types of the columns, in their order.
fn column_type_list() -> (r: Vec<&'static str>)
    ensures
        str_views(r@) == column_types(),
{
    let r: Vec<&'static str> = vec![
        "UInt16",
        "FixedString(16)",
        "FixedString(16)",
        "UInt64",
        "DateTime64(3, 'UTC')",
        "DateTime",
        "UInt8",
        "UInt8",
        "FixedString(16)",
        "UInt32",
        "Nullable(UInt32)",
        "UInt16",
        "UInt8",
        "IPv6",
        "UInt8",
        "UInt8",
        "UInt8",
        "String",
        "Array(UInt32)",
        "Array(UInt32)",
        "Array(UInt32)",
        "Array(FixedString(12))",
        "Array(FixedString(8))",
        "Nullable(IPv6)",
        "Nullable(UInt32)",
        "Nullable(UInt32)",
        "UInt8",
        "String",
    ];
    assert(str_views(r@) =~= column_types());
    r
}

/// Whether a column of some name and type is among the columns of a table.
pub open spec fn has_column(columns: Seq<JsonView>, name: Seq<char>, typ: Seq<char>) -> bool {
    exists|i: int|
        0 <= i < columns.len() && (#[trigger] columns[i]).text_at("name"@) == Some(name)
            && columns[i].text_at("type"@) == Some(typ)
}

/// Whether a column of some name and type is among the columns of a table.
fn find_column(columns: &[Json], name: &str, typ: &str) -> (r: bool)
    ensures
        r == has_column(deep_items(columns@), name@, typ@),
{
    let ghost all = deep_items(columns@);
    let mut i: usize = 0;
    while i < columns.len()
        invariant
            i <= columns@.len(),
            all == deep_items(columns@),
            forall|k: int|
                0 <= k < i ==> !((#[trigger] all[k]).text_at("name"@) == Some(name@)
                    && all[k].text_at("type"@) == Some(typ@)),
        decreases columns.len() - i,
    {
        assert(all[i as int] == columns@[i as int].deep());
        let named = match columns[i].text_at("name") {
            Some(text) => same(text, name),
            None => false,
        };
        let typed = match columns[i].text_at("type") {
            Some(text) => same(text, typ),
            None => false,
        };
        if named && typed {
            return true;
        }
        i += 1;
    }
    false
}

/// The first of the columns, from the `i`th on, that a table does not have as
/// it should.
pub open spec fn first_missing(
    columns: Seq<JsonView>,
    names: Seq<Seq<char>>,
    types: Seq<Seq<char>>,
    i: int,
) -> Option<int>
    decreases types.len() - i,
{
    if i < 0 || i >= types.len() || i >= names.len() {
        None
    } else if has_column(columns, names[i], types[i]) {
        first_missing(columns, names, types, i + 1)
    } else {
        Some(i)
    }
}

/// What is wrong with the columns of a table, described as JSON.
pub open spec fn schema_problem(description: Result<JsonView, Seq<char>>) -> Option<Seq<char>> {
    match description {
        Err(error) => Some(error),
        Ok(value) => match value.items_at("data"@) {
            None => Some("invalid schema response"@),
            Some(columns) => match first_missing(
                columns,
                pieces(COLUMN_NAMES@, ','),
                column_types(),
                0,
            ) {
                None => None,
                Some(i) => Some(
                    "schema mismatch: "@ + pieces(COLUMN_NAMES@, ',')[i] + " must have type "@
                        + column_types()[i],
                ),
            },
        },
    }
}

/// Checks the columns of a table.
pub fn check_columns(columns: &[Json]) -> (r: Result<(), String>)
    ensures
        match first_missing(
            deep_items(columns@),
            pieces(COLUMN_NAMES@, ','),
            column_types(),
            0,
        ) {
            None => r is Ok,
            Some(i) => r is Err && r->Err_0@ == "schema mismatch: "@ + pieces(
                COLUMN_NAMES@,
                ',',
            )[i] + " must have type "@ + column_types()[i],
        },
{
    let all = chars_of(COLUMN_NAMES);
    let names = split_on(&all, ',');
    let types = column_type_list();
    let ghost name_views = pieces(COLUMN_NAMES@, ',');
    let mut i: usize = 0;
    while i < types.len() && i < names.len()
        invariant
            i <= types@.len(),
            i <= names@.len(),
            string_views(names@) == name_views,
            str_views(types@) == column_types(),
            first_missing(deep_items(columns@), name_views, column_types(), 0) == first_missing(
                deep_items(columns@),
                name_views,
                column_types(),
                i as int,
            ),
            name_views == pieces(COLUMN_NAMES@, ','),
        decreases types.len() - i,
    {
        assert(string_views(names@)[i as int] == names@[i as int]@);
        assert(str_views(types@)[i as int] == types@[i as int]@);
        if !find_column(columns, names[i].as_str(), types[i]) {
            let mut error = "schema mismatch: ".to_owned();
            error.append(names[i].as_str());
            error.append(" must have type ");
            error.append(types[i]);
            return Err(error);
        }
        i += 1;
    }
    Ok(())
}

/// Checks the description of a table.
pub fn check_schema(body: &str) -> (r: Result<(), String>)
    ensures
        match schema_problem(json_in(body@)) {
            Some(text) => r is Err && r->Err_0@ == text,
            None => r is Ok,
        },
{
    match parse(body) {
        Err(error) => Err(error),
        Ok(value) => match value.items_at("data") {
            None => Err("invalid schema response".to_owned()),
            Some(columns) => check_columns(columns),
        },
    }
}

/// Whether a table drops rows that are inserted a second time, which is what
/// makes it safe to insert a segment again.
pub open spec fn table_fits(ddl: Seq<char>) -> bool {
    occurs_in(ddl, "ENGINE = MergeTree"@) && occurs_in(
        ddl,
        "non_replicated_deduplication_window = "@,
    ) && !occurs_in(ddl, "non_replicated_deduplication_window = 0"@)
}

/// Checks how a table was created.
pub fn check_table(ddl: &str) -> (r: Result<(), String>)
    ensures
        table_fits(ddl@) ==> r is Ok,
        !table_fits(ddl@) ==> r is Err && r->Err_0@
            == "v1 requires local MergeTree with non_replicated_deduplication_window > 0"@,
{
    if contains(ddl, "ENGINE = MergeTree") && contains(
        ddl,
        "non_replicated_deduplication_window = ",
    ) && !contains(ddl, "non_replicated_deduplication_window = 0") {
        Ok(())
    } else {
        Err("v1 requires local MergeTree with non_replicated_deduplication_window > 0".to_owned())
    }
}

/// What is found out of the server before anything is inserted, in order.
#[derive(Clone, Copy, Debug, PartialEq, Eq, Structural)]
pub enum Check {
    Version,
    Columns,
    Schema,
    Table,
    Done,
}

/// What an answer that should be empty is an error for.
pub open spec fn nonblank(prefix: Seq<char>, text: Seq<char>) -> Option<Seq<char>> {
    if trimmed(text).len() == 0 {
        None
    } else {
        Some(prefix + text)
    }
}

/// Checks an answer that should be empty.
fn check_blank(prefix: &str, text: &str) -> (r: Result<(), String>)
    ensures
        match nonblank(prefix@, text@) {
            Some(error) => r is Err && r->Err_0@ == error,
            None => r is Ok,
        },
{
    let rest = trim(text);
    if rest.as_str().is_empty() {
        Ok(())
    } else {
        Err(join(prefix, text))
    }
}

impl Check {
    /// The query for a check.
    pub open spec fn query_text(self, database: Seq<char>, table: Seq<char>) -> Seq<char> {
        match self {
            Check::Version => "SELECT version()"@,
            Check::Columns => "SELECT "@ + COLUMN_NAMES@ + " FROM "@ + database + "."@ + table
                + " LIMIT 0"@,
            Check::Schema => "SELECT name, type FROM system.columns WHERE database = '"@ + database
                + "' AND table = '"@ + table + "' FORMAT JSON"@,
            Check::Table => "SHOW CREATE TABLE "@ + database + "."@ + table,
            Check::Done => ""@,
        }
    }

    /// The query for a check.
    pub fn query(self, config: &Config) -> (r: String)
        ensures
            r@ == self.query_text(config.database@, config.table@),
    {
        match self {
            Check::Version => "SELECT version()".to_owned(),
            Check::Columns => {
                let mut sql = "SELECT ".to_owned();
                sql.append(COLUMN_NAMES);
                sql.append(" FROM ");
                sql.append(config.database.as_str());
                sql.append(".");
                sql.append(config.table.as_str());
                sql.append(" LIMIT 0");
                sql
            },
            Check::Schema => {
                let mut sql =
                    "SELECT name, type FROM system.columns WHERE database = '".to_owned();
                sql.append(config.database.as_str());
                sql.append("' AND table = '");
                sql.append(config.table.as_str());
                sql.append("' FORMAT JSON");
                sql
            },
            Check::Table => {
                let mut sql = "SHOW CREATE TABLE ".to_owned();
                sql.append(config.database.as_str());
                sql.append(".");
                sql.append(config.table.as_str());
                sql
            },
            Check::Done => "".to_owned(),
        }
    }

    /// Whether an answer is as it should be.
    pub open spec fn passes(self, text: Seq<char>) -> bool {
        match self {
            Check::Version => version_fits(text),
            Check::Columns => trimmed(text).len() == 0,
            Check::Schema => schema_problem(json_in(text)) is None,
            Check::Table => table_fits(text),
            Check::Done => true,
        }
    }

    /// The check that comes behind a check.
    pub open spec fn following(self) -> Check {
        match self {
            Check::Version => Check::Columns,
            Check::Columns => Check::Schema,
            Check::Schema => Check::Table,
            Check::Table => Check::Done,
            Check::Done => Check::Done,
        }
    }

    /// Takes in the answer to the query: the check that comes next, or what is
    /// wrong.
    pub fn judge(self, text: &str) -> (r: Result<Check, String>)
        ensures
            r is Ok <==> self.passes(text@),
            r is Ok ==> r->Ok_0 == self.following(),
            self == Check::Version && r is Err ==> r->Err_0@ == version_problem(text@),
            self == Check::Columns && r is Err ==> r->Err_0@
                == "unexpected schema-check response: "@ + text@,
            self == Check::Schema && r is Err ==> Some(r->Err_0@) == schema_problem(json_in(text@)),
            self == Check::Table && r is Err ==> r->Err_0@
                == "v1 requires local MergeTree with non_replicated_deduplication_window > 0"@,
    {
        let (outcome, following) = match self {
            Check::Version => (check_version(text), Check::Columns),
            Check::Columns => (
                check_blank("unexpected schema-check response: ", text),
                Check::Schema,
            ),
            Check::Schema => (check_schema(text), Check::Table),
            Check::Table => (check_table(text), Check::Done),
            Check::Done => (Ok(()), Check::Done),
        };
        match outcome {
            Ok(()) => Ok(following),
            Err(error) => Err(error),
        }
    }
}

/// The statement that inserts rows.
pub open spec fn insert_statement(database: Seq<char>, table: Seq<char>) -> Seq<char> {
    "INSERT INTO "@ + database + "."@ + table + " ("@ + COLUMN_NAMES@ + ") FORMAT RowBinary"@
}

/// The parameters of an insert: the statement, the token by which a second
/// insert of the same segment is told, and settings that make one segment one
/// block.
pub open spec fn insert_settings(database: Seq<char>, table: Seq<char>, token: Seq<char>) -> Seq<
    (Seq<char>, Seq<char>),
> {
    seq![
        ("query"@, insert_statement(database, table)),
        ("insert_deduplication_token"@, token),
        ("insert_deduplicate"@, "1"@),
        ("async_insert"@, "0"@),
        ("wait_end_of_query"@, "1"@),
        ("input_format_parallel_parsing"@, "0"@),
        ("max_insert_threads"@, "1"@),
        ("max_insert_block_size"@, "2000000"@),
        ("min_insert_block_size_rows"@, "2000000"@),
        ("min_insert_block_size_bytes"@, "1073741824"@),
    ]
}

/// The parameters of an insert.
pub fn insert_parameters(config: &Config, token: &str) -> (r: Vec<(String, String)>)
    ensures
        label_views(r@) == insert_settings(config.database@, config.table@, token@),
{
    let mut sql = "INSERT INTO ".to_owned();
    sql.append(config.database.as_str());
    sql.append(".");
    sql.append(config.table.as_str());
    sql.append(" (");
    sql.append(COLUMN_NAMES);
    sql.append(") FORMAT RowBinary");
    let none: Vec<(String, String)> = Vec::new();
    assert(label_views(none@) =~= seq![]);
    let list = label(none, "query", sql.as_str());
    let list = label(list, "insert_deduplication_token", token);
    let list = label(list, "insert_deduplicate", "1");
    let list = label(list, "async_insert", "0");
    let list = label(list, "wait_end_of_query", "1");
    let list = label(list, "input_format_parallel_parsing", "0");
    let list = label(list, "max_insert_threads", "1");
    let list = label(list, "max_insert_block_size", "2000000");
    let list = label(list, "min_insert_block_size_rows", "2000000");
    let list = label(list, "min_insert_block_size_bytes", "1073741824");
    assert(label_views(list@) =~= insert_settings(config.database@, config.table@, token@));
    list
}

/// An insert succeeded if the answer is empty: an error can come with a status
/// that says otherwise.
pub fn insert_outcome(rows: u32, answer: &str) -> (r: Result<u32, String>)
    ensures
        match nonblank("ClickHouse insert error: "@, answer@) {
            Some(error) => r is Err && r->Err_0@ == error,
            None => r == Ok::<u32, String>(rows),
        },
{
    match check_blank("ClickHouse insert error: ", answer) {
        Ok(()) => Ok(rows),
        Err(error) => Err(error),
    }
}

/// A password is its file but for the line ends behind it: none is left, and
/// nothing else is taken.
pub proof fn passwords_lose_line_ends_alone(s: Seq<char>) -> (n: int)
    ensures
        0 <= n <= s.len(),
        without_line_ends(s) == s.take(n),
        n > 0 ==> s[n - 1] != '\n' && s[n - 1] != '\r',
        forall|i: int| n <= i < s.len() ==> #[trigger] s[i] == '\n' || s[i] == '\r',
    decreases s.len(),
{
    if s.len() > 0 && (s.last() == '\r' || s.last() == '\n') {
        let fore = s.drop_last();
        let n = passwords_lose_line_ends_alone(fore);
        assert(fore.take(n) =~= s.take(n));
        assert forall|i: int| n <= i < s.len() implies #[trigger] s[i] == '\n' || s[i] == '\r' by {
            if i < fore.len() {
                assert(fore[i] == s[i]);
            }
        }
        n
    } else {
        assert(s.take(s.len() as int) =~= s);
        s.len() as int
    }
}

/// A version is recent enough from 25.8 on: any with a higher first number is,
/// and with the same first number any from the eighth on. One without a second
/// number counts as its first.
pub proof fn versions_count_from_25_8(version: Seq<char>)
    ensures
        major_in(version) is Some && minor_in(version) is Some ==> (version_fits(version)
            <==> major_in(version)->0 * 0x1_0000_0000 + minor_in(version)->0 >= 25 * 0x1_0000_0000
            + 8),
        major_in(version) is None || minor_in(version) is None ==> !version_fits(version),
        version_parts(version).len() == 1 ==> minor_in(version) == Some(0nat),
{
}

/// Later versions of the server are accepted too.
pub proof fn later_versions_fit(earlier: Seq<char>, later: Seq<char>)
    requires
        version_fits(earlier),
        major_in(later) is Some,
        minor_in(later) is Some,
        major_in(later)->0 > major_in(earlier)->0 || (major_in(later)->0 == major_in(earlier)->0
            && minor_in(later)->0 >= minor_in(earlier)->0),
    ensures
        version_fits(later),
{
}

/// A table whose columns are in order has every column with its type.
pub proof fn no_column_is_missing(
    columns: Seq<JsonView>,
    names: Seq<Seq<char>>,
    types: Seq<Seq<char>>,
    from: int,
    i: int,
)
    requires
        0 <= from <= i,
        i < names.len(),
        i < types.len(),
        first_missing(columns, names, types, from) is None || i < first_missing(
            columns,
            names,
            types,
            from,
        )->0,
    ensures
        exists|k: int|
            0 <= k < columns.len() && (#[trigger] columns[k]).text_at("name"@) == Some(names[i])
                && columns[k].text_at("type"@) == Some(types[i]),
    decreases types.len() - from,
{
    if has_column(columns, names[from], types[from]) {
        if from < i {
            no_column_is_missing(columns, names, types, from + 1, i);
        }
    }
}

/// The first column that is told as missing is.
pub proof fn told_column_is_missing(
    columns: Seq<JsonView>,
    names: Seq<Seq<char>>,
    types: Seq<Seq<char>>,
    from: int,
)
    requires
        0 <= from,
        first_missing(columns, names, types, from) is Some,
    ensures
        ({
            let i = first_missing(columns, names, types, from)->0;
            from <= i < names.len() && i < types.len() && forall|k: int|
                0 <= k < columns.len() && (#[trigger] columns[k]).text_at("name"@) == Some(names[i])
                    ==> columns[k].text_at("type"@) != Some(types[i])
        }),
    decreases types.len() - from,
{
    if has_column(columns, names[from], types[from]) {
        told_column_is_missing(columns, names, types, from + 1);
    }
}

/// The checks go from the version over the columns and the schema to the table,
/// and then are done.
pub proof fn checks_come_in_order()
    ensures
        Check::Version.following() == Check::Columns,
        Check::Version.following().following() == Check::Schema,
        Check::Version.following().following().following() == Check::Table,
        Check::Version.following().following().following().following() == Check::Done,
        Check::Done.following() == Check::Done,
{
}

/// Queries and inserts name the table behind its database. An insert goes by
/// the token of its segment, is told from an earlier one with it, is one block,
/// and is answered once it is done.
pub proof fn inserts_go_by_their_token(database: Seq<char>, table: Seq<char>, token: Seq<char>)
    ensures
        insert_settings(database, table, token).contains(("insert_deduplication_token"@, token)),
        insert_settings(database, table, token).contains(("insert_deduplicate"@, "1"@)),
        insert_settings(database, table, token).contains(("async_insert"@, "0"@)),
        insert_settings(database, table, token).contains(("wait_end_of_query"@, "1"@)),
        insert_settings(database, table, token).contains(("input_format_parallel_parsing"@, "0"@)),
        insert_settings(database, table, token).contains(("max_insert_threads"@, "1"@)),
        insert_settings(database, table, token).contains(("max_insert_block_size"@, "2000000"@)),
        insert_settings(database, table, token).contains(
            ("min_insert_block_size_rows"@, "2000000"@),
        ),
        insert_settings(database, table, token).contains(
            ("min_insert_block_size_bytes"@, "1073741824"@),
        ),
        insert_settings(database, table, token).contains(
            (
                "query"@,
                "INSERT INTO "@ + database + "."@ + table + " ("@ + COLUMN_NAMES@
                    + ") FORMAT RowBinary"@,
            ),
        ),
        Check::Table.query_text(database, table) == "SHOW CREATE TABLE "@ + database + "."@ + table,
        Check::Columns.query_text(database, table) == "SELECT "@ + COLUMN_NAMES@ + " FROM "@
            + database + "."@ + table + " LIMIT 0"@,
        Check::Schema.query_text(database, table)
            == "SELECT name, type FROM system.columns WHERE database = '"@ + database
            + "' AND table = '"@ + table + "' FORMAT JSON"@,
{
    let list = insert_settings(database, table, token);
    assert(list[0].0 == "query"@);
    assert(list[1] == ("insert_deduplication_token"@, token));
    assert(list[2] == ("insert_deduplicate"@, "1"@));
    assert(list[3] == ("async_insert"@, "0"@));
    assert(list[4] == ("wait_end_of_query"@, "1"@));
    assert(list[5] == ("input_format_parallel_parsing"@, "0"@));
    assert(list[6] == ("max_insert_threads"@, "1"@));
    assert(list[7] == ("max_insert_block_size"@, "2000000"@));
    assert(list[8] == ("min_insert_block_size_rows"@, "2000000"@));
    assert(list[9] == ("min_insert_block_size_bytes"@, "1073741824"@));
}

/// An answer that should be empty is an error exactly if anything but white
/// space is in it, and is then told in full.
pub proof fn only_blank_answers_pass(prefix: Seq<char>, text: Seq<char>)
    ensures
        nonblank(prefix, text) is None <==> trimmed(text).len() == 0,
        nonblank(prefix, text) is Some ==> nonblank(prefix, text)->0 == prefix + text,
{
}

/// A table passes only if it is a plain MergeTree that tells repeated inserts.
pub proof fn tables_tell_repeated_inserts(ddl: Seq<char>)
    ensures
        table_fits(ddl) ==> occurs_in(ddl, "ENGINE = MergeTree"@),
        table_fits(ddl) ==> occurs_in(ddl, "non_replicated_deduplication_window = "@),
        table_fits(ddl) ==> !occurs_in(ddl, "non_replicated_deduplication_window = 0"@),
{
}

/// What is wrong with a version is that it is no number or not recent enough,
/// and a table passes only if it is described.
pub proof fn problems_are_told(version: Seq<char>, error: Seq<char>, description: JsonView)
    ensures
        major_in(version) is Some && minor_in(version) is Some ==> version_problem(version)
            == "ClickHouse >=25.8 required; found "@ + version,
        schema_problem(Err(error)) == Some(error),
        description.items_at("data"@) is None ==> schema_problem(Ok(description)) == Some(
            "invalid schema response"@,
        ),
{
}

/// Addresses, identifiers and lists have the types of their columns.
pub proof fn columns_have_their_types()
    ensures
        column_types().len() == 28,
        column_types()[0] == "UInt16"@,
        column_types()[1] == "FixedString(16)"@ && column_types()[2] == "FixedString(16)"@,
        column_types()[3] == "UInt64"@,
        column_types()[4] == "DateTime64(3, 'UTC')"@,
        column_types()[5] == "DateTime"@,
        column_types()[6] == "UInt8"@ && column_types()[7] == "UInt8"@,
        column_types()[8] == "FixedString(16)"@,
        column_types()[9] == "UInt32"@,
        column_types()[10] == "Nullable(UInt32)"@,
        column_types()[11] == "UInt16"@ && column_types()[12] == "UInt8"@,
        column_types()[13] == "IPv6"@,
        column_types()[14] == "UInt8"@ && column_types()[15] == "UInt8"@ && column_types()[16]
            == "UInt8"@,
        column_types()[17] == "String"@,
        column_types()[18] == "Array(UInt32)"@ && column_types()[19] == "Array(UInt32)"@
            && column_types()[20] == "Array(UInt32)"@,
        column_types()[21] == "Array(FixedString(12))"@,
        column_types()[22] == "Array(FixedString(8))"@,
        column_types()[23] == "Nullable(IPv6)"@,
        column_types()[24] == "Nullable(UInt32)"@ && column_types()[25] == "Nullable(UInt32)"@,
        column_types()[26] == "UInt8"@,
        column_types()[27] == "String"@,
{
}

} // verus!
