//! The relational store: where the database file lives, the SQL text for each
//! table operation, and the plan that loads a delimited file into a table.
//!
//! Nothing here talks to the store. A plan is the list of statements to run,
//! in order; the caller runs them over a connection it opens for the call and
//! closes right after.

use crate::err::{ErrKind, WorkerError};
use crate::file::{cache_dir, get_cache_dir};
use crate::text::{chars_of, find_char, first_index, join, join_strings, lemma_first_index, views};
use vstd::prelude::*;
use vstd::string::StrSliceExecFns;
use vstd::string::StringExecFns;

verus! {

/// The header record that the `csv` crate reads from `source` with its
/// default settings, or `None` when it cannot read one.
pub uninterp spec fn csv_header(source: Seq<u8>) -> Option<Seq<Seq<char>>>;

/// The data records that the `csv` crate reads from `source` with its default
/// settings, in file order. An entry is `None` where the crate reports an
/// error for that record.
pub uninterp spec fn csv_records(source: Seq<u8>) -> Seq<Option<Seq<Seq<char>>>>;

/// The fields of a record as sequences of characters.
pub open spec fn record_view(record: Option<Vec<String>>) -> Option<Seq<Seq<char>>> {
    match record {
        Some(fields) => Some(views(fields@)),
        None => None,
    }
}

/// The records of a file as sequences of characters.
pub open spec fn records_view(records: Seq<Option<Vec<String>>>) -> Seq<Option<Seq<Seq<char>>>> {
    Seq::new(records.len(), |i: int| record_view(records[i]))
}

/// Calls `csv::Reader::from_reader` on `source` and then `Reader::headers`.
/// The contract names the result: the first record of the file, field by
/// field, or `None` when `headers` returns an error. It also states what
/// the crate documents of a source without data: the header is then the
/// empty record.
#[verifier::external_body]
fn read_header(source: &[u8]) -> (header: Option<Vec<String>>)
    ensures
        record_view(header) == csv_header(source@),
        source@.len() == 0 ==> record_view(header) == Some(Seq::<Seq<char>>::empty()),
{
    let mut reader = csv::Reader::from_reader(source);
    let header = reader.headers().ok()?;
    Some(header.iter().map(|field| field.to_owned()).collect())
}

/// Calls `csv::Reader::from_reader` on `source` and walks `Reader::records`
/// to its end. The contract names the result: one entry for each item the
/// iterator yields, the record's fields or `None` for an error.
#[verifier::external_body]
fn read_records(source: &[u8]) -> (records: Vec<Option<Vec<String>>>)
    ensures
        records_view(records@) == csv_records(source@),
{
    let mut reader = csv::Reader::from_reader(source);
    reader.records().map(
        |record| record.ok().map(|fields| fields.iter().map(|field| field.to_owned()).collect()),
    ).collect()
}

/// The path of the database file.
pub open spec fn db_path() -> Seq<char> {
    cache_dir() + "db.sqlite"@
}

/// The URL of the database file.
pub open spec fn db_url() -> Seq<char> {
    "file://"@ + db_path()
}

/// The embedded database. It holds no connection: callers open one per call.
#[derive(Debug, PartialEq, Eq)]
pub struct Database {}

impl Database {
    /// Returns the filesystem path of the database file.
    pub fn get_db_path() -> (path: String)
        ensures
            path@ == db_path(),
    {
        let mut path = get_cache_dir();
        path.append("db.sqlite");
        path
    }

    /// Returns the URL of the database file.
    pub fn get_db_url() -> (url: String)
        ensures
            url@ == db_url(),
    {
        let mut url = String::from_str("file://");
        url.append(Database::get_db_path().as_str());
        url
    }
}

/// A column of a table: its name and its SQL type.
#[derive(Debug, PartialEq, Eq)]
pub struct Column {
    pub name: String,
    pub sql_type: String,
}

/// A column as sequences of characters.
pub struct ColumnView {
    pub name: Seq<char>,
    pub sql_type: Seq<char>,
}

impl View for Column {
    type V = ColumnView;

    open spec fn view(&self) -> ColumnView {
        ColumnView { name: self.name@, sql_type: self.sql_type@ }
    }
}

/// The column a header field declares: the text before the first `_` is the
/// name, the text after it the SQL type.
pub open spec fn header_column(field: Seq<char>) -> ColumnView {
    ColumnView {
        name: field.take(first_index(field, '_')),
        sql_type: field.skip(first_index(field, '_') + 1),
    }
}

/// The columns a header declares, one per field.
pub open spec fn header_columns(header: Seq<Seq<char>>) -> Seq<ColumnView> {
    Seq::new(header.len(), |i: int| header_column(header[i]))
}

/// A header is well formed when it has a field and every field has a `_`.
pub open spec fn well_formed_header(header: Seq<Seq<char>>) -> bool {
    header.len() > 0 && forall|i: int| 0 <= i < header.len() ==> (#[trigger] header[i]).contains('_')
}

/// The message for a file without a header.
pub open spec fn empty_message() -> Seq<char> {
    "Error: CSV is empty."@
}

/// The message for a header field without a `_`.
pub open spec fn untyped_message() -> Seq<char> {
    "Error: CSV field has no type."@
}

/// The message for a header that cannot be read.
pub open spec fn header_message() -> Seq<char> {
    "Error: CSV header cannot be read."@
}

/// The message for a data record that cannot be read.
pub open spec fn record_message() -> Seq<char> {
    "Error: CSV record cannot be read."@
}

/// One column definition inside `CREATE TABLE`.
pub open spec fn column_definition(column: ColumnView) -> Seq<char> {
    column.name + " "@ + column.sql_type
}

/// The definitions of `columns`, one per column.
pub open spec fn column_definitions(columns: Seq<ColumnView>) -> Seq<Seq<char>> {
    Seq::new(columns.len(), |i: int| column_definition(columns[i]))
}

/// The statement that creates table `name` with `columns`.
pub open spec fn create_sql(name: Seq<char>, columns: Seq<ColumnView>) -> Seq<char> {
    "CREATE TABLE "@ + name + " (\n"@ + join(column_definitions(columns), ",\n"@) + "\n);"@
}

/// `text` with every single quote written twice.
pub open spec fn doubled_quotes(text: Seq<char>) -> Seq<char>
    decreases text.len(),
{
    if text.len() == 0 {
        Seq::empty()
    } else if text.last() == '\'' {
        doubled_quotes(text.drop_last()) + "''"@
    } else {
        doubled_quotes(text.drop_last()).push(text.last())
    }
}

/// What a store reads from the inside of a literal: every pair of single
/// quotes stands for one.
pub open spec fn paired_quotes_read(inside: Seq<char>) -> Seq<char>
    decreases inside.len(),
{
    if inside.len() == 0 {
        Seq::empty()
    } else if inside.len() >= 2 && inside.last() == '\'' && inside[inside.len() - 2] == '\'' {
        paired_quotes_read(inside.take(inside.len() - 2)).push('\'')
    } else {
        paired_quotes_read(inside.drop_last()).push(inside.last())
    }
}

/// Doubling the quotes of a text loses nothing: reading the pairs back gives
/// the text.
pub proof fn lemma_doubled_quotes_read_back(text: Seq<char>)
    ensures
        paired_quotes_read(doubled_quotes(text)) == text,
    decreases text.len(),
{
    if text.len() > 0 {
        let init = text.drop_last();
        lemma_doubled_quotes_read_back(init);
        let inside = doubled_quotes(text);
        reveal_strlit("''");
        if text.last() == '\'' {
            assert(inside =~= doubled_quotes(init) + "''"@);
            assert(inside.take(inside.len() - 2) =~= doubled_quotes(init));
            assert(init.push('\'') =~= text);
        } else {
            assert(inside.drop_last() =~= doubled_quotes(init));
            assert(init.push(text.last()) =~= text);
        }
    }
}

/// `text` as an SQL literal: between single quotes, with every single quote
/// of its own written twice, so that the store reads back exactly `text`.
pub open spec fn sql_literal(text: Seq<char>) -> Seq<char> {
    "'"@ + doubled_quotes(text) + "'"@
}

/// The literals of `values`, one per value, in order.
pub open spec fn sql_literals(values: Seq<Seq<char>>) -> Seq<Seq<char>> {
    Seq::new(values.len(), |i: int| sql_literal(values[i]))
}

/// The statement that inserts `values` into `name`: one literal per value,
/// in the order of the values, so that the value at position `i` goes to
/// the column at position `i`.
pub open spec fn insert_sql(name: Seq<char>, values: Seq<Seq<char>>) -> Seq<char> {
    "INSERT INTO "@ + name + " VALUES ("@ + join(sql_literals(values), ", "@) + ");"@
}

/// The statement that drops table `name` if it exists.
pub open spec fn drop_sql(name: Seq<char>) -> Seq<char> {
    "DROP TABLE IF EXISTS "@ + name
}

/// The query that reads all of table `name`.
pub open spec fn select_sql(name: Seq<char>) -> Seq<char> {
    "SELECT * FROM "@ + name
}

/// The catalog lookup for table `name`: it returns a row exactly when the
/// table exists.
pub open spec fn exists_sql(name: Seq<char>) -> Seq<char> {
    "SELECT name FROM sqlite_master WHERE type='table' AND name='"@ + name + "'"@
}

/// The number of records before the first unreadable one.
pub open spec fn readable_count(records: Seq<Option<Seq<Seq<char>>>>) -> int
    decreases records.len(),
{
    if records.len() == 0 || records[0] is None {
        0
    } else {
        1 + readable_count(records.skip(1))
    }
}

/// `readable_count` is in range, every record before it is readable, and the
/// record at it, if any, is not.
pub proof fn lemma_readable_count(records: Seq<Option<Seq<Seq<char>>>>)
    ensures
        0 <= readable_count(records) <= records.len(),
        forall|j: int| 0 <= j < readable_count(records) ==> records[j] is Some,
        readable_count(records) < records.len() ==> records[readable_count(records)] is None,
    decreases records.len(),
{
    if records.len() == 0 || records[0] is None {
    } else {
        let rest = records.skip(1);
        lemma_readable_count(rest);
        let k = readable_count(rest);
        assert forall|j: int| 0 <= j < 1 + k implies records[j] is Some by {
            if j > 0 {
                assert(rest[j - 1] == records[j]);
            }
        }
        if k < rest.len() {
            assert(rest[k] == records[k + 1]);
        }
    }
}

/// The statements that load a file into table `name`, in the order to run
/// them. None when the table exists or the header is rejected; otherwise the
/// `CREATE TABLE`, then one `INSERT` for each record before the first
/// unreadable one.
pub open spec fn load_statements(
    name: Seq<char>,
    table_exists: bool,
    header: Option<Seq<Seq<char>>>,
    records: Seq<Option<Seq<Seq<char>>>>,
) -> Seq<Seq<char>> {
    if table_exists || header is None || !well_formed_header(header->0) {
        Seq::empty()
    } else {
        seq![create_sql(name, header_columns(header->0))] + Seq::new(
            readable_count(records) as nat,
            |i: int| insert_sql(name, records[i]->0),
        )
    }
}

/// The error that ends a load, if any, as its kind and message.
pub open spec fn load_failure(
    table_exists: bool,
    header: Option<Seq<Seq<char>>>,
    records: Seq<Option<Seq<Seq<char>>>>,
) -> Option<(ErrKind, Seq<char>)> {
    if table_exists {
        None
    } else if header is None {
        Some((ErrKind::SchemaError, header_message()))
    } else if header->0.len() == 0 {
        Some((ErrKind::SchemaError, empty_message()))
    } else if !well_formed_header(header->0) {
        Some((ErrKind::SchemaError, untyped_message()))
    } else if readable_count(records) < records.len() {
        Some((ErrKind::DatabaseError, record_message()))
    } else {
        None
    }
}

/// Loading into a table that exists is a no-op: nothing is run and nothing
/// fails, whatever the source holds.
pub proof fn lemma_load_existing_table(
    name: Seq<char>,
    header: Option<Seq<Seq<char>>>,
    records: Seq<Option<Seq<Seq<char>>>>,
)
    ensures
        load_statements(name, true, header, records) == Seq::<Seq<char>>::empty(),
        load_failure(true, header, records) is None,
{
}

/// A source without a header, or with a header that is not well formed,
/// fails the load with a `SchemaError` and leaves no table created.
pub proof fn lemma_load_rejected_header(
    name: Seq<char>,
    header: Option<Seq<Seq<char>>>,
    records: Seq<Option<Seq<Seq<char>>>>,
)
    requires
        header is None || !well_formed_header(header->0),
    ensures
        load_statements(name, false, header, records) == Seq::<Seq<char>>::empty(),
        load_failure(false, header, records) matches Some((kind, _)) && kind
            == ErrKind::SchemaError,
{
}

/// A source with a well-formed header and readable records loads without
/// failure: the table is created with one column per header field, then one
/// row is inserted per record, in file order.
pub proof fn lemma_load_whole_source(
    name: Seq<char>,
    header: Seq<Seq<char>>,
    records: Seq<Option<Seq<Seq<char>>>>,
)
    requires
        well_formed_header(header),
        forall|i: int| 0 <= i < records.len() ==> (#[trigger] records[i]) is Some,
    ensures
        load_failure(false, Some(header), records) is None,
        load_statements(name, false, Some(header), records).len() == 1 + records.len(),
        load_statements(name, false, Some(header), records)[0] == create_sql(
            name,
            header_columns(header),
        ),
        header_columns(header).len() == header.len(),
        forall|i: int|
            0 <= i < records.len() ==> #[trigger] load_statements(
                name,
                false,
                Some(header),
                records,
            )[i + 1] == insert_sql(name, records[i]->0),
{
    lemma_readable_count(records);
    let k = readable_count(records);
    if k < records.len() {
        assert(records[k] is Some);
    }
}

/// What a load does to the store: the statements to run, in order, and the
/// error to report once they have run, if the load fails.
#[derive(Debug, PartialEq, Eq)]
pub struct LoadPlan {
    pub statements: Vec<String>,
    pub failure: Option<WorkerError>,
}

impl LoadPlan {
    /// The failure as its kind and message.
    pub open spec fn failure_view(&self) -> Option<(ErrKind, Seq<char>)> {
        match self.failure {
            Some(e) => Some((e.spec_kind(), e.spec_message())),
            None => None,
        }
    }
}

/// Splits a header field at its first `_` into the column's name and type.
/// Fails with a `SchemaError` exactly when the field has no `_`.
pub fn parse_column(field: &str) -> (r: Result<Column, WorkerError>)
    ensures
        match r {
            Ok(column) => field@.contains('_') && column@ == header_column(field@),
            Err(e) => !field@.contains('_') && e.has(ErrKind::SchemaError, untyped_message()),
        },
{
    let chars = chars_of(field);
    proof {
        lemma_first_index(field@, '_');
    }
    match find_char(&chars, '_') {
        None => Err(WorkerError::new(ErrKind::SchemaError, "Error: CSV field has no type.")),
        Some(i) => {
            let name = String::from_str(field.substring_char(0, i));
            let sql_type = String::from_str(field.substring_char(i + 1, chars.len()));
            proof {
                assert(field@.subrange(0, i as int) == field@.take(i as int));
                assert(field@.subrange(i + 1, field@.len() as int) == field@.skip(i + 1));
            }
            Ok(Column { name, sql_type })
        },
    }
}

/// Writes `text` as an SQL literal.
pub fn literal(text: &str) -> (sql: String)
    ensures
        sql@ == sql_literal(text@),
{
    let chars = chars_of(text);
    let count = chars.len();
    let mut sql = String::from_str("'");
    // What stands between `start` and `i` holds no quote and is not written yet.
    let mut start: usize = 0;
    let mut i: usize = 0;
    assert(text@.take(0) =~= Seq::<char>::empty());
    assert(sql@ + text@.subrange(0, 0) =~= "'"@ + doubled_quotes(text@.take(0)));
    while i < count
        invariant
            start <= i <= count,
            count == text@.len(),
            chars@ == text@,
            sql@ + text@.subrange(start as int, i as int) == "'"@ + doubled_quotes(
                text@.take(i as int),
            ),
        decreases count - i,
    {
        let ghost before = text@.take(i as int);
        let ghost longer = text@.take(i + 1);
        proof {
            assert(longer.drop_last() =~= before);
            assert(longer.last() == text@[i as int]);
        }
        if chars[i] == '\'' {
            let ghost written = sql@;
            let ghost pending = text@.subrange(start as int, i as int);
            sql.append(text.substring_char(start, i));
            sql.append("''");
            start = i + 1;
            proof {
                assert(sql@ == written + pending + "''"@);
                assert(written + pending == "'"@ + doubled_quotes(before));
                assert(doubled_quotes(longer) == doubled_quotes(before) + "''"@);
                assert(text@.subrange(start as int, i + 1) =~= Seq::<char>::empty());
                assert(sql@ + text@.subrange(start as int, i + 1) =~= "'"@ + doubled_quotes(
                    longer,
                ));
            }
        } else {
            proof {
                let pending = text@.subrange(start as int, i as int);
                assert(text@[i as int] != '\'');
                assert(text@.subrange(start as int, i + 1) =~= pending.push(text@[i as int]));
                assert(doubled_quotes(longer) == doubled_quotes(before).push(text@[i as int]));
                assert(sql@ + pending.push(text@[i as int]) =~= (sql@ + pending).push(
                    text@[i as int],
                ));
                assert(("'"@ + doubled_quotes(before)).push(text@[i as int]) =~= "'"@
                    + doubled_quotes(longer));
            }
        }
        i += 1;
    }
    sql.append(text.substring_char(start, count));
    sql.append("'");
    proof {
        assert(text@.take(count as int) =~= text@);
        assert(sql@ =~= sql_literal(text@));
    }
    sql
}

/// The columns as views.
pub open spec fn column_views(columns: Seq<Column>) -> Seq<ColumnView> {
    Seq::new(columns.len(), |i: int| columns[i]@)
}

/// Reads the columns off a header. Fails with a `SchemaError` exactly when
/// the header has no field or one of its fields has no `_`.
pub fn parse_header(header: &Vec<String>) -> (r: Result<Vec<Column>, WorkerError>)
    ensures
        match r {
            Ok(columns) => well_formed_header(views(header@)) && column_views(columns@)
                == header_columns(views(header@)),
            Err(e) => !well_formed_header(views(header@)) && e.spec_kind() == ErrKind::SchemaError
                && e.spec_message() == if header@.len() == 0 {
                empty_message()
            } else {
                untyped_message()
            },
        },
{
    if header.len() == 0 {
        return Err(WorkerError::new(ErrKind::SchemaError, "Error: CSV is empty."));
    }
    let mut columns: Vec<Column> = Vec::new();
    let mut i: usize = 0;
    while i < header.len()
        invariant
            i <= header@.len(),
            columns@.len() == i,
            forall|j: int| 0 <= j < i ==> (#[trigger] views(header@)[j]).contains('_'),
            forall|j: int| 0 <= j < i ==> (#[trigger] columns@[j])@ == header_column(header@[j]@),
        decreases header@.len() - i,
    {
        match parse_column(header[i].as_str()) {
            Ok(column) => {
                columns.push(column);
            },
            Err(e) => {
                assert(!views(header@)[i as int].contains('_'));
                return Err(e);
            },
        }
        i += 1;
    }
    proof {
        assert(column_views(columns@) =~= header_columns(views(header@)));
    }
    Ok(columns)
}

/// A table of the store and the delimited file it is loaded from.
#[derive(Debug, PartialEq, Eq)]
pub struct Table {
    name: String,
    source: String,
}

impl Table {
    /// The table's name.
    pub closed spec fn spec_name(&self) -> Seq<char> {
        self.name@
    }

    /// The path of the file the table is loaded from.
    pub closed spec fn spec_source(&self) -> Seq<char> {
        self.source@
    }

    /// The table `name`, loaded from the file at `source`.
    pub fn new(name: &str, source: &str) -> (table: Table)
        ensures
            table.spec_name() == name@,
            table.spec_source() == source@,
    {
        Table { name: String::from_str(name), source: String::from_str(source) }
    }

    /// The table's name.
    pub fn name(&self) -> (name: &str)
        ensures
            name@ == self.spec_name(),
    {
        self.name.as_str()
    }

    /// The path of the file the table is loaded from.
    pub fn source(&self) -> (source: &str)
        ensures
            source@ == self.spec_source(),
    {
        self.source.as_str()
    }

    /// The catalog lookup that tells whether the table exists.
    pub fn exists_query(&self) -> (sql: String)
        ensures
            sql@ == exists_sql(self.spec_name()),
    {
        let mut sql = String::from_str(
            "SELECT name FROM sqlite_master WHERE type='table' AND name='",
        );
        sql.append(self.name.as_str());
        sql.append("'");
        sql
    }

    /// The statement that creates the table with `columns`.
    pub fn create_statement(&self, columns: &Vec<Column>) -> (sql: String)
        ensures
            sql@ == create_sql(self.spec_name(), column_views(columns@)),
    {
        let mut definitions: Vec<String> = Vec::new();
        let mut i: usize = 0;
        while i < columns.len()
            invariant
                i <= columns@.len(),
                definitions@.len() == i,
                forall|j: int|
                    0 <= j < i ==> (#[trigger] definitions@[j])@ == column_definition(columns@[j]@),
            decreases columns@.len() - i,
        {
            let mut definition = String::from_str(columns[i].name.as_str());
            definition.append(" ");
            definition.append(columns[i].sql_type.as_str());
            definitions.push(definition);
            i += 1;
        }
        proof {
            assert(views(definitions@) =~= column_definitions(column_views(columns@)));
        }
        let mut sql = String::from_str("CREATE TABLE ");
        sql.append(self.name.as_str());
        sql.append(" (\n");
        sql.append(join_strings(&definitions, ",\n").as_str());
        sql.append("\n);");
        sql
    }

    /// The statement that inserts one record: each value as an SQL literal,
    /// in file order, one per column.
    pub fn insert_statement(&self, values: &Vec<String>) -> (sql: String)
        ensures
            sql@ == insert_sql(self.spec_name(), views(values@)),
    {
        let mut literals: Vec<String> = Vec::new();
        let mut i: usize = 0;
        while i < values.len()
            invariant
                i <= values@.len(),
                literals@.len() == i,
                forall|j: int|
                    0 <= j < i ==> (#[trigger] literals@[j])@ == sql_literal(values@[j]@),
            decreases values@.len() - i,
        {
            literals.push(literal(values[i].as_str()));
            i += 1;
        }
        proof {
            assert(views(literals@) =~= sql_literals(views(values@)));
        }
        let mut sql = String::from_str("INSERT INTO ");
        sql.append(self.name.as_str());
        sql.append(" VALUES (");
        sql.append(join_strings(&literals, ", ").as_str());
        sql.append(");");
        sql
    }

    /// The statement that drops the table if it exists.
    pub fn drop_statement(&self) -> (sql: String)
        ensures
            sql@ == drop_sql(self.spec_name()),
    {
        let mut sql = String::from_str("DROP TABLE IF EXISTS ");
        sql.append(self.name.as_str());
        sql
    }

    /// The query that loads the whole table.
    pub fn load_query(&self) -> (sql: String)
        ensures
            sql@ == select_sql(self.spec_name()),
    {
        let mut sql = String::from_str("SELECT * FROM ");
        sql.append(self.name.as_str());
        sql
    }

    /// Plans the load of a file whose header and records have been read.
    ///
    /// When the table exists the plan is empty: the load is a no-op. When
    /// the header is unreadable, empty, or has a field without `_`, the plan
    /// holds no statement and fails with a `SchemaError`, so no table is
    /// created. Otherwise the plan creates the table and inserts each record
    /// up to the first unreadable one, where it fails with a `DatabaseError`.
    pub fn plan_load(
        &self,
        table_exists: bool,
        header: &Option<Vec<String>>,
        records: &Vec<Option<Vec<String>>>,
    ) -> (plan: LoadPlan)
        ensures
            views(plan.statements@) == load_statements(
                self.spec_name(),
                table_exists,
                record_view(*header),
                records_view(records@),
            ),
            plan.failure_view() == load_failure(
                table_exists,
                record_view(*header),
                records_view(records@),
            ),
    {
        let mut statements: Vec<String> = Vec::new();
        if table_exists {
            assert(views(statements@) =~= Seq::<Seq<char>>::empty());
            return LoadPlan { statements, failure: None };
        }
        let fields = match header {
            Some(fields) => fields,
            None => {
                assert(views(statements@) =~= Seq::<Seq<char>>::empty());
                let e = WorkerError::new(ErrKind::SchemaError, "Error: CSV header cannot be read.");
                return LoadPlan { statements, failure: Some(e) };
            },
        };
        let columns = match parse_header(fields) {
            Ok(columns) => columns,
            Err(e) => {
                assert(views(statements@) =~= Seq::<Seq<char>>::empty());
                return LoadPlan { statements, failure: Some(e) };
            },
        };
        statements.push(self.create_statement(&columns));
        let ghost rows = records_view(records@);
        let ghost create = create_sql(self.spec_name(), header_columns(views(fields@)));
        let mut i: usize = 0;
        let mut failure: Option<WorkerError> = None;
        while i < records.len()
            invariant_except_break
                failure is None,
            invariant
                i <= records@.len(),
                rows == records_view(records@),
                statements@.len() == i + 1,
                statements@[0]@ == create,
                forall|j: int| 0 <= j < i ==> rows[j] is Some,
                forall|j: int|
                    0 <= j < i ==> (#[trigger] statements@[j + 1])@ == insert_sql(
                        self.spec_name(),
                        rows[j]->0,
                    ),
            ensures
                i <= records@.len(),
                statements@.len() == i + 1,
                statements@[0]@ == create,
                forall|j: int| 0 <= j < i ==> rows[j] is Some,
                forall|j: int|
                    0 <= j < i ==> (#[trigger] statements@[j + 1])@ == insert_sql(
                        self.spec_name(),
                        rows[j]->0,
                    ),
                i < records@.len() ==> rows[i as int] is None,
                match failure {
                    Some(e) => i < records@.len() && e.has(ErrKind::DatabaseError, record_message()),
                    None => i == records@.len(),
                },
            decreases records@.len() - i,
        {
            match &records[i] {
                Some(values) => {
                    assert(rows[i as int] == Some(views(values@)));
                    statements.push(self.insert_statement(values));
                },
                None => {
                    assert(rows[i as int] is None);
                    failure = Some(
                        WorkerError::new(ErrKind::DatabaseError, "Error: CSV record cannot be read."),
                    );
                    break ;
                },
            }
            i += 1;
        }
        proof {
            lemma_readable_count(rows);
            let k = readable_count(rows);
            if k < i {
                assert(rows[k] is Some);
            }
            if i < k {
                assert(rows[i as int] is Some);
            }
            assert(k == i);
            let planned = load_statements(
                self.spec_name(),
                table_exists,
                record_view(*header),
                rows,
            );
            assert(planned.len() == i + 1);
            assert forall|j: int| 0 <= j < i + 1 implies views(statements@)[j] == planned[j] by {
                if j > 0 {
                    assert(statements@[(j - 1) + 1]@ == insert_sql(self.spec_name(), rows[j - 1]->0));
                }
            }
            assert(views(statements@) =~= load_statements(
                self.spec_name(),
                table_exists,
                record_view(*header),
                rows,
            ));
        }
        LoadPlan { statements, failure }
    }

    /// Plans the load of the file whose bytes are `source`: reads its header
    /// and records, then plans as [`Table::plan_load`] does. An empty source
    /// has no header, so loading it into a table that does not exist fails
    /// with a `SchemaError` and creates nothing.
    pub fn dump_plan(&self, table_exists: bool, source: &[u8]) -> (plan: LoadPlan)
        ensures
            views(plan.statements@) == load_statements(
                self.spec_name(),
                table_exists,
                csv_header(source@),
                csv_records(source@),
            ),
            plan.failure_view() == load_failure(
                table_exists,
                csv_header(source@),
                csv_records(source@),
            ),
            source@.len() == 0 && !table_exists ==> plan.statements@.len() == 0
                && plan.failure_view() == Some((ErrKind::SchemaError, empty_message())),
    {
        let header = read_header(source);
        let records = read_records(source);
        let plan = self.plan_load(table_exists, &header, &records);
        assert(views(plan.statements@).len() == plan.statements@.len());
        plan
    }
}

} // verus!
