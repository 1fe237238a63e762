//! The backend connection: how a routed query's results come back from a shard's
//! PostgreSQL.
//!
//! Two backends coexist:
//!
//! - [`TokioPostgresBackend`] speaks simple-query text mode. It cannot see column type OIDs
//!   (every column is advertised as text) or the backend's real command tag (it is rebuilt
//!   from the leading keyword).
//! - [`PgWireBackend`] speaks the wire protocol directly,
//!   so a result carries the backend's **real column type OIDs** and its
//!   **verbatim command tag**. This is what a sound cross-shard ORDER BY merge
//!   (which needs typed sort keys) and type-aware clients require.
//!
//! Both return the same backend-agnostic [`BackendResult`], so the wire layer
//! builds a frontend response the same way regardless of which is in use.
use crate::bytes;
use crate::results::{
    self, DataRow, Fault, Field, FieldFormat, FieldView, Origin, WireError,
};
use crate::router::Endpoint;
use crate::text;
use vstd::prelude::*;
use vstd::string::*;
use vstd::utf8::*;

verus! {

/// Credentials the router uses for its own backend connections, plus the name of
/// the unsharded system database.
#[derive(Debug, PartialEq, Eq)]
pub struct Backend {
    pub user: String,
    pub password: String,
    pub system_database: String,
}

impl Clone for Backend {
    fn clone(&self) -> (r: Backend)
        ensures
            r == *self,
    {
        Backend {
            user: self.user.clone(),
            password: self.password.clone(),
            system_database: self.system_database.clone(),
        }
    }
}

/// One statement's result in a backend-agnostic form. Rows carry a schema whose
/// fields hold the column type (a real OID on the verbatim backend, text
/// on the other one) plus the already-encoded [`DataRow`]s and the command tag without its
/// row count, where it is known; a no-row statement
/// carries the command tag string to send back verbatim.
#[derive(Debug, PartialEq, Eq)]
pub enum BackendResult {
    Rows { schema: Vec<Field>, rows: Vec<DataRow>, command_tag: Option<String> },
    Command { tag: String },
    Empty,
}

/// What a result says.
#[verifier::ext_equal]
pub enum ResultView {
    Rows { schema: Seq<FieldView>, rows: Seq<DataRow>, command_tag: Option<Seq<char>> },
    Command { tag: Seq<char> },
    Empty,
}

impl View for BackendResult {
    type V = ResultView;

    open spec fn view(&self) -> ResultView {
        match self {
            BackendResult::Rows { schema, rows, command_tag } => ResultView::Rows {
                schema: results::field_views(schema@),
                rows: rows@,
                command_tag: text::option_view(*command_tag),
            },
            BackendResult::Command { tag } => ResultView::Command { tag: tag@ },
            BackendResult::Empty => ResultView::Empty,
        }
    }
}

pub open spec fn result_views(s: Seq<BackendResult>) -> Seq<ResultView> {
    s.map_values(|r: BackendResult| r@)
}

/// Where and as whom a backend connection is opened.
#[derive(Debug, PartialEq, Eq)]
pub struct ConnectConfig {
    pub host: String,
    pub port: u16,
    pub user: String,
    pub password: String,
    pub dbname: String,
    /// The server options of the session.
    pub options: Option<String>,
}

/// The session option that has PostgreSQL itself refuse writes.
pub const READ_ONLY_OPTIONS: &'static str = "-c default_transaction_read_only=on";

/// Whether a config reaches the database at the endpoint with the credentials, in a
/// read-only session where asked.
pub open spec fn connects(
    c: ConnectConfig,
    creds: Backend,
    endpoint: Endpoint,
    database: Seq<char>,
    read_only: bool,
) -> bool {
    &&& c.host == endpoint.host
    &&& c.port == endpoint.port
    &&& c.user == creds.user
    &&& c.password == creds.password
    &&& c.dbname@ == database
    &&& text::option_view(c.options) == (if read_only {
        Some(READ_ONLY_OPTIONS@)
    } else {
        None
    })
}

fn connect_config(creds: &Backend, endpoint: &Endpoint, database: &str, read_only: bool) -> (r:
    ConnectConfig)
    ensures
        connects(r, *creds, *endpoint, database@, read_only),
{
    ConnectConfig {
        host: endpoint.host.clone(),
        port: endpoint.port,
        user: creds.user.clone(),
        password: creds.password.clone(),
        dbname: database.to_owned(),
        options: if read_only {
            Some(READ_ONLY_OPTIONS.to_owned())
        } else {
            None
        },
    }
}

/// The error of a failed backend call: the backend's own SQLSTATE and message when it
/// answered with an error, else a generic failure.
pub fn backend_error(remote: Option<(String, String)>, shown: &str) -> (r: WireError)
    ensures
        match remote {
            Some(e) => r@ == results::fault(e.0@, e.1@),
            None => r@ == results::fault("08006"@, "backend connection failed: "@ + shown@),
        },
{
    match remote {
        Some(e) => results::user_error(e.0.as_str(), e.1),
        None => results::user_error(
            "08006",
            text::concat2("backend connection failed: ", shown),
        ),
    }
}

// ---------------------------------------------------------------------------------------
// Text mode.
// ---------------------------------------------------------------------------------------

/// A fresh connection per query in text mode. Column type OIDs and the verbatim command tag
/// are not available on this path.
#[derive(Debug)]
pub struct TokioPostgresBackend {
    pub creds: Backend,
}

impl TokioPostgresBackend {
    pub fn new(creds: Backend) -> (r: TokioPostgresBackend)
        ensures
            r.creds == creds,
    {
        TokioPostgresBackend { creds }
    }

    /// How the database at the endpoint is reached.
    pub fn config(&self, endpoint: &Endpoint, database: &str, read_only: bool) -> (r: ConnectConfig)
        ensures
            connects(r, self.creds, *endpoint, database@, read_only),
    {
        connect_config(&self.creds, endpoint, database, read_only)
    }
}

/// A message of a text-mode simple query.
#[derive(Debug, PartialEq, Eq)]
pub enum QueryMessage {
    /// The names of the columns of the rows that follow.
    RowDescription(Vec<String>),
    /// The cells of a row.
    Row(Vec<Option<String>>),
    /// The number of affected rows.
    CommandComplete(u64),
    Other,
}

pub const VARCHAR_OID: u32 = 1043;

pub open spec fn cell_views(row: Seq<Option<String>>) -> Seq<Option<Seq<char>>> {
    row.map_values(|c: Option<String>| text::option_view(c))
}

/// What the messages say together.
#[verifier::ext_equal]
pub struct Said {
    pub columns: Option<Seq<Seq<char>>>,
    pub rows: Seq<Seq<Option<Seq<char>>>>,
    pub affected: u64,
}

/// What the first `n` messages say: the last description's columns, the rows since, and
/// the last count.
pub open spec fn said(messages: Seq<QueryMessage>, n: nat) -> Said
    decreases n,
{
    if n == 0 {
        Said { columns: None, rows: Seq::empty(), affected: 0 }
    } else {
        let before = said(messages, (n - 1) as nat);
        match messages[n - 1] {
            QueryMessage::RowDescription(cols) => Said {
                columns: Some(text::views(cols@)),
                rows: Seq::empty(),
                affected: before.affected,
            },
            QueryMessage::Row(cells) => Said {
                rows: before.rows.push(cell_views(cells@)),
                ..before
            },
            QueryMessage::CommandComplete(n) => Said { affected: n, ..before },
            QueryMessage::Other => before,
        }
    }
}

/// The columns of a text-mode result: all of them text.
pub open spec fn text_fields(columns: Seq<Seq<char>>) -> Seq<FieldView> {
    columns.map_values(
        |c: Seq<char>|
            FieldView {
                name: c,
                type_oid: VARCHAR_OID,
                format: FieldFormat::Text,
                origin: results::no_origin(),
            },
    )
}

/// The cells one after the other.
pub open spec fn row_data(cells: Seq<Option<Seq<char>>>) -> Seq<u8>
    decreases cells.len(),
{
    if cells.len() == 0 {
        Seq::empty()
    } else {
        row_data(cells.drop_last()) + results::text_cell(cells.last())
    }
}

/// The number of cells as a row states it.
pub open spec fn stated_count(n: nat) -> i16 {
    bytes::signed16((n % 0x1_0000) as u16)
}

/// Whether a row holds the cells.
pub open spec fn encodes(row: DataRow, cells: Seq<Option<Seq<char>>>) -> bool {
    row.data@ == row_data(cells) && row.field_count == stated_count(cells.len())
}

/// `pgwire::api::results::DataRowEncoder::encode_field`, on a text-format column: the cell
/// that a row holds for the value. NULL is the length -1 alone; a text is its length in
/// bytes and its UTF-8 bytes.
#[verifier::external_body]
fn encoded_cell(value: &Option<String>) -> (r: Vec<u8>)
    ensures
        r@ == results::text_cell(text::option_view(*value)),
{
    let field = pgwire::api::results::FieldInfo::new(
        String::new(),
        None,
        None,
        pgwire::api::Type::VARCHAR,
        pgwire::api::results::FieldFormat::Text,
    );
    let mut encoder = pgwire::api::results::DataRowEncoder::new(std::sync::Arc::new(vec![field]));
    let _ = encoder.encode_field(&value.as_deref());
    encoder.take_row().data.to_vec()
}

fn encode_row(cells: &Vec<Option<String>>) -> (r: DataRow)
    ensures
        encodes(r, cell_views(cells@)),
{
    let ghost views = cell_views(cells@);
    let mut data: Vec<u8> = Vec::new();
    let mut i: usize = 0;
    proof {
        assert(views.take(0) =~= Seq::<Option<Seq<char>>>::empty());
    }
    while i < cells.len()
        invariant
            i <= cells@.len(),
            views == cell_views(cells@),
            data@ == row_data(views.take(i as int)),
        decreases cells@.len() - i,
    {
        proof {
            assert(views.take(i + 1).drop_last() =~= views.take(i as int));
            assert(views.take(i + 1).last() == text::option_view(cells@[i as int]));
        }
        let c = encoded_cell(&cells[i]);
        bytes::push_all(&mut data, c.as_slice());
        i += 1;
    }
    proof {
        assert(views.take(views.len() as int) =~= views);
    }
    DataRow { data, field_count: bytes::to_signed16((cells.len() % 0x1_0000) as u16) }
}

/// Encode already-fetched text values into `DataRow`s.
pub fn encode_text_rows(rows: &Vec<Vec<Option<String>>>) -> (r: Vec<DataRow>)
    ensures
        r@.len() == rows@.len(),
        forall|i: int| 0 <= i < r@.len() ==> encodes(#[trigger] r@[i], cell_views(rows@[i]@)),
{
    let mut out: Vec<DataRow> = Vec::new();
    let mut i: usize = 0;
    while i < rows.len()
        invariant
            i <= rows@.len(),
            out@.len() == i,
            forall|k: int| 0 <= k < i ==> encodes(#[trigger] out@[k], cell_views(rows@[k]@)),
        decreases rows@.len() - i,
    {
        out.push(encode_row(&rows[i]));
        i += 1;
    }
    out
}

/// Whether a character ends the leading keyword.
pub open spec fn ends_keyword(c: char) -> bool {
    text::whitespace(c) || c == '(' || c == ';'
}

/// The characters before the first that ends a keyword.
pub open spec fn leading_word(s: Seq<char>) -> Seq<char>
    decreases s.len(),
{
    if s.len() == 0 || ends_keyword(s[0]) {
        Seq::empty()
    } else {
        seq![s[0]] + leading_word(s.drop_first())
    }
}

/// The upper-case form of a text.
pub uninterp spec fn uppercase_text(s: Seq<char>) -> Seq<char>;

pub open spec fn ascii(s: Seq<char>) -> bool {
    forall|i: int| 0 <= i < s.len() ==> (#[trigger] s[i]) as u32 <= 0x7f
}

/// `str::to_uppercase`: the text in upper case. It depends on the text alone; of an ASCII
/// text each lower-case letter becomes its upper-case letter and nothing else changes.
#[verifier::external_body]
fn uppercased(s: &str) -> (r: String)
    ensures
        r@ == uppercase_text(s@),
        ascii(s@) ==> r@ == s@.map_values(|c: char| text::upper(c)),
{
    s.to_uppercase()
}

/// The leading keyword of a statement, uppercased.
pub open spec fn keyword(query: Seq<char>) -> Seq<char> {
    let w = leading_word(text::trim_start(query));
    if w.len() == 0 {
        "OK"@
    } else {
        uppercase_text(w)
    }
}

proof fn lemma_leading_word(s: Seq<char>, n: int)
    requires
        0 <= n <= s.len(),
        n < s.len() ==> ends_keyword(s[n]),
        forall|k: int| 0 <= k < n ==> !ends_keyword(#[trigger] s[k]),
    ensures
        leading_word(s) == s.take(n),
    decreases s.len(),
{
    if n == 0 {
        assert(s.take(0) =~= Seq::<char>::empty());
    } else {
        let t = s.drop_first();
        assert(!ends_keyword(s[0]));
        assert forall|k: int| 0 <= k < n - 1 implies !ends_keyword(#[trigger] t[k]) by {
            assert(t[k] == s[k + 1]);
        }
        lemma_leading_word(t, n - 1);
        assert(seq![s[0]] + t.take(n - 1) =~= s.take(n));
    }
}

/// The leading keyword of a statement, uppercased; `OK` where there is none.
pub fn command_keyword(query: &str) -> (r: String)
    ensures
        r@ == keyword(query@),
        ascii(leading_word(text::trim_start(query@))) && leading_word(
            text::trim_start(query@),
        ).len() > 0 ==> r@ == leading_word(text::trim_start(query@)).map_values(
            |c: char| text::upper(c),
        ),
{
    let cs = text::chars(query);
    let mut from: usize = 0;
    proof {
        assert(cs@.skip(0) =~= cs@);
    }
    while from < cs.len() && text::is_whitespace(cs[from])
        invariant
            from <= cs@.len(),
            text::trim_start(cs@) == text::trim_start(cs@.skip(from as int)),
        decreases cs@.len() - from,
    {
        proof {
            assert(cs@.skip(from as int).drop_first() =~= cs@.skip(from + 1));
        }
        from += 1;
    }
    let ghost rest = cs@.skip(from as int);
    assert(text::trim_start(cs@) == rest);
    let mut to: usize = from;
    while to < cs.len() && !(text::is_whitespace(cs[to]) || cs[to] == '(' || cs[to] == ';')
        invariant
            from <= to <= cs@.len(),
            rest == cs@.skip(from as int),
            forall|k: int| 0 <= k < to - from ==> !ends_keyword(#[trigger] rest[k]),
        decreases cs@.len() - to,
    {
        assert(rest[to - from] == cs@[to as int]);
        to += 1;
    }
    proof {
        if to < cs@.len() {
            assert(rest[to - from] == cs@[to as int]);
        }
        lemma_leading_word(rest, to - from);
        assert(rest.take(to - from) =~= cs@.subrange(from as int, to as int));
    }
    if from == to {
        return "OK".to_owned();
    }
    let word = text::slice_chars(&cs, from, to);
    uppercased(text::from_chars(word.as_slice()).as_str())
}

/// The command tag of a no-row statement.
pub open spec fn text_tag(keyword: Seq<char>, affected: u64) -> Seq<char> {
    if keyword == "INSERT"@ {
        "INSERT 0 "@ + text::decimal(affected as int)
    } else {
        keyword + " "@ + text::decimal(affected as int)
    }
}

/// The tag of a keyword and a count.
pub fn counted_tag(keyword: &str, affected: u64) -> (r: String)
    ensures
        r@ == text_tag(keyword@, affected),
{
    if text::same(keyword, "INSERT") {
        text::concat2("INSERT 0 ", text::decimal_u64(affected).as_str())
    } else {
        text::concat3(keyword, " ", text::decimal_u64(affected).as_str())
    }
}

/// The command tag for a no-row statement, derived from the leading keyword and
/// the affected-row count. Matches the shape PostgreSQL emits closely enough for
/// libpq's `PQcmdTuples`: `INSERT` carries the zero-oid form (`INSERT 0 n`),
/// every other verb is `verb n`.
pub fn text_command_tag(query: &str, affected: u64) -> (r: String)
    ensures
        r@ == text_tag(keyword(query@), affected),
{
    counted_tag(command_keyword(query).as_str(), affected)
}

/// The result that the messages of a text-mode query make.
pub open spec fn text_results(r: BackendResult, query: Seq<char>, s: Said) -> bool {
    match s.columns {
        Some(columns) => match r {
            BackendResult::Rows { schema, rows, command_tag } => {
                &&& results::field_views(schema@) == text_fields(columns)
                &&& rows@.len() == s.rows.len()
                &&& forall|i: int| 0 <= i < rows@.len() ==> encodes(#[trigger] rows@[i], s.rows[i])
                &&& command_tag is None
            },
            _ => false,
        },
        None => r@ == ResultView::Command { tag: text_tag(keyword(query), s.affected) },
    }
}

/// Whether no row has more cells than the described columns.
pub open spec fn rows_fit(s: Said) -> bool {
    s.columns is Some ==> forall|i: int|
        0 <= i < s.rows.len() ==> (#[trigger] s.rows[i]).len() <= s.columns->0.len()
}

fn text_schema(columns: &Vec<String>) -> (r: Vec<Field>)
    ensures
        results::field_views(r@) == text_fields(text::views(columns@)),
{
    let mut out: Vec<Field> = Vec::new();
    let mut i: usize = 0;
    while i < columns.len()
        invariant
            i <= columns@.len(),
            out@.len() == i,
            forall|k: int|
                0 <= k < i ==> (#[trigger] out@[k]).name@ == columns@[k]@ && out@[k].type_oid
                    == VARCHAR_OID && out@[k].format == FieldFormat::Text && out@[k].origin
                    == results::no_origin(),
        decreases columns@.len() - i,
    {
        out.push(
            Field {
                name: columns[i].clone(),
                type_oid: VARCHAR_OID,
                format: FieldFormat::Text,
                origin: Origin::none(),
            },
        );
        i += 1;
    }
    proof {
        assert(results::field_views(out@) =~= text_fields(text::views(columns@)));
    }
    out
}

pub open spec fn row_views(rows: Seq<Vec<Option<String>>>) -> Seq<Seq<Option<Seq<char>>>> {
    rows.map_values(|r: Vec<Option<String>>| cell_views(r@))
}

/// Pull one statement's result out of a simple query's messages, encoding text
/// rows into `DataRow`s and rebuilding a command tag from the leading keyword. One statement
/// is forwarded, so if a
/// second `RowDescription` arrives the rows are reset to stay in sync with it.
pub fn text_result(query: &str, messages: Vec<QueryMessage>) -> (r: BackendResult)
    requires
        rows_fit(said(messages@, messages@.len())),
    ensures
        text_results(r, query@, said(messages@, messages@.len())),
{
    let ghost all = messages@;
    let mut messages = messages;
    let mut schema: Option<Vec<Field>> = None;
    let ghost mut columns: Option<Seq<Seq<char>>> = None;
    let mut rows: Vec<Vec<Option<String>>> = Vec::new();
    let mut affected: u64 = 0;
    let count: usize = messages.len();
    let mut n: usize = 0;
    proof {
        assert(row_views(rows@) =~= Seq::<Seq<Option<Seq<char>>>>::empty());
        assert(messages@ =~= all.skip(0));
    }
    while n < count
        invariant
            n <= count == all.len(),
            messages@ == all.skip(n as int),
            said(all, n as nat) == (Said { columns, rows: row_views(rows@), affected }),
            match schema {
                Some(s) => columns is Some && results::field_views(s@) == text_fields(columns->0),
                None => columns is None,
            },
        decreases count - n,
    {
        let m = messages.remove(0);
        proof {
            assert(m == all[n as int]);
            assert(all.skip(n as int).remove(0) =~= all.skip(n + 1));
        }
        match m {
            QueryMessage::RowDescription(cols) => {
                rows = Vec::new();
                schema = Some(text_schema(&cols));
                proof {
                    columns = Some(text::views(cols@));
                    assert(row_views(rows@) =~= Seq::<Seq<Option<Seq<char>>>>::empty());
                }
            },
            QueryMessage::Row(cells) => {
                let ghost before = rows@;
                rows.push(cells);
                proof {
                    assert(row_views(rows@) =~= row_views(before).push(cell_views(cells@)));
                }
            },
            QueryMessage::CommandComplete(c) => {
                affected = c;
            },
            QueryMessage::Other => {},
        }
        n += 1;
    }
    match schema {
        Some(schema) => BackendResult::Rows {
            schema,
            rows: encode_text_rows(&rows),
            command_tag: None,
        },
        None => BackendResult::Command { tag: text_command_tag(query, affected) },
    }
}

// ---------------------------------------------------------------------------------------
// The wire protocol itself.
// ---------------------------------------------------------------------------------------

/// A backend that speaks the wire protocol directly, so a
/// result keeps the backend's real column type OIDs and verbatim command tag.
#[derive(Debug)]
pub struct PgWireBackend {
    pub creds: Backend,
}

impl PgWireBackend {
    pub fn new(creds: Backend) -> (r: PgWireBackend)
        ensures
            r.creds == creds,
    {
        PgWireBackend { creds }
    }

    /// How the database at the endpoint is reached.
    pub fn config(&self, endpoint: &Endpoint, database: &str, read_only: bool) -> (r: ConnectConfig)
        ensures
            connects(r, self.creds, *endpoint, database@, read_only),
    {
        connect_config(&self.creds, endpoint, database, read_only)
    }
}

/// A message that a backend answers a simple query with.
#[derive(Debug, PartialEq, Eq)]
pub enum BackendMessage {
    RowDescription(Vec<Field>),
    DataRow(DataRow),
    /// The command tag.
    CommandComplete(String),
    EmptyQueryResponse,
    ReadyForQuery,
    /// The SQLSTATE and the message.
    ErrorResponse(String, String),
    /// A notice, a reported setting or a notification: it may come at any time.
    Asynchronous,
    Other,
}

/// What a message leads to.
#[derive(Debug, PartialEq, Eq)]
pub enum Collected {
    /// More messages follow.
    Pending,
    /// The query is answered.
    Ready(Vec<BackendResult>),
    /// The backend answered with an error: its SQLSTATE and its message.
    Failed(String, String),
    /// The message cannot stand here.
    Unexpected,
}

/// Collects each statement's result into a
/// [`BackendResult`]. It keeps the **raw**
/// `CommandComplete` tag string rather than parsing it into a structured tag
/// (which multi-word tags like `CREATE TABLE` / `DISCARD ALL` do not fit),
/// and it preserves the backend's real column types from the `RowDescription`.
#[derive(Debug)]
pub struct ResultCollector {
    /// The schema and rows of a row-returning statement in progress, awaiting its
    /// `CommandComplete`.
    pub pending: Option<(Vec<Field>, Vec<DataRow>)>,
    pub out: Vec<BackendResult>,
}

/// A collector's state.
#[verifier::ext_equal]
pub struct Gathered {
    pub pending: Option<(Seq<FieldView>, Seq<DataRow>)>,
    pub out: Seq<ResultView>,
}

impl View for ResultCollector {
    type V = Gathered;

    open spec fn view(&self) -> Gathered {
        Gathered {
            pending: match self.pending {
                Some(p) => Some((results::field_views(p.0@), p.1@)),
                None => None,
            },
            out: result_views(self.out@),
        }
    }
}

/// Whether a tag ends in a space and a number.
pub open spec fn has_count(tag: Seq<char>, at: int) -> bool {
    0 <= at < tag.len() - 1 && tag[at] == ' ' && forall|k: int|
        at < k < tag.len() ==> '0' <= #[trigger] tag[k] <= '9'
}

/// A tag without the row count at its end: the wire layer appends the number of rows that
/// it sends.
pub open spec fn tag_verb(tag: Seq<char>) -> Seq<char> {
    if exists|at: int| has_count(tag, at) {
        tag.take(choose|at: int| has_count(tag, at))
    } else {
        tag
    }
}

/// The state after a message.
pub open spec fn gathered(g: Gathered, m: BackendMessage) -> Gathered {
    match m {
        BackendMessage::RowDescription(fields) => Gathered {
            pending: Some((results::field_views(fields@), Seq::empty())),
            ..g
        },
        BackendMessage::DataRow(row) => match g.pending {
            Some(p) => Gathered { pending: Some((p.0, p.1.push(row))), ..g },
            None => g,
        },
        BackendMessage::CommandComplete(tag) => Gathered {
            pending: None,
            out: g.out.push(
                match g.pending {
                    Some(p) => ResultView::Rows {
                        schema: p.0,
                        rows: p.1,
                        command_tag: Some(tag_verb(tag@)),
                    },
                    None => ResultView::Command { tag: tag@ },
                },
            ),
        },
        BackendMessage::EmptyQueryResponse => Gathered {
            out: g.out.push(ResultView::Empty),
            ..g
        },
        BackendMessage::ReadyForQuery => Gathered { out: Seq::empty(), ..g },
        _ => g,
    }
}

/// Whether this is what a message leads to.
pub open spec fn leads_to(g: Gathered, m: BackendMessage, c: Collected) -> bool {
    match m {
        BackendMessage::ReadyForQuery => c matches Collected::Ready(rs) && result_views(rs@)
            == g.out,
        BackendMessage::ErrorResponse(code, message) => c matches Collected::Failed(k, t) && k
            == code && t == message,
        BackendMessage::Other => c is Unexpected,
        BackendMessage::DataRow(_) => if g.pending is Some {
            c is Pending
        } else {
            c is Unexpected
        },
        _ => c is Pending,
    }
}

/// A tag has at most one place where its count begins.
proof fn lemma_one_count(tag: Seq<char>, a: int, b: int)
    requires
        has_count(tag, a),
        has_count(tag, b),
    ensures
        a == b,
{
    if a < b {
        assert('0' <= tag[b] <= '9');
    } else if b < a {
        assert('0' <= tag[a] <= '9');
    }
}

fn verb(tag: &str) -> (r: String)
    ensures
        r@ == tag_verb(tag@),
{
    let cs = text::chars(tag);
    let size: usize = cs.len();
    let mut i: usize = size;
    while i > 0 && '0' <= cs[i - 1] && cs[i - 1] <= '9'
        invariant
            i <= size == cs@.len(),
            cs@ == tag@,
            forall|k: int| i <= k < size ==> '0' <= #[trigger] cs@[k] <= '9',
        decreases i,
    {
        i -= 1;
    }
    if 0 < i && i < size && cs[i - 1] == ' ' {
        proof {
            assert(has_count(tag@, i - 1));
            lemma_one_count(tag@, i - 1, choose|at: int| has_count(tag@, at));
            assert(tag@.take(i - 1) =~= cs@.subrange(0, i - 1));
        }
        let head = text::slice_chars(&cs, 0, i - 1);
        return text::from_chars(head.as_slice());
    }
    proof {
        assert forall|at: int| !has_count(tag@, at) by {
            if has_count(tag@, at) {
                if at < i - 1 {
                    assert('0' <= tag@[i - 1] <= '9');
                } else if at >= i {
                    assert('0' <= cs@[at] <= '9');
                }
            }
        }
    }
    tag.to_owned()
}

impl ResultCollector {
    pub fn new() -> (r: ResultCollector)
        ensures
            r@ == (Gathered { pending: None, out: Seq::empty() }),
    {
        let r = ResultCollector { pending: None, out: Vec::new() };
        proof {
            assert(result_views(r.out@) =~= Seq::<ResultView>::empty());
        }
        r
    }

    /// Takes the next message. A backend
    /// may interleave benign asynchronous messages — a reported setting, a
    /// notice, or a `LISTEN` notification — which are ignored, not treated as
    /// an error.
    pub fn on_message(&mut self, message: BackendMessage) -> (r: Collected)
        ensures
            final(self)@ == gathered(old(self)@, message),
            leads_to(old(self)@, message, r),
    {
        let ghost before = self@;
        let ghost out_before = self.out@;
        match message {
            BackendMessage::RowDescription(fields) => {
                self.pending = Some((fields, Vec::new()));
                Collected::Pending
            },
            BackendMessage::DataRow(row) => {
                let mut pending = None;
                std::mem::swap(&mut pending, &mut self.pending);
                match pending {
                    Some((schema, rows)) => {
                        let mut rows = rows;
                        rows.push(row);
                        self.pending = Some((schema, rows));
                        Collected::Pending
                    },
                    None => Collected::Unexpected,
                }
            },
            BackendMessage::CommandComplete(tag) => {
                let mut pending = None;
                std::mem::swap(&mut pending, &mut self.pending);
                let result = match pending {
                    Some((schema, rows)) => BackendResult::Rows {
                        schema,
                        rows,
                        command_tag: Some(verb(tag.as_str())),
                    },
                    // The verbatim backend command tag, kept as its raw string.
                    None => BackendResult::Command { tag },
                };
                self.out.push(result);
                proof {
                    assert(result_views(self.out@) =~= result_views(out_before).push(result@));
                }
                Collected::Pending
            },
            BackendMessage::EmptyQueryResponse => {
                self.out.push(BackendResult::Empty);
                proof {
                    assert(result_views(self.out@) =~= result_views(out_before).push(
                        ResultView::Empty,
                    ));
                }
                Collected::Pending
            },
            BackendMessage::ReadyForQuery => {
                let mut out: Vec<BackendResult> = Vec::new();
                std::mem::swap(&mut out, &mut self.out);
                proof {
                    assert(result_views(self.out@) =~= Seq::<ResultView>::empty());
                }
                Collected::Ready(out)
            },
            BackendMessage::ErrorResponse(code, message) => Collected::Failed(code, message),
            BackendMessage::Asynchronous => Collected::Pending,
            BackendMessage::Other => Collected::Unexpected,
        }
    }
}

// ---------------------------------------------------------------------------------------
// What is encoded can be read.
// ---------------------------------------------------------------------------------------

proof fn lemma_row_data_front(cells: Seq<Option<Seq<char>>>)
    requires
        cells.len() > 0,
    ensures
        row_data(cells) == results::text_cell(cells[0]) + row_data(cells.drop_first()),
    decreases cells.len(),
{
    if cells.len() == 1 {
        assert(cells.drop_last() =~= Seq::<Option<Seq<char>>>::empty());
        assert(cells.drop_first() =~= Seq::<Option<Seq<char>>>::empty());
        assert(row_data(cells) =~= results::text_cell(cells[0]) + row_data(cells.drop_first()));
    } else {
        lemma_row_data_front(cells.drop_last());
        let t = cells.drop_first();
        assert(t.drop_last() =~= cells.drop_last().drop_first());
        assert(row_data(cells) =~= results::text_cell(cells[0]) + row_data(t));
    }
}

/// Whether a cell's length can be stated.
pub open spec fn statable(value: Option<Seq<char>>) -> bool {
    value is Some ==> encode_utf8(value->0).len() <= i32::MAX
}

pub open spec fn cell_bytes(value: Option<Seq<char>>) -> Option<Seq<u8>> {
    match value {
        Some(s) => Some(encode_utf8(s)),
        None => None,
    }
}

proof fn lemma_null_length()
    ensures
        bytes::be_value(seq![0xffu8, 0xffu8, 0xffu8, 0xffu8]) == 0xffff_ffff,
{
    let a = seq![0xffu8];
    let b = seq![0xffu8, 0xffu8];
    let c = seq![0xffu8, 0xffu8, 0xffu8];
    let d = seq![0xffu8, 0xffu8, 0xffu8, 0xffu8];
    assert(a.drop_last() =~= Seq::<u8>::empty());
    assert(b.drop_last() =~= a);
    assert(c.drop_last() =~= b);
    assert(d.drop_last() =~= c);
    assert(bytes::be_value(a.drop_last()) == 0);
    assert(bytes::be_value(a) == 0xff);
    assert(bytes::be_value(b) == 0xffff);
    assert(bytes::be_value(c) == 0xff_ffff);
}

proof fn lemma_cells_read_back(b: Seq<u8>, at: int, cells: Seq<Option<Seq<char>>>, idx: nat)
    requires
        0 <= at <= b.len(),
        b.skip(at) == row_data(cells),
        idx < cells.len(),
        forall|k: int| 0 <= k < cells.len() ==> statable(#[trigger] cells[k]),
    ensures
        results::cell_from(b, at, idx) == Some(cell_bytes(cells[idx as int])),
    decreases idx,
{
    lemma_row_data_front(cells);
    let front = results::text_cell(cells[0]);
    let rest = row_data(cells.drop_first());
    let lead = b.subrange(at, at + 4);
    assert(statable(cells[0]));
    assert(b.skip(at).len() == b.len() - at);
    assert(b.skip(at).len() == front.len() + rest.len());
    bytes::lemma_pow256();
    match cells[0] {
        Some(s) => {
            let e = encode_utf8(s);
            let head = bytes::be(e.len() % 0x1_0000_0000, 4);
            assert(e.len() % 0x1_0000_0000 == e.len());
            bytes::lemma_be_value(e.len(), 4);
            assert(b.len() == at + 4 + e.len() + rest.len());
            assert(lead =~= head) by {
                assert forall|k: int| 0 <= k < 4 implies lead[k] == head[k] by {
                    assert(b.skip(at)[k] == head[k]);
                }
            }
            assert(b.subrange(at + 4, at + 4 + e.len()) =~= e) by {
                assert forall|k: int| 0 <= k < e.len() implies b[at + 4 + k] == e[k] by {
                    assert(b.skip(at)[4 + k] == e[k]);
                }
            }
            assert(b.skip(at + 4 + e.len()) =~= rest) by {
                assert forall|k: int| 0 <= k < rest.len() implies b[at + 4 + e.len() + k]
                    == rest[k] by {
                    assert(b.skip(at)[4 + e.len() + k] == rest[k]);
                }
            }
            if idx > 0 {
                lemma_cells_read_back(b, at + 4 + e.len(), cells.drop_first(), (idx - 1) as nat);
            }
        },
        None => {
            lemma_null_length();
            assert(b.len() == at + 4 + rest.len());
            assert(lead =~= front) by {
                assert forall|k: int| 0 <= k < 4 implies lead[k] == front[k] by {
                    assert(b.skip(at)[k] == front[k]);
                }
            }
            assert(b.skip(at + 4) =~= rest) by {
                assert forall|k: int| 0 <= k < rest.len() implies b[at + 4 + k] == rest[k] by {
                    assert(b.skip(at)[4 + k] == rest[k]);
                }
            }
            if idx > 0 {
                lemma_cells_read_back(b, at + 4, cells.drop_first(), (idx - 1) as nat);
            }
        },
    }
}

/// A row gives back the cells that were encoded into it, NULL as NULL and a text as its
/// bytes, as long as each cell's length can be stated.
pub proof fn law_encoded_cells_read_back(row: DataRow, cells: Seq<Option<Seq<char>>>, idx: int)
    requires
        encodes(row, cells),
        0 <= idx < cells.len(),
        forall|k: int| 0 <= k < cells.len() ==> statable(#[trigger] cells[k]),
    ensures
        results::cell(row, idx) == Some(cell_bytes(cells[idx])),
{
    assert(row.data@.skip(0) =~= row.data@);
    lemma_cells_read_back(row.data@, 0, cells, idx as nat);
}

/// What a row-returning statement answers is what the backend described and sent: the
/// columns, the rows in their order, and the tag without its count.
pub proof fn law_rows_are_relayed(g: Gathered, fields: Vec<Field>, rows: Seq<DataRow>, tag: String)
    requires
        g.pending == Some((results::field_views(fields@), rows)),
    ensures
        gathered(g, BackendMessage::CommandComplete(tag)).out == g.out.push(
            ResultView::Rows {
                schema: results::field_views(fields@),
                rows,
                command_tag: Some(tag_verb(tag@)),
            },
        ),
        gathered(g, BackendMessage::CommandComplete(tag)).pending is None,
{
}

/// A connection is opened at the endpoint, to the database, with the credentials that it is
/// asked for; it is read-only exactly where that is asked.
pub proof fn law_connections_go_where_they_are_asked(
    c: ConnectConfig,
    creds: Backend,
    endpoint: Endpoint,
    database: Seq<char>,
    read_only: bool,
)
    requires
        connects(c, creds, endpoint, database, read_only),
    ensures
        c.host == endpoint.host,
        c.port == endpoint.port,
        c.user == creds.user,
        c.password == creds.password,
        c.dbname@ == database,
        c.options is Some <==> read_only,
        read_only ==> c.options->0@ == "-c default_transaction_read_only=on"@,
{
}

/// Each message adds what it says: a description starts the rows anew, a row is put behind
/// those before it, and the last count stands.
pub proof fn law_messages_add_up(messages: Seq<QueryMessage>, n: nat)
    requires
        n < messages.len(),
    ensures
        said(messages, 0).columns is None,
        said(messages, 0).rows.len() == 0,
        said(messages, 0).affected == 0,
        match messages[n as int] {
            QueryMessage::RowDescription(cols) => {
                &&& said(messages, n + 1).columns == Some(text::views(cols@))
                &&& said(messages, n + 1).rows.len() == 0
                &&& said(messages, n + 1).affected == said(messages, n).affected
            },
            QueryMessage::Row(cells) => {
                &&& said(messages, n + 1).columns == said(messages, n).columns
                &&& said(messages, n + 1).rows == said(messages, n).rows.push(cell_views(cells@))
                &&& said(messages, n + 1).affected == said(messages, n).affected
            },
            QueryMessage::CommandComplete(count) => {
                &&& said(messages, n + 1).columns == said(messages, n).columns
                &&& said(messages, n + 1).rows == said(messages, n).rows
                &&& said(messages, n + 1).affected == count
            },
            QueryMessage::Other => said(messages, n + 1) == said(messages, n),
        },
{
}

/// A text-mode column keeps its name, and is sent as text.
pub proof fn law_text_columns_keep_their_names(columns: Seq<Seq<char>>, i: int)
    requires
        0 <= i < columns.len(),
    ensures
        text_fields(columns).len() == columns.len(),
        text_fields(columns)[i].name == columns[i],
        text_fields(columns)[i].type_oid == 1043,
        text_fields(columns)[i].format is Text,
        text_fields(columns)[i].origin.table is None,
        text_fields(columns)[i].origin.column is None,
{
}

/// The keyword of a statement is its first word: white space before it does not count, and it
/// ends at white space, at a bracket or at a semicolon.
pub proof fn law_the_keyword_is_the_first_word(
    space: Seq<char>,
    word: Seq<char>,
    end: char,
    rest: Seq<char>,
)
    requires
        forall|i: int| 0 <= i < space.len() ==> text::whitespace(#[trigger] space[i]),
        forall|i: int|
            0 <= i < word.len() ==> !text::whitespace(#[trigger] word[i]) && word[i] != '('
                && word[i] != ';',
        text::whitespace(end) || end == '(' || end == ';',
        word.len() > 0,
    ensures
        keyword(space + word + seq![end] + rest) == uppercase_text(word),
        keyword(space + word) == uppercase_text(word),
        keyword(space) == "OK"@,
{
    let tail = word + seq![end] + rest;
    assert(space + word + seq![end] + rest =~= space + tail);
    lemma_trimmed_start(space, tail);
    lemma_trimmed_start(space, word);
    lemma_trimmed_start(space, Seq::empty());
    assert(space + Seq::<char>::empty() =~= space);
    assert(tail[0] == word[0]);
    lemma_leading_word(tail, word.len() as int);
    assert(tail.take(word.len() as int) =~= word);
    lemma_leading_word(word, word.len() as int);
    assert(word.take(word.len() as int) =~= word);
    assert(leading_word(Seq::<char>::empty()).len() == 0);
}

proof fn lemma_trimmed_start(space: Seq<char>, rest: Seq<char>)
    requires
        forall|i: int| 0 <= i < space.len() ==> text::whitespace(#[trigger] space[i]),
        rest.len() > 0 ==> !text::whitespace(rest[0]),
    ensures
        text::trim_start(space + rest) == rest,
    decreases space.len(),
{
    if space.len() == 0 {
        assert(space + rest =~= rest);
    } else {
        assert((space + rest).drop_first() =~= space.drop_first() + rest);
        assert(text::whitespace(space[0]));
        lemma_trimmed_start(space.drop_first(), rest);
    }
}

/// A command tag is its verb and its count: the count can be taken off again, and an insert
/// states the zero object id before it.
pub proof fn law_command_tags_carry_their_count(word: Seq<char>, affected: u64)
    ensures
        word != "INSERT"@ ==> tag_verb(text_tag(word, affected)) == word,
        word == "INSERT"@ ==> tag_verb(text_tag(word, affected)) == "INSERT 0"@,
        word != "INSERT"@ ==> text_tag(word, affected) == word + seq![' '] + text::decimal(
            affected as int,
        ),
        word == "INSERT"@ ==> text_tag(word, affected) == "INSERT 0"@ + seq![' ']
            + text::decimal(affected as int),
{
    reveal_strlit(" ");
    reveal_strlit("INSERT 0 ");
    reveal_strlit("INSERT 0");
    let d = text::decimal(affected as int);
    assert(" "@ =~= seq![' ']);
    assert("INSERT 0 "@ =~= "INSERT 0"@ + seq![' ']);
    text::lemma_numeral_value(affected as nat, 10);
    assert forall|i: int| 0 <= i < d.len() implies '0' <= #[trigger] d[i] <= '9' by {
        assert(text::digit_value(d[i]) < 10);
    }
    law_counts_are_taken_off(word, d);
    law_counts_are_taken_off("INSERT 0"@, d);
}

/// A count at the end of a tag is taken off; a tag without one is kept.
pub proof fn law_counts_are_taken_off(head: Seq<char>, digits: Seq<char>)
    requires
        forall|i: int| 0 <= i < digits.len() ==> '0' <= #[trigger] digits[i] <= '9',
    ensures
        digits.len() > 0 ==> tag_verb(head + seq![' '] + digits) == head,
        (forall|i: int| 0 <= i < head.len() ==> head[i] != ' ') ==> tag_verb(head) == head,
        head.len() > 0 && !('0' <= head.last() && head.last() <= '9') ==> tag_verb(head) == head,
{
    let tag = head + seq![' '] + digits;
    if digits.len() > 0 {
        assert forall|k: int| head.len() < k < tag.len() implies '0' <= #[trigger] tag[k]
            <= '9' by {
            assert(tag[k] == digits[k - head.len() - 1]);
        }
        assert(has_count(tag, head.len() as int));
        lemma_one_count(tag, head.len() as int, choose|at: int| has_count(tag, at));
        assert(tag.take(head.len() as int) =~= head);
    }
    if exists|at: int| has_count(head, at) {
        let at = choose|at: int| has_count(head, at);
        assert(head[at] == ' ');
        assert('0' <= head[head.len() - 1] <= '9');
    }
}

/// The rows of a described result are kept in the order in which they come, and an answer
/// without rows keeps its tag as it is.
pub proof fn law_answers_are_gathered_in_order(
    g: Gathered,
    fields: Vec<Field>,
    a: DataRow,
    b: DataRow,
    tag: String,
)
    requires
        g.pending is None,
    ensures
        ({
            let described = gathered(g, BackendMessage::RowDescription(fields));
            let one = gathered(described, BackendMessage::DataRow(a));
            let two = gathered(one, BackendMessage::DataRow(b));
            &&& described.out == g.out
            &&& two.out == g.out
            &&& two.pending == Some((results::field_views(fields@), seq![a, b]))
            &&& gathered(two, BackendMessage::EmptyQueryResponse).pending == two.pending
        }),
        gathered(g, BackendMessage::CommandComplete(tag)).out == g.out.push(
            ResultView::Command { tag: tag@ },
        ),
        gathered(g, BackendMessage::EmptyQueryResponse).out == g.out.push(ResultView::Empty),
        gathered(g, BackendMessage::ReadyForQuery).out.len() == 0,
{
    assert(Seq::empty().push(a).push(b) =~= seq![a, b]);
}

/// A query is answered when the backend is ready, with all that it sent; its error is
/// relayed as it stands, and a row that no description announced is not taken.
pub proof fn law_answers_are_given_when_ready(
    g: Gathered,
    c: Collected,
    code: String,
    message: String,
    row: DataRow,
)
    ensures
        leads_to(g, BackendMessage::ReadyForQuery, c) <==> (c matches Collected::Ready(rs)
            && result_views(rs@) == g.out),
        leads_to(g, BackendMessage::ErrorResponse(code, message), c) <==> c
            == Collected::Failed(code, message),
        g.pending is None ==> (leads_to(g, BackendMessage::DataRow(row), c) <==> c is Unexpected),
        g.pending is Some ==> (leads_to(g, BackendMessage::DataRow(row), c) <==> c is Pending),
        leads_to(g, BackendMessage::Other, c) <==> c is Unexpected,
{
}

} // verus!
