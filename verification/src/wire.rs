//! The PostgreSQL wire frontend's decisions: what a submitted query does, and what is
//! answered from what the backends returned.
//!
//! The simple-query protocol is handled for statements that route
//! to a single target — a shard database, the system database, or a session-local
//! statement (which runs on any shard so `SELECT 1`/`SHOW` return real rows) — and for
//! scatter reads that can be concatenated or merged.
//!
//! What is not supported is never mis-handled: multi-statement queries,
//! broadcasts, parameterized simple queries, and transaction control
//! (which would silently autocommit across per-query connections) are rejected
//! with a clear SQLSTATE.
use crate::ast::{ConstValue, Node, Parsed, SelectStmt, SortBy, SortDir, SortNulls, StatementKind};
use crate::backend::{self, Backend, BackendResult, ResultView};
use crate::merge::{self, FloatRank, SortColumn, SortKey};
use crate::plan;
use crate::reserve::{self, SeqError};
use crate::results::{self, DataRow, Fault, Field, FieldView, WireError};
use crate::router::{self, Endpoint, Route, RouteView, Router, Target, TargetView};
use crate::sequence::{
    self, InjectedColumn, InsertEdit, RewriteError, SequenceInjection,
};
use crate::text;
use vstd::prelude::*;
use vstd::string::*;

verus! {

// ---------------------------------------------------------------------------------------
// Scatter reads.
// ---------------------------------------------------------------------------------------

/// How a scatter read is merged back into one result.
#[derive(Debug, PartialEq, Eq)]
pub enum ScatterPlan {
    /// Concatenate every shard's rows in any order.
    Concat,
    /// Merge every shard's (locally sorted) rows by these sort keys.
    Ordered(Vec<SortKey>),
    /// Needs limiting, grouping, or aggregation the router does not do.
    Unsupported,
}

/// What a plan says.
#[verifier::ext_equal]
pub enum ScatterView {
    Concat,
    Ordered(Seq<SortKey>),
    Unsupported,
}

impl View for ScatterPlan {
    type V = ScatterView;

    open spec fn view(&self) -> ScatterView {
        match self {
            ScatterPlan::Concat => ScatterView::Concat,
            ScatterPlan::Ordered(keys) => ScatterView::Ordered(keys@),
            ScatterPlan::Unsupported => ScatterView::Unsupported,
        }
    }
}

/// A target whose value is a bare column reference (which also covers `*`),
/// not an aggregate or expression.
pub open spec fn plain_column(n: Node) -> bool {
    match n {
        Node::Target(t) => match t.val {
            Some(Node::Column(_)) => true,
            _ => false,
        },
        _ => false,
    }
}

/// A target whose value is a bare column reference (which also covers `*`),
/// not an aggregate or expression.
pub fn is_plain_column_target(n: &Node) -> (r: bool)
    ensures
        r == plain_column(*n),
{
    match n {
        Node::Target(t) => match &t.val {
            Some(Node::Column(_)) => true,
            _ => false,
        },
        _ => false,
    }
}

/// Whether the rows of a select can be put together without more than a merge: it is no set
/// operation, has no WITH clause (which can shadow a table
/// name and so duplicate rows), no locking clause, no INTO,
/// no GROUP BY / HAVING / DISTINCT / LIMIT / OFFSET, and only plain columns in its output.
pub open spec fn plain_projection(s: SelectStmt) -> bool {
    &&& !s.set_operation
    &&& s.with_clause is None
    &&& !s.into_clause
    &&& s.locking_clause@.len() == 0
    &&& s.group_clause@.len() == 0
    &&& s.having_clause is None
    &&& s.distinct_clause@.len() == 0
    &&& !s.group_distinct
    &&& s.limit_count is None
    &&& s.limit_offset is None
    &&& s.target_list@.len() > 0
    &&& forall|i: int| 0 <= i < s.target_list@.len() ==> plain_column(#[trigger] s.target_list@[i])
}

fn is_plain_projection(s: &SelectStmt) -> (r: bool)
    ensures
        r == plain_projection(*s),
{
    if s.set_operation || s.with_clause.is_some() || s.into_clause || s.locking_clause.len() > 0
        || s.group_clause.len() > 0 || s.having_clause.is_some() || s.distinct_clause.len() > 0
        || s.group_distinct || s.limit_count.is_some() || s.limit_offset.is_some()
        || s.target_list.len() == 0 {
        return false;
    }
    let mut i: usize = 0;
    while i < s.target_list.len()
        invariant
            i <= s.target_list@.len(),
            forall|k: int| 0 <= k < i ==> plain_column(#[trigger] s.target_list@[k]),
        decreases s.target_list@.len() - i,
    {
        if !is_plain_column_target(&s.target_list[i]) {
            assert(!plain_column(s.target_list@[i as int]));
            return false;
        }
        i += 1;
    }
    true
}

/// The output column a sort item names, where it names one.
pub open spec fn sorted_column(sb: SortBy) -> Option<SortColumn> {
    match sb.node {
        Some(Node::Column(fields)) => if fields@.len() == 1 {
            match fields@[0] {
                Node::Name(s) => Some(SortColumn::Name(s)),
                _ => None,
            }
        } else {
            None
        },
        Some(Node::Const(c)) => match c.val {
            Some(ConstValue::Integer(i)) => if i >= 1 {
                Some(SortColumn::Position(i as usize))
            } else {
                None
            },
            _ => None,
        },
        _ => None,
    }
}

/// The output column a sort item names — by unqualified name (`ORDER BY note`) or
/// 1-based position (`ORDER BY 2`) — or `None` for anything the merge cannot
/// soundly resolve to one output column.
///
/// A qualified reference (`ORDER BY t.note`) is deliberately rejected. It names a
/// *source* column, which each shard sorts by, but the merge can only resolve
/// names against the *output* schema — and a bare trailing name (`note`) may there
/// alias a different column, so merging on it would reorder rows wrongly. An
/// unqualified name is safe because PostgreSQL binds it to the output column of
/// that name first, which is exactly what the merge resolves.
pub fn sort_column(sb: &SortBy) -> (r: Option<SortColumn>)
    ensures
        r == sorted_column(*sb),
{
    match &sb.node {
        Some(Node::Column(fields)) => {
            if fields.len() != 1 {
                return None;
            }
            match &fields[0] {
                Node::Name(s) => Some(SortColumn::Name(s.clone())),
                _ => None,
            }
        },
        Some(Node::Const(c)) => match &c.val {
            Some(ConstValue::Integer(i)) => {
                if *i >= 1 {
                    Some(SortColumn::Position(*i as usize))
                } else {
                    None
                }
            },
            _ => None,
        },
        _ => None,
    }
}

pub open spec fn nulls_come_first(nulls: SortNulls, descending: bool) -> bool {
    match nulls {
        SortNulls::First => true,
        SortNulls::Last => false,
        SortNulls::Default => descending,
    }
}

/// Whether NULLs sort first for this item. PostgreSQL's default is NULLS LAST for
/// ascending and NULLS FIRST for descending — unless the query states otherwise.
pub fn nulls_first(sb: &SortBy, descending: bool) -> (r: bool)
    ensures
        r == nulls_come_first(sb.nulls, descending),
{
    match sb.nulls {
        SortNulls::First => true,
        SortNulls::Last => false,
        SortNulls::Default => descending,
    }
}

/// The sort key of an `ORDER BY` item, where the merge can honor it. A custom `USING <op>`
/// ordering cannot be proven sound against a decoded
/// comparison, and an expression sort key resolves to no output column.
pub open spec fn sort_key(n: Node) -> Option<SortKey> {
    match n {
        Node::SortBy(sb) => if sb.dir == SortDir::Using {
            None
        } else {
            match sorted_column(*sb) {
                Some(column) => Some(
                    SortKey {
                        column,
                        descending: sb.dir == SortDir::Desc,
                        nulls_first: nulls_come_first(sb.nulls, sb.dir == SortDir::Desc),
                    },
                ),
                None => None,
            }
        },
        _ => None,
    }
}

/// The sort keys of the first `n` items, where the merge can honor all of them.
pub open spec fn sort_keys(items: Seq<Node>, n: nat) -> Option<Seq<SortKey>>
    decreases n,
{
    if n == 0 {
        Some(Seq::empty())
    } else {
        match sort_keys(items, (n - 1) as nat) {
            None => None,
            Some(ks) => match sort_key(items[n - 1]) {
                None => None,
                Some(k) => Some(ks.push(k)),
            },
        }
    }
}

/// How a scatter read is merged.
pub open spec fn scatter_of(parsed: Parsed) -> ScatterView {
    if parsed.stmts@.len() != 1 {
        ScatterView::Unsupported
    } else {
        match parsed.stmts@[0] {
            Some(Node::Select(s)) => if !plain_projection(*s) {
                ScatterView::Unsupported
            } else if s.sort_clause@.len() == 0 {
                ScatterView::Concat
            } else {
                match sort_keys(s.sort_clause@, s.sort_clause@.len()) {
                    Some(keys) => ScatterView::Ordered(keys),
                    None => ScatterView::Unsupported,
                }
            },
            _ => ScatterView::Unsupported,
        }
    }
}

proof fn lemma_sort_keys_stop(items: Seq<Node>, n: nat, m: nat)
    requires
        n <= m,
        sort_keys(items, n) is None,
    ensures
        sort_keys(items, m) is None,
    decreases m,
{
    if n < m {
        lemma_sort_keys_stop(items, n, (m - 1) as nat);
    }
}

fn item_key(n: &Node) -> (r: Option<SortKey>)
    ensures
        r == sort_key(*n),
{
    match n {
        Node::SortBy(sb) => {
            if sb.dir == SortDir::Using {
                return None;
            }
            let descending: bool = sb.dir == SortDir::Desc;
            match sort_column(sb) {
                Some(column) => Some(
                    SortKey { column, descending, nulls_first: nulls_first(sb, descending) },
                ),
                None => None,
            }
        },
        _ => None,
    }
}

/// Classify a scatter read into its merge strategy. A plain projection with no
/// ORDER BY concatenates; a plain projection ordered only by resolvable columns
/// merges; everything else (LIMIT/OFFSET, GROUP BY, DISTINCT, aggregates, set
/// operations, a WITH/locking clause, a non-column output, or an ORDER BY the
/// merge cannot honor) is unsupported and rejected.
pub fn classify_scatter(parsed: &Parsed) -> (r: ScatterPlan)
    ensures
        r@ == scatter_of(*parsed),
{
    if parsed.stmts.len() != 1 {
        return ScatterPlan::Unsupported;
    }
    let s = match &parsed.stmts[0] {
        Some(Node::Select(s)) => s,
        _ => {
            return ScatterPlan::Unsupported;
        },
    };
    if !is_plain_projection(s) {
        return ScatterPlan::Unsupported;
    }
    if s.sort_clause.len() == 0 {
        return ScatterPlan::Concat;
    }
    let mut keys: Vec<SortKey> = Vec::new();
    let mut i: usize = 0;
    while i < s.sort_clause.len()
        invariant
            i <= s.sort_clause@.len(),
            s.sort_clause@.len() > 0,
            parsed.stmts@.len() == 1,
            parsed.stmts@[0] == Some(Node::Select(*s)),
            plain_projection(**s),
            sort_keys(s.sort_clause@, i as nat) == Some(keys@),
        decreases s.sort_clause@.len() - i,
    {
        match item_key(&s.sort_clause[i]) {
            Some(k) => {
                keys.push(k);
            },
            None => {
                proof {
                    lemma_sort_keys_stop(s.sort_clause@, (i + 1) as nat, s.sort_clause@.len());
                }
                return ScatterPlan::Unsupported;
            },
        }
        i += 1;
    }
    ScatterPlan::Ordered(keys)
}

/// Whether two result schemas describe the same columns: count, name, type, and
/// wire format. The type is load-bearing on the verbatim backend, which reports
/// real OIDs — two shards with a same-named column of different types (e.g. a
/// non-atomic DDL still rolling out) must not have one shard's rows emitted under
/// the other's type.
pub fn schemas_match(a: &Vec<Field>, b: &Vec<Field>) -> (r: bool)
    ensures
        r == (results::shapes(results::field_views(a@)) == results::shapes(
            results::field_views(b@),
        )),
{
    let ghost x = results::shapes(results::field_views(a@));
    let ghost y = results::shapes(results::field_views(b@));
    if a.len() != b.len() {
        assert(x.len() != y.len());
        return false;
    }
    let mut i: usize = 0;
    while i < a.len()
        invariant
            i <= a@.len() == b@.len(),
            x == results::shapes(results::field_views(a@)),
            y == results::shapes(results::field_views(b@)),
            forall|k: int| 0 <= k < i ==> #[trigger] x[k] == y[k],
        decreases a@.len() - i,
    {
        if !text::same(a[i].name.as_str(), b[i].name.as_str()) || a[i].type_oid != b[i].type_oid
            || a[i].format != b[i].format {
            assert(x[i as int] != y[i as int]);
            return false;
        }
        i += 1;
    }
    proof {
        assert(x =~= y);
    }
    true
}

pub open spec fn drift() -> Fault {
    results::fault(
        "0A000"@,
        "shards returned different result schemas; a schema change may be mid-rollout"@,
    )
}

/// What has been collected: the agreed schema, once a shard has returned rows, and the rows.
#[verifier::ext_equal]
pub struct Collection {
    pub schema: Option<Seq<FieldView>>,
    pub rows: Seq<DataRow>,
}

/// A collection with one more result.
pub open spec fn with_result(c: Collection, r: ResultView) -> Result<Collection, Fault> {
    match r {
        ResultView::Rows { schema, rows, command_tag } => match c.schema {
            Some(first) => if results::shapes(first) == results::shapes(schema) {
                Ok(Collection { schema: c.schema, rows: c.rows + rows })
            } else {
                Err(drift())
            },
            None => Ok(Collection { schema: Some(schema), rows: c.rows + rows }),
        },
        _ => Ok(c),
    }
}

/// A collection with the first `n` results of a shard.
pub open spec fn with_results(c: Collection, rs: Seq<BackendResult>, n: nat) -> Result<
    Collection,
    Fault,
>
    decreases n,
{
    if n == 0 {
        Ok(c)
    } else {
        match with_results(c, rs, (n - 1) as nat) {
            Err(f) => Err(f),
            Ok(d) => with_result(d, rs[n - 1]@),
        }
    }
}

/// What the first `n` shards' answers make. The
/// first shard error fails the whole scatter — a partial result set would be
/// silently wrong.
pub open spec fn collected(answers: Seq<Result<Vec<BackendResult>, WireError>>, n: nat) -> Result<
    Collection,
    Fault,
>
    decreases n,
{
    if n == 0 {
        Ok(Collection { schema: None, rows: Seq::empty() })
    } else {
        match collected(answers, (n - 1) as nat) {
            Err(f) => Err(f),
            Ok(c) => match answers[n - 1] {
                Err(e) => Err(e@),
                Ok(rs) => with_results(c, rs@, rs@.len()),
            },
        }
    }
}

proof fn lemma_results_stop(c: Collection, rs: Seq<BackendResult>, n: nat, m: nat)
    requires
        n <= m,
        with_results(c, rs, n) is Err,
    ensures
        with_results(c, rs, m) == with_results(c, rs, n),
    decreases m,
{
    if n < m {
        lemma_results_stop(c, rs, n, (m - 1) as nat);
    }
}

proof fn lemma_collected_stop(
    answers: Seq<Result<Vec<BackendResult>, WireError>>,
    n: nat,
    m: nat,
)
    requires
        n <= m,
        collected(answers, n) is Err,
    ensures
        collected(answers, m) == collected(answers, n),
    decreases m,
{
    if n < m {
        lemma_collected_stop(answers, n, (m - 1) as nat);
    }
}

pub open spec fn schema_view(s: Option<Vec<Field>>) -> Option<Seq<FieldView>> {
    match s {
        Some(s) => Some(results::field_views(s@)),
        None => None,
    }
}

pub open spec fn collection(schema: Option<Vec<Field>>, rows: Seq<DataRow>) -> Collection {
    Collection { schema: schema_view(schema), rows }
}

/// Adds a shard's results to what has been collected.
fn add_results(
    schema: &mut Option<Vec<Field>>,
    rows: &mut Vec<DataRow>,
    shard: Vec<BackendResult>,
) -> (r: Result<(), WireError>)
    ensures
        match with_results(collection(*old(schema), old(rows)@), shard@, shard@.len()) {
            Ok(c) => r is Ok && c == collection(*final(schema), final(rows)@),
            Err(f) => results::refuses(r, f),
        },
{
    let ghost start = collection(*schema, rows@);
    let ghost all = shard@;
    let mut left = shard;
    let count: usize = left.len();
    let mut n: usize = 0;
    proof {
        assert(left@ =~= all.skip(0));
    }
    while n < count
        invariant
            n <= count == all.len(),
            all == shard@,
            start == collection(*old(schema), old(rows)@),
            left@ == all.skip(n as int),
            with_results(start, all, n as nat) == Ok::<Collection, Fault>(
                collection(*schema, rows@),
            ),
        decreases count - n,
    {
        let result = left.remove(0);
        proof {
            assert(result == all[n as int]);
            assert(all.skip(n as int).remove(0) =~= all.skip(n + 1));
        }
        match result {
            BackendResult::Rows { schema: shard_schema, rows: shard_rows, command_tag: _ } => {
                let matched: bool = match &*schema {
                    Some(first) => schemas_match(first, &shard_schema),
                    None => true,
                };
                // Shards must agree on the result shape (count, name, type). A
                // mismatch (e.g. a non-atomic broadcast DDL still rolling out)
                // would otherwise emit rows under the wrong schema — fail the
                // scatter instead.
                if !matched {
                    proof {
                        lemma_results_stop(start, all, (n + 1) as nat, all.len());
                    }
                    return Err(
                        results::user_error(
                            "0A000",
                            "shards returned different result schemas; a schema change may be mid-rollout".to_owned(),
                        ),
                    );
                }
                if schema.is_none() {
                    *schema = Some(shard_schema);
                }
                let mut shard_rows = shard_rows;
                rows.append(&mut shard_rows);
            },
            // A scatter read is a single SELECT; a no-row result is not
            // expected, but ignoring it is safe here.
            _ => {},
        }
        n += 1;
    }
    Ok(())
}

/// Verify that the shards agree on the
/// result schema, and return the agreed schema plus every shard's rows
/// concatenated. `None` when no shard returned a row-returning result. The
/// first shard error fails the whole scatter — a partial result set would be
/// silently wrong.
pub fn collect_scatter(answers: Vec<Result<Vec<BackendResult>, WireError>>) -> (r: Result<
    Option<(Vec<Field>, Vec<DataRow>)>,
    WireError,
>)
    ensures
        match collected(answers@, answers@.len()) {
            Err(f) => results::refuses(r, f),
            Ok(c) => r is Ok && match r->Ok_0 {
                Some(p) => c.schema == Some(results::field_views(p.0@)) && c.rows == p.1@,
                None => c.schema is None,
            },
        },
{
    let ghost all = answers@;
    let mut left = answers;
    let mut schema: Option<Vec<Field>> = None;
    let mut rows: Vec<DataRow> = Vec::new();
    let count: usize = left.len();
    let mut n: usize = 0;
    proof {
        assert(left@ =~= all.skip(0));
    }
    while n < count
        invariant
            n <= count == all.len(),
            all == answers@,
            left@ == all.skip(n as int),
            collected(all, n as nat) == Ok::<Collection, Fault>(collection(schema, rows@)),
        decreases count - n,
    {
        let answer = left.remove(0);
        proof {
            assert(answer == all[n as int]);
            assert(all.skip(n as int).remove(0) =~= all.skip(n + 1));
        }
        let added = match answer {
            Ok(results) => add_results(&mut schema, &mut rows, results),
            Err(e) => Err(e),
        };
        if let Err(e) = added {
            proof {
                lemma_collected_stop(all, (n + 1) as nat, all.len());
            }
            return Err(e);
        }
        n += 1;
    }
    match schema {
        Some(schema) => Ok(Some((schema, rows))),
        None => Ok(None),
    }
}

// ---------------------------------------------------------------------------------------
// Responses.
// ---------------------------------------------------------------------------------------

/// What the client is answered.
#[derive(Debug, PartialEq, Eq)]
pub enum Response {
    EmptyQuery,
    /// No rows: the command tag.
    Execution(String),
    /// Rows. The row count is appended to the command tag (so
    /// `"INSERT 0"` becomes `"INSERT 0 n"`); `None` keeps the default `SELECT`.
    Query { schema: Vec<Field>, rows: Vec<DataRow>, command_tag: Option<String> },
}

/// Turn one backend statement result into a wire response: rows (carrying the backend's
/// schema and command-tag verb), a command
/// tag, or an empty-query response.
pub fn response_from(result: BackendResult) -> (r: Response)
    ensures
        match result {
            BackendResult::Rows { schema, rows, command_tag } => r == (Response::Query {
                schema,
                rows,
                command_tag,
            }),
            BackendResult::Command { tag } => r == Response::Execution(tag),
            BackendResult::Empty => r is EmptyQuery,
        },
{
    match result {
        BackendResult::Rows { schema, rows, command_tag } => Response::Query {
            schema,
            rows,
            command_tag,
        },
        BackendResult::Command { tag } => Response::Execution(tag),
        BackendResult::Empty => Response::EmptyQuery,
    }
}

/// Whether a response holds the columns and the rows, under the default tag.
pub open spec fn selects(r: Response, schema: Seq<FieldView>, rows: Seq<DataRow>) -> bool {
    match r {
        Response::Query { schema: s, rows: rs, command_tag } => results::field_views(s@) == schema
            && rs@ == rows && command_tag is None,
        _ => false,
    }
}

/// A plain scatter read: concatenate every shard's rows in any order (valid
/// only when the read needs no ordering — checked by the caller).
pub fn scatter_response(answers: Vec<Result<Vec<BackendResult>, WireError>>) -> (r: Result<
    Response,
    WireError,
>)
    ensures
        match collected(answers@, answers@.len()) {
            Err(f) => results::refuses(r, f),
            Ok(c) => r is Ok && match c.schema {
                // A scatter is a plain SELECT, so it keeps the default `SELECT n` tag.
                Some(schema) => selects(r->Ok_0, schema, c.rows),
                None => r->Ok_0 matches Response::Execution(tag) && tag@ == "SELECT 0"@,
            },
        },
{
    match collect_scatter(answers) {
        Ok(Some((schema, rows))) => Ok(Response::Query { schema, rows, command_tag: None }),
        Ok(None) => Ok(Response::Execution("SELECT 0".to_owned())),
        Err(e) => Err(e),
    }
}

/// The merge of collected rows, or why they cannot be merged.
pub open spec fn merges(
    r: Result<Response, WireError>,
    schema: Seq<Field>,
    rows: Seq<DataRow>,
    keys: Seq<SortKey>,
    floats: Seq<FloatRank>,
) -> bool {
    match merge::resolved_keys(schema, keys, keys.len()) {
        Err(f) => results::refuses(r, f),
        Ok(ks) => match merge::all_values(rows, ks, floats, rows.len()) {
            Err(f) => results::refuses(r, f),
            Ok(vs) => r matches Ok(
                Response::Query { schema: s, rows: rs, command_tag },
            ) && s@ == schema && merge::merged(rs@, rows, vs, ks) && command_tag is None,
        },
    }
}

/// An `ORDER BY` scatter read: each shard returns its rows already sorted (the
/// ORDER BY is forwarded unchanged), and the router merges them by decoding
/// the sort-key columns per their real type. Rejects (`0A000`) a sort key on a
/// type it cannot merge soundly.
pub fn ordered_response(
    schema: Vec<Field>,
    rows: Vec<DataRow>,
    keys: &Vec<SortKey>,
    floats: &Vec<FloatRank>,
) -> (r: Result<Response, WireError>)
    ensures
        merges(r, schema@, rows@, keys@, floats@),
{
    match merge::merge_ordered(schema.as_slice(), rows, keys.as_slice(), floats.as_slice()) {
        Ok(merged) => Ok(Response::Query { schema, rows: merged, command_tag: None }),
        Err(e) => Err(e),
    }
}

/// The command tag for a statement with no rows, derived from the leading
/// keyword.
pub fn command_tag(query: &str) -> (r: String)
    ensures
        r@ == backend::keyword(query@),
{
    backend::command_keyword(query)
}

// ---------------------------------------------------------------------------------------
// What a query does.
// ---------------------------------------------------------------------------------------

pub open spec fn controls_transaction(kind: StatementKind) -> bool {
    ||| kind == StatementKind::TxnBegin
    ||| kind == StatementKind::TxnCommit
    ||| kind == StatementKind::TxnRollback
    ||| kind == StatementKind::TxnOther
}

pub open spec fn any_controls_transaction(kinds: Seq<StatementKind>) -> bool {
    exists|i: int| 0 <= i < kinds.len() && controls_transaction(#[trigger] kinds[i])
}

/// Transaction-control statements cannot be honored while the router opens a
/// fresh backend connection per query: a `BEGIN` would silently autocommit its
/// following statements. They are rejected rather than falsely acknowledged.
///
/// Classified from the parsed statement, never from the query's leading token: a
/// leading comment (`/*x*/ BEGIN`) defeats any lexical check, and a client that
/// believes it opened a transaction while its statements autocommit is a
/// wrong-data outcome.
pub fn is_transaction_control(parsed: &Parsed) -> (r: bool)
    ensures
        r == any_controls_transaction(parsed.kinds@),
{
    let mut i: usize = 0;
    while i < parsed.kinds.len()
        invariant
            i <= parsed.kinds@.len(),
            forall|k: int| 0 <= k < i ==> !controls_transaction(#[trigger] parsed.kinds@[k]),
        decreases parsed.kinds@.len() - i,
    {
        let kind = parsed.kinds[i];
        if kind == StatementKind::TxnBegin || kind == StatementKind::TxnCommit || kind
            == StatementKind::TxnRollback || kind == StatementKind::TxnOther {
            assert(controls_transaction(parsed.kinds@[i as int]));
            return true;
        }
        i += 1;
    }
    false
}

/// Whether a statement only reads, as far as its form shows.
pub open spec fn reads(kind: StatementKind) -> bool {
    ||| kind == StatementKind::Select
    ||| kind == StatementKind::Show
    ||| kind == StatementKind::SetVariable
    ||| kind == StatementKind::Empty
}

pub open spec fn all_read(kinds: Seq<StatementKind>) -> bool {
    forall|i: int| 0 <= i < kinds.len() ==> reads(#[trigger] kinds[i])
}

fn only_reads(parsed: &Parsed) -> (r: bool)
    ensures
        r == all_read(parsed.kinds@),
{
    let mut i: usize = 0;
    while i < parsed.kinds.len()
        invariant
            i <= parsed.kinds@.len(),
            forall|k: int| 0 <= k < i ==> reads(#[trigger] parsed.kinds@[k]),
        decreases parsed.kinds@.len() - i,
    {
        let kind = parsed.kinds[i];
        if !(kind == StatementKind::Select || kind == StatementKind::Show || kind
            == StatementKind::SetVariable || kind == StatementKind::Empty) {
            assert(!reads(parsed.kinds@[i as int]));
            return false;
        }
        i += 1;
    }
    true
}

/// What a query does.
#[derive(Debug, PartialEq, Eq)]
pub enum Action {
    /// A submitted query with no statements (empty or comment-only) gets an
    /// EmptyQueryResponse, as PostgreSQL sends.
    EmptyQuery,
    /// Run the query as it stands. A read-only session has PostgreSQL itself refuse writes.
    Run { target: Target, read_only: bool },
    /// Draw one id per row for each of the sequences, fill them in, and run the query.
    Insert { target: Target, injections: Vec<SequenceInjection>, rows: usize },
    /// Run the query on every target and put the rows together, ordered by the keys where
    /// there are some.
    Scatter { targets: Vec<Target>, keys: Option<Vec<SortKey>>, read_only: bool },
    Refuse(WireError),
}

/// What an action says.
#[verifier::ext_equal]
pub enum ActionView {
    EmptyQuery,
    Run { target: TargetView, read_only: bool },
    Insert { target: TargetView, injections: Seq<(Seq<char>, Seq<char>)>, rows: nat },
    Scatter { targets: Seq<TargetView>, keys: Option<Seq<SortKey>>, read_only: bool },
    Refuse(Fault),
}

impl View for Action {
    type V = ActionView;

    open spec fn view(&self) -> ActionView {
        match self {
            Action::EmptyQuery => ActionView::EmptyQuery,
            Action::Run { target, read_only } => ActionView::Run {
                target: target@,
                read_only: *read_only,
            },
            Action::Insert { target, injections, rows } => ActionView::Insert {
                target: target@,
                injections: sequence::injection_views(injections@),
                rows: *rows as nat,
            },
            Action::Scatter { targets, keys, read_only } => ActionView::Scatter {
                targets: router::target_views(targets@),
                keys: match keys {
                    Some(ks) => Some(ks@),
                    None => None,
                },
                read_only: *read_only,
            },
            Action::Refuse(e) => ActionView::Refuse(e@),
        }
    }
}

pub open spec fn refuse(code: Seq<char>, message: Seq<char>) -> ActionView {
    ActionView::Refuse(results::fault(code, message))
}

/// What the router brings to a query: whether ids can be allocated, and whether the topology
/// view has outlived the write lease.
#[derive(Debug, Clone, Copy, PartialEq, Eq, Structural)]
pub struct Session {
    pub sequences: bool,
    pub stale: bool,
}

/// Running the query at the target, unless it may write while the view is stale.
pub open spec fn run(parsed: Parsed, target: TargetView, session: Session) -> ActionView {
    if session.stale && !all_read(parsed.kinds@) {
        refuse(
            "57P01"@,
            "the router's topology view is older than its write lease; writes are refused until it is confirmed"@,
        )
    } else {
        ActionView::Run { target, read_only: session.stale }
    }
}

/// The first statement, where there is one.
pub open spec fn first_statement(parsed: Parsed) -> Option<Node> {
    if parsed.stmts@.len() > 0 {
        parsed.stmts@[0]
    } else {
        None
    }
}

/// What the router fills into the query.
pub open spec fn filled(parsed: Parsed, r: Router) -> Seq<(Seq<char>, Seq<char>)> {
    match first_statement(parsed) {
        Some(n) => sequence::injections(n, r.vschema),
        None => Seq::empty(),
    }
}

/// The number of `VALUES` rows of the query.
pub open spec fn filled_rows(parsed: Parsed) -> nat {
    match first_statement(parsed) {
        Some(Node::Insert(ins)) => sequence::value_rows(*ins).len(),
        _ => 0,
    }
}

/// What a query with the route does.
pub open spec fn dispatched(
    r: Router,
    parsed: Parsed,
    route: RouteView,
    system_database: Seq<char>,
    session: Session,
) -> ActionView {
    match route {
        // An INSERT omitting a sequence-bound column has its id(s) filled
        // in; every other statement is forwarded unchanged.
        RouteView::Shard(t) => if run(parsed, t, session) is Refuse || filled(parsed, r).len()
            == 0 {
            run(parsed, t, session)
        } else if !session.sequences {
            refuse("55000"@, "cannot allocate sequence ids: the router has no system database"@)
        } else {
            ActionView::Insert { target: t, injections: filled(parsed, r), rows: filled_rows(parsed) }
        },
        RouteView::System(e) => run(
            parsed,
            TargetView { endpoint: e, database: system_database },
            session,
        ),
        RouteView::Local => if any_controls_transaction(parsed.kinds@) {
            refuse("0A000"@, "transactions are not supported by this router version"@)
        } else {
            let i = router::first_primary(r.primaries@);
            if i == r.primaries@.len() {
                refuse("57P01"@, "no serving shard primary is available to run this statement"@)
            } else {
                run(
                    parsed,
                    TargetView {
                        endpoint: r.primaries@[i].1->0,
                        database: r.primaries@[i].0@,
                    },
                    session,
                )
            }
        },
        RouteView::Reject { code, reason } => refuse(code, reason),
        RouteView::Unavailable(reason) => refuse("57P01"@, reason),
        RouteView::Scatter(targets) => match scatter_of(parsed) {
            ScatterView::Concat => ActionView::Scatter {
                targets,
                keys: None,
                read_only: session.stale,
            },
            ScatterView::Ordered(keys) => ActionView::Scatter {
                targets,
                keys: Some(keys),
                read_only: session.stale,
            },
            ScatterView::Unsupported => refuse(
                "0A000"@,
                "this scatter read needs limiting or aggregation that is not supported yet"@,
            ),
        },
        RouteView::Broadcast(_) => refuse(
            "0A000"@,
            "broadcast (multi-shard DDL) is not supported yet"@,
        ),
        RouteView::NeedsBind(_) => refuse(
            "0A000"@,
            "parameterized queries require the extended protocol"@,
        ),
    }
}

fn refusal(code: &str, message: &str) -> (r: Action)
    ensures
        r@ == refuse(code@, message@),
{
    Action::Refuse(results::user_error(code, message.to_owned()))
}

fn run_on(parsed: &Parsed, target: Target, session: Session) -> (r: Action)
    ensures
        r@ == run(*parsed, target@, session),
{
    if session.stale && !only_reads(parsed) {
        return refusal(
            "57P01",
            "the router's topology view is older than its write lease; writes are refused until it is confirmed",
        );
    }
    Action::Run { target, read_only: session.stale }
}

/// The sequence columns that an INSERT omits.
fn injections_of(router: &Router, parsed: &Parsed) -> (r: (Vec<SequenceInjection>, usize))
    ensures
        sequence::injection_views(r.0@) == filled(*parsed, *router),
        filled(*parsed, *router).len() > 0 ==> r.1 == filled_rows(*parsed),
{
    if parsed.stmts.len() > 0 {
        if let Some(node) = &parsed.stmts[0] {
            let injections = sequence::insert_sequence_injections(node, &router.vschema);
            let rows: usize = sequence::value_row_count(node);
            return (injections, rows);
        }
    }
    let none: Vec<SequenceInjection> = Vec::new();
    proof {
        assert(sequence::injection_views(none@) =~= Seq::<(Seq<char>, Seq<char>)>::empty());
    }
    (none, 0)
}

/// What the query with the route does.
pub fn dispatch(
    router: &Router,
    parsed: &Parsed,
    route: Route,
    system_database: &str,
    session: Session,
) -> (r: Action)
    ensures
        r@ == dispatched(*router, *parsed, route@, system_database@, session),
{
    match route {
        Route::Shard(t) => {
            if session.stale && !only_reads(parsed) {
                return run_on(parsed, t, session);
            }
            let (injections, rows) = injections_of(router, parsed);
            if injections.len() == 0 {
                return run_on(parsed, t, session);
            }
            if !session.sequences {
                return refusal(
                    "55000",
                    "cannot allocate sequence ids: the router has no system database",
                );
            }
            Action::Insert { target: t, injections, rows }
        },
        Route::System(endpoint) => run_on(
            parsed,
            Target { endpoint, database: system_database.to_owned() },
            session,
        ),
        // Session-local statements: reject transaction control (it would break
        // atomicity across per-query connections), and run everything else
        // (`SELECT 1`, `SHOW`, `SET`) on any shard so reads return real rows.
        Route::Local => {
            if is_transaction_control(parsed) {
                return refusal("0A000", "transactions are not supported by this router version");
            }
            match router.any_shard_target() {
                Some(t) => run_on(parsed, t, session),
                // No serving primary anywhere (e.g. a total failover in flight):
                // fabricating a CommandComplete would report success for work
                // that never ran — fail like any other unavailable route.
                None => refusal(
                    "57P01",
                    "no serving shard primary is available to run this statement",
                ),
            }
        },
        Route::Reject { code, reason } => Action::Refuse(results::user_error(code, reason)),
        Route::Unavailable(reason) => Action::Refuse(results::user_error("57P01", reason)),
        // A scatter read is fanned out and either concatenated (no ORDER BY)
        // or merged by its sort keys; a limit/grouping/aggregation scatter
        // needs work the router does not do and is rejected.
        Route::Scatter(targets) => match classify_scatter(parsed) {
            ScatterPlan::Concat => Action::Scatter {
                targets,
                keys: None,
                read_only: session.stale,
            },
            ScatterPlan::Ordered(keys) => Action::Scatter {
                targets,
                keys: Some(keys),
                read_only: session.stale,
            },
            ScatterPlan::Unsupported => refusal(
                "0A000",
                "this scatter read needs limiting or aggregation that is not supported yet",
            ),
        },
        Route::Broadcast(_) => refusal("0A000", "broadcast (multi-shard DDL) is not supported yet"),
        Route::NeedsBind(_) => refusal(
            "0A000",
            "parameterized queries require the extended protocol",
        ),
    }
}

/// What a parsed query does.
pub open spec fn queried(
    r: Router,
    parsed: Parsed,
    system_database: Seq<char>,
    session: Session,
) -> ActionView {
    if parsed.stmts@.len() == 0 {
        ActionView::EmptyQuery
    } else if parsed.stmts@.len() == 1 {
        dispatched(
            r,
            parsed,
            router::resolved(r, plan::planned_at(parsed, 0, r.vschema, r.catalog)),
            system_database,
            session,
        )
    } else {
        refuse("0A000"@, "multi-statement simple queries are not supported yet"@)
    }
}

/// What a parsed query does: it is routed, and its one statement dispatched.
pub fn do_query(router: &Router, parsed: &Parsed, backend: &Backend, session: Session) -> (r:
    Action)
    ensures
        r@ == queried(*router, *parsed, backend.system_database@, session),
{
    let mut routes = router.route(parsed);
    let count: usize = routes.len();
    if count == 0 {
        return Action::EmptyQuery;
    }
    if count > 1 {
        return refusal("0A000", "multi-statement simple queries are not supported yet");
    }
    let route = routes.remove(0);
    dispatch(router, parsed, route, backend.system_database.as_str(), session)
}

/// The answer to a query that does not parse.
pub fn parse_error(shown: &str) -> (r: WireError)
    ensures
        r@ == results::fault("42601"@, "could not parse query: "@ + shown@),
{
    results::user_error("42601", text::concat2("could not parse query: ", shown))
}

/// The answer where ids could not be allocated.
pub fn allocation_error(e: &SeqError) -> (r: WireError)
    ensures
        r@ == results::fault("55000"@, "sequence allocation failed: "@ + reserve::fault_text(*e)),
{
    results::user_error(
        "55000",
        text::concat2("sequence allocation failed: ", e.to_string().as_str()),
    )
}

/// The answer where the task that allocates ids failed.
pub fn allocation_task_error(shown: &str) -> (r: WireError)
    ensures
        r@ == results::fault("XX000"@, "sequence allocation task failed: "@ + shown@),
{
    results::user_error("XX000", text::concat2("sequence allocation task failed: ", shown))
}

/// The answer where allocated ids could not be filled in.
pub fn injection_error(e: &RewriteError) -> (r: WireError)
    ensures
        r@ == results::fault(
            "XX000"@,
            "could not inject sequence ids: "@ + sequence::fault_text(*e),
        ),
{
    results::user_error(
        "XX000",
        text::concat2("could not inject sequence ids: ", e.to_string().as_str()),
    )
}

// ---------------------------------------------------------------------------------------
// Laws.
// ---------------------------------------------------------------------------------------

/// A stale router writes nothing: while the view has outlived the lease, whatever runs is a
/// read in a read-only session, and no ids are drawn.
pub proof fn law_stale_views_do_not_write(
    r: Router,
    parsed: Parsed,
    system_database: Seq<char>,
    session: Session,
)
    requires
        session.stale,
    ensures
        match queried(r, parsed, system_database, session) {
            ActionView::Run { target, read_only } => read_only && all_read(parsed.kinds@),
            ActionView::Insert { target, injections, rows } => false,
            ActionView::Scatter { targets, keys, read_only } => read_only,
            _ => true,
        },
{
}

/// Reads keep answering while the view is stale: a read that runs does so fresh or stale, at
/// the same place.
pub proof fn law_stale_reads_still_run(
    r: Router,
    parsed: Parsed,
    route: RouteView,
    system_database: Seq<char>,
    session: Session,
    target: TargetView,
)
    requires
        all_read(parsed.kinds@),
        !session.stale,
        dispatched(r, parsed, route, system_database, session) == (ActionView::Run {
            target,
            read_only: false,
        }),
    ensures
        dispatched(r, parsed, route, system_database, Session { stale: true, ..session }) == (
        ActionView::Run { target, read_only: true }),
{
}

/// Transaction control is never run: a session-local statement that controls a transaction
/// is refused, whatever stands before it in the query text.
pub proof fn law_transactions_are_refused(
    r: Router,
    parsed: Parsed,
    system_database: Seq<char>,
    session: Session,
)
    requires
        any_controls_transaction(parsed.kinds@),
    ensures
        dispatched(r, parsed, RouteView::Local, system_database, session) == refuse(
            "0A000"@,
            "transactions are not supported by this router version"@,
        ),
{
}

/// Shards that disagree on their columns fail the scatter: rows are put together only under
/// one schema, and none of them is lost.
pub proof fn law_scatter_needs_one_schema(
    answers: Seq<Result<Vec<BackendResult>, WireError>>,
    i: int,
    k: int,
)
    requires
        collected(answers, answers.len()) is Ok,
        0 <= i < answers.len(),
        answers[i] is Ok,
        0 <= k < answers[i]->Ok_0@.len(),
        answers[i]->Ok_0@[k]@ is Rows,
    ensures
        collected(answers, answers.len())->Ok_0.schema is Some,
        results::shapes(collected(answers, answers.len())->Ok_0.schema->0) == results::shapes(
            answers[i]->Ok_0@[k]@->Rows_schema,
        ),
        forall|row: DataRow|
            answers[i]->Ok_0@[k]@->Rows_rows.contains(row) ==> collected(
                answers,
                answers.len(),
            )->Ok_0.rows.contains(row),
{
    lemma_in_collection(answers, i, k, answers.len());
}

spec fn holds(c: Collection, r: ResultView) -> bool {
    c.schema is Some && results::shapes(c.schema->0) == results::shapes(r->Rows_schema)
        && forall|row: DataRow|
        r->Rows_rows.contains(row) ==> #[trigger] c.rows.contains(row)
}

proof fn lemma_grows(c: Collection, d: Collection, r: ResultView, x: ResultView)
    requires
        holds(c, r),
        with_result(c, x) == Ok::<Collection, Fault>(d),
    ensures
        holds(d, r),
{
    assert forall|row: DataRow| r->Rows_rows.contains(row) implies #[trigger] d.rows.contains(
        row,
    ) by {
        assert(c.rows.contains(row));
        let p = c.rows.index_of(row);
        assert(d.rows[p] == row);
    }
}

proof fn lemma_added(c: Collection, d: Collection, r: ResultView)
    requires
        r is Rows,
        with_result(c, r) == Ok::<Collection, Fault>(d),
    ensures
        holds(d, r),
{
    assert forall|row: DataRow| r->Rows_rows.contains(row) implies #[trigger] d.rows.contains(
        row,
    ) by {
        let p = r->Rows_rows.index_of(row);
        assert(d.rows[c.rows.len() + p] == row);
    }
}

proof fn lemma_in_shard(c: Collection, rs: Seq<BackendResult>, k: int, n: nat)
    requires
        0 <= k < n <= rs.len(),
        with_results(c, rs, n) is Ok,
        rs[k]@ is Rows,
    ensures
        holds(with_results(c, rs, n)->Ok_0, rs[k]@),
    decreases n,
{
    let before = with_results(c, rs, (n - 1) as nat)->Ok_0;
    let after = with_results(c, rs, n)->Ok_0;
    if k == n - 1 {
        lemma_added(before, after, rs[k]@);
    } else {
        lemma_in_shard(c, rs, k, (n - 1) as nat);
        lemma_grows(before, after, rs[k]@, rs[n - 1]@);
    }
}

proof fn lemma_shard_grows(c: Collection, rs: Seq<BackendResult>, n: nat, r: ResultView)
    requires
        n <= rs.len(),
        holds(c, r),
        with_results(c, rs, n) is Ok,
    ensures
        holds(with_results(c, rs, n)->Ok_0, r),
    decreases n,
{
    if n > 0 {
        lemma_shard_grows(c, rs, (n - 1) as nat, r);
        lemma_grows(
            with_results(c, rs, (n - 1) as nat)->Ok_0,
            with_results(c, rs, n)->Ok_0,
            r,
            rs[n - 1]@,
        );
    }
}

proof fn lemma_in_collection(
    answers: Seq<Result<Vec<BackendResult>, WireError>>,
    i: int,
    k: int,
    n: nat,
)
    requires
        0 <= i < n <= answers.len(),
        collected(answers, n) is Ok,
        answers[i] is Ok,
        0 <= k < answers[i]->Ok_0@.len(),
        answers[i]->Ok_0@[k]@ is Rows,
    ensures
        holds(collected(answers, n)->Ok_0, answers[i]->Ok_0@[k]@),
    decreases n,
{
    let before = collected(answers, (n - 1) as nat)->Ok_0;
    let rs = answers[n - 1]->Ok_0@;
    if i == n - 1 {
        lemma_in_shard(before, rs, k, rs.len());
    } else {
        lemma_in_collection(answers, i, k, (n - 1) as nat);
        lemma_shard_grows(before, rs, rs.len(), answers[i]->Ok_0@[k]@);
    }
}

/// Rows of several shards are put together only where one statement lists plain columns:
/// nothing that groups, limits, deduplicates, combines or locks is spread over shards.
pub proof fn law_only_plain_reads_are_spread(parsed: Parsed)
    requires
        scatter_of(parsed) !is Unsupported,
    ensures
        parsed.stmts@.len() == 1,
        parsed.stmts@[0] matches Some(Node::Select(_)),
        ({
            let s = parsed.stmts@[0]->0->Select_0;
            &&& !s.set_operation
            &&& s.with_clause is None
            &&& !s.into_clause
            &&& s.locking_clause@.len() == 0
            &&& s.group_clause@.len() == 0
            &&& s.having_clause is None
            &&& s.distinct_clause@.len() == 0
            &&& !s.group_distinct
            &&& s.limit_count is None
            &&& s.limit_offset is None
            &&& s.target_list@.len() > 0
            &&& forall|i: int|
                0 <= i < s.target_list@.len() ==> ((#[trigger] s.target_list@[i]) matches Node::Target(
                    t,
                ) && (t.val matches Some(Node::Column(_))))
            &&& scatter_of(parsed) is Concat <==> s.sort_clause@.len() == 0
        }),
{
    let s = *parsed.stmts@[0]->0->Select_0;
    assert forall|i: int| 0 <= i < s.target_list@.len() implies ((
    #[trigger] s.target_list@[i]) matches Node::Target(t) && (t.val matches Some(
        Node::Column(_),
    ))) by {
        assert(plain_column(s.target_list@[i]));
    }
}

/// A statement that lists plain columns and does nothing else is spread, its rows in any
/// order unless it asks for one.
pub proof fn law_plain_reads_are_spread(parsed: Parsed, s: SelectStmt)
    requires
        parsed.stmts@.len() == 1,
        parsed.stmts@[0] matches Some(Node::Select(b)) && *b == s,
        !s.set_operation,
        s.with_clause is None,
        !s.into_clause,
        s.locking_clause@.len() == 0,
        s.group_clause@.len() == 0,
        s.having_clause is None,
        s.distinct_clause@.len() == 0,
        !s.group_distinct,
        s.limit_count is None,
        s.limit_offset is None,
        s.target_list@.len() > 0,
        forall|i: int|
            0 <= i < s.target_list@.len() ==> ((#[trigger] s.target_list@[i]) matches Node::Target(
                t,
            ) && (t.val matches Some(Node::Column(_)))),
    ensures
        s.sort_clause@.len() == 0 ==> scatter_of(parsed) is Concat,
        s.sort_clause@.len() > 0 ==> scatter_of(parsed) !is Concat,
        s.sort_clause@.len() > 0 && (forall|i: int|
            0 <= i < s.sort_clause@.len() ==> sort_key(#[trigger] s.sort_clause@[i]) is Some)
            ==> scatter_of(parsed) is Ordered,
{
    assert forall|i: int| 0 <= i < s.target_list@.len() implies plain_column(
        #[trigger] s.target_list@[i],
    ) by {}
    assert(plain_projection(s));
    lemma_keys_of_items(s.sort_clause@, s.sort_clause@.len());
}

proof fn lemma_keys_of_items(items: Seq<Node>, n: nat)
    requires
        n <= items.len(),
    ensures
        sort_keys(items, n) is Some <==> forall|i: int|
            0 <= i < n ==> sort_key(#[trigger] items[i]) is Some,
        sort_keys(items, n) is Some ==> sort_keys(items, n)->0.len() == n && forall|i: int|
            0 <= i < n ==> sort_key(#[trigger] items[i]) == Some(sort_keys(items, n)->0[i]),
    decreases n,
{
    if n > 0 {
        lemma_keys_of_items(items, (n - 1) as nat);
    }
}

/// Rows of several shards come back in the order that the statement asks for: one key per
/// item, in their order, each with the item's column, its direction, and NULLs where the
/// item puts them, or by default last going up and first going down.
pub proof fn law_the_order_asked_for_is_kept(parsed: Parsed, i: int)
    requires
        scatter_of(parsed) is Ordered,
        0 <= i < (parsed.stmts@[0]->0->Select_0).sort_clause@.len(),
    ensures
        scatter_of(parsed)->Ordered_0.len() == (parsed.stmts@[0]->0->Select_0).sort_clause@.len(),
        (parsed.stmts@[0]->0->Select_0).sort_clause@[i] matches Node::SortBy(sb) && {
            let k = scatter_of(parsed)->Ordered_0[i];
            &&& sb.dir !is Using
            &&& k.descending <==> sb.dir is Desc
            &&& sb.nulls is First ==> k.nulls_first
            &&& sb.nulls is Last ==> !k.nulls_first
            &&& sb.nulls is Default ==> (k.nulls_first <==> sb.dir is Desc)
            &&& match sb.node {
                Some(Node::Column(fields)) => {
                    &&& fields@.len() == 1
                    &&& fields@[0] matches Node::Name(s) && k.column == SortColumn::Name(s)
                },
                Some(Node::Const(c)) => {
                    &&& c.val matches Some(ConstValue::Integer(n)) && n >= 1 && k.column
                        == SortColumn::Position(n as usize)
                },
                _ => false,
            }
        },
{
    let s = *parsed.stmts@[0]->0->Select_0;
    lemma_keys_of_items(s.sort_clause@, s.sort_clause@.len());
    assert(sort_key(s.sort_clause@[i]) is Some);
}

/// An item that sorts by a column's bare name or by its place in the list has a key; one that
/// brings its own operator has none.
pub proof fn law_names_and_places_can_be_sorted_by(sb: SortBy, name: String, n: i32)
    ensures
        sb.dir is Using ==> sort_key(Node::SortBy(Box::new(sb))) is None,
        sb.dir !is Using && (sb.node matches Some(Node::Column(fields)) && fields@ == seq![
            Node::Name(name),
        ]) ==> sort_key(Node::SortBy(Box::new(sb))) is Some,
        sb.dir !is Using && n >= 1 && (sb.node matches Some(Node::Const(c)) && c.val == Some(
            ConstValue::Integer(n),
        )) ==> sort_key(Node::SortBy(Box::new(sb))) is Some,
        n < 1 && (sb.node matches Some(Node::Const(c)) && c.val == Some(ConstValue::Integer(n)))
            ==> sort_key(Node::SortBy(Box::new(sb))) is None,
{
}

/// The rows that several shards send are put one after the other, none lost and none added,
/// under the columns that the first of them describes.
pub proof fn law_shard_rows_are_put_together(
    answers: Seq<Result<Vec<BackendResult>, WireError>>,
    n: nat,
    rs: Vec<BackendResult>,
    schema: Vec<Field>,
    rows: Vec<DataRow>,
    tag: Option<String>,
)
    requires
        0 < n <= answers.len(),
        answers[n - 1] == Ok::<Vec<BackendResult>, WireError>(rs),
        rs@ == seq![BackendResult::Rows { schema, rows, command_tag: tag }],
        collected(answers, n) is Ok,
    ensures
        collected(answers, (n - 1) as nat) is Ok,
        collected(answers, n)->Ok_0.rows == collected(answers, (n - 1) as nat)->Ok_0.rows + rows@,
        collected(answers, (n - 1) as nat)->Ok_0.schema is None ==> collected(
            answers,
            n,
        )->Ok_0.schema == Some(results::field_views(schema@)),
        collected(answers, (n - 1) as nat)->Ok_0.schema is Some ==> collected(
            answers,
            n,
        )->Ok_0.schema == collected(answers, (n - 1) as nat)->Ok_0.schema,
{
    reveal_with_fuel(with_results, 2);
    reveal_with_fuel(collected, 2);
    let before = collected(answers, (n - 1) as nat);
    assert(with_results(before->Ok_0, rs@, 1) == with_result(before->Ok_0, rs@[0]@));
}

/// One shard's failure fails the whole read, with the first failing shard's error.
pub proof fn law_the_first_failure_is_answered(
    answers: Seq<Result<Vec<BackendResult>, WireError>>,
    k: nat,
    n: nat,
)
    requires
        k < n <= answers.len(),
        collected(answers, k) is Ok,
        answers[k as int] is Err,
    ensures
        collected(answers, n) == Err::<Collection, Fault>(answers[k as int]->Err_0@),
    decreases n,
{
    if n > k + 1 {
        law_the_first_failure_is_answered(answers, k, (n - 1) as nat);
    }
}

/// Shards that send no rows, or rows of one shape, do not fail the read.
pub proof fn law_agreeing_shards_do_not_fail(
    answers: Seq<Result<Vec<BackendResult>, WireError>>,
    k: nat,
    rs: Vec<BackendResult>,
)
    requires
        k < answers.len(),
        collected(answers, k) is Ok,
        answers[k as int] == Ok::<Vec<BackendResult>, WireError>(rs),
        rs@.len() <= 1,
        rs@.len() == 1 && rs@[0]@ is Rows && collected(answers, k)->Ok_0.schema is Some
            ==> results::shapes(rs@[0]@->Rows_schema) == results::shapes(
            collected(answers, k)->Ok_0.schema->0,
        ),
    ensures
        collected(answers, k + 1) is Ok,
        rs@.len() == 0 || rs@[0]@ !is Rows ==> collected(answers, k + 1) == collected(answers, k),
{
    reveal_with_fuel(with_results, 2);
    reveal_with_fuel(collected, 2);
    if rs@.len() == 1 {
        let c = collected(answers, k)->Ok_0;
        assert(with_results(c, rs@, 1) == with_result(c, rs@[0]@));
    }
}

/// A failure before a shard's answer stands whatever the shard answers.
pub proof fn law_failures_are_not_forgotten(
    answers: Seq<Result<Vec<BackendResult>, WireError>>,
    k: nat,
    n: nat,
)
    requires
        k <= n <= answers.len(),
        collected(answers, k) is Err,
    ensures
        collected(answers, n) == collected(answers, k),
    decreases n,
{
    if n > k {
        law_failures_are_not_forgotten(answers, k, (n - 1) as nat);
    }
}

/// A statement runs where its route leads and nowhere else: on its shard, in the system
/// database, or, where it reads no table, on a shard that has a primary.
pub proof fn law_statements_run_where_they_are_sent(
    r: Router,
    parsed: Parsed,
    route: RouteView,
    system_database: Seq<char>,
    session: Session,
)
    ensures
        match dispatched(r, parsed, route, system_database, session) {
            ActionView::EmptyQuery => false,
            ActionView::Run { target, read_only } => {
                &&& read_only == session.stale
                &&& session.stale ==> all_read(parsed.kinds@)
                &&& match route {
                    RouteView::Shard(t) => target == t && filled(parsed, r).len() == 0,
                    RouteView::System(e) => target.endpoint == e && target.database
                        == system_database,
                    RouteView::Local => {
                        &&& !any_controls_transaction(parsed.kinds@)
                        &&& exists|i: int|
                            0 <= i < r.primaries@.len() && (#[trigger] r.primaries@[i]).0@
                                == target.database && r.primaries@[i].1 == Some(target.endpoint)
                    },
                    _ => false,
                }
            },
            ActionView::Insert { target, injections, rows } => {
                &&& route == RouteView::Shard(target)
                &&& session.sequences
                &&& injections.len() > 0
                &&& injections == filled(parsed, r)
                &&& session.stale ==> all_read(parsed.kinds@)
            },
            ActionView::Scatter { targets, keys, read_only } => {
                &&& route == RouteView::Scatter(targets)
                &&& read_only == session.stale
                &&& keys is None ==> scatter_of(parsed) is Concat
                &&& keys is Some ==> scatter_of(parsed) == ScatterView::Ordered(keys->0)
            },
            ActionView::Refuse(_) => true,
        },
{
    router::law_the_first_primary_is_found(r.primaries@, 0);
}

/// What can run is not refused: a read always, a write while the view of the topology is
/// fresh, and an insert with columns to fill where there are sequences to fill them from.
pub proof fn law_what_can_run_is_not_refused(
    r: Router,
    parsed: Parsed,
    t: TargetView,
    targets: Seq<TargetView>,
    e: Endpoint,
    i: int,
    system_database: Seq<char>,
    session: Session,
)
    requires
        !session.stale || all_read(parsed.kinds@),
    ensures
        filled(parsed, r).len() == 0 ==> dispatched(
            r,
            parsed,
            RouteView::Shard(t),
            system_database,
            session,
        ) is Run,
        filled(parsed, r).len() > 0 && session.sequences ==> dispatched(
            r,
            parsed,
            RouteView::Shard(t),
            system_database,
            session,
        ) is Insert,
        dispatched(r, parsed, RouteView::System(e), system_database, session) is Run,
        scatter_of(parsed) !is Unsupported ==> dispatched(
            r,
            parsed,
            RouteView::Scatter(targets),
            system_database,
            session,
        ) is Scatter,
        !any_controls_transaction(parsed.kinds@) && 0 <= i < r.primaries@.len()
            && r.primaries@[i].1 is Some ==> dispatched(
            r,
            parsed,
            RouteView::Local,
            system_database,
            session,
        ) is Run,
{
    router::law_the_first_primary_is_found(r.primaries@, i);
}

/// A refused plan is answered with its own code and reason, an unreachable one with `57P01`,
/// and what the router cannot run with `0A000`.
pub proof fn law_refusals_keep_their_code(
    r: Router,
    parsed: Parsed,
    route: RouteView,
    system_database: Seq<char>,
    session: Session,
)
    requires
        dispatched(r, parsed, route, system_database, session) is Refuse,
    ensures
        ({
            let f = dispatched(r, parsed, route, system_database, session)->Refuse_0;
            match route {
                RouteView::Reject { code, reason } => f.code == code && f.message == reason,
                RouteView::Unavailable(reason) => f.code == "57P01"@ && f.message == reason,
                RouteView::Scatter(_) => f.code == "0A000"@ && scatter_of(parsed) is Unsupported,
                RouteView::Broadcast(_) => f.code == "0A000"@,
                RouteView::NeedsBind(_) => f.code == "0A000"@,
                RouteView::System(_) => f.code == "57P01"@ && session.stale && !all_read(
                    parsed.kinds@,
                ),
                RouteView::Shard(_) => {
                    ||| f.code == "57P01"@ && session.stale && !all_read(parsed.kinds@)
                    ||| f.code == "55000"@ && !session.sequences && filled(parsed, r).len() > 0
                },
                RouteView::Local => {
                    ||| f.code == "57P01"@
                    ||| f.code == "0A000"@ && any_controls_transaction(parsed.kinds@)
                },
            }
        }),
{
}

/// A query with no statement is empty, one with several is refused, and one with a single
/// statement goes the way of its plan.
pub proof fn law_one_statement_at_a_time(
    r: Router,
    parsed: Parsed,
    system_database: Seq<char>,
    session: Session,
)
    ensures
        queried(r, parsed, system_database, session) is EmptyQuery <==> parsed.stmts@.len() == 0,
        parsed.stmts@.len() > 1 ==> (queried(r, parsed, system_database, session) matches
            ActionView::Refuse(f) && f.code == "0A000"@),
        parsed.stmts@.len() == 1 ==> queried(r, parsed, system_database, session) == dispatched(
            r,
            parsed,
            router::resolved(r, plan::planned_at(parsed, 0, r.vschema, r.catalog)),
            system_database,
            session,
        ),
{
    law_statements_run_where_they_are_sent(
        r,
        parsed,
        router::resolved(r, plan::planned_at(parsed, 0, r.vschema, r.catalog)),
        system_database,
        session,
    );
}

/// Nothing that writes counts as a read, and nothing is both a read and a step of a
/// transaction.
pub proof fn law_writes_are_no_reads(kinds: Seq<StatementKind>, i: int)
    requires
        0 <= i < kinds.len(),
    ensures
        kinds[i] is Insert || kinds[i] is Update || kinds[i] is Delete || kinds[i] is Merge
            || kinds[i] is Copy || kinds[i] is Ddl || kinds[i] is Prepare || kinds[i] is Execute
            || kinds[i] is Other || controls_transaction(kinds[i]) ==> !all_read(kinds),
        kinds[i] is TxnBegin || kinds[i] is TxnCommit || kinds[i] is TxnRollback || kinds[i]
            is TxnOther ==> any_controls_transaction(kinds),
        kinds[i] is Select || kinds[i] is Show || kinds[i] is SetVariable || kinds[i] is Empty
            ==> all_read(seq![kinds[i]]) && !any_controls_transaction(seq![kinds[i]]),
{
    assert(all_read(kinds) ==> reads(kinds[i]));
}

} // verus!
