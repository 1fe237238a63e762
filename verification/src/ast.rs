//! The part of a parsed SQL statement that routing reads.
//!
//! Every node keeps all its child nodes, so that a search of the whole statement is
//! possible: what no rule looks into is [`Node::Other`].
use vstd::prelude::*;

verus! {

/// The value of a literal.
#[derive(Debug, PartialEq, Eq)]
pub enum ConstValue {
    Integer(i32),
    /// A number that is no 32-bit integer, as it is written.
    Float(String),
    Text(String),
    /// A boolean or a bit string.
    Other,
}

/// A literal.
#[derive(Debug, PartialEq, Eq)]
pub struct Const {
    pub isnull: bool,
    pub val: Option<ConstValue>,
}

#[derive(Debug, Clone, Copy, PartialEq, Eq, Structural)]
pub enum BoolOp {
    And,
    Or,
    Not,
}

/// What kind of operator expression a node is.
#[derive(Debug, Clone, Copy, PartialEq, Eq, Structural)]
pub enum ExprKind {
    /// A plain operator.
    Op,
    /// `IN` with a list on the right.
    In,
    Other,
}

/// An operator expression.
#[derive(Debug, PartialEq, Eq)]
pub struct AExpr {
    pub kind: ExprKind,
    /// The parts of the operator's name.
    pub name: Vec<String>,
    pub lexpr: Option<Node>,
    pub rexpr: Option<Node>,
}

/// A table reference. An unqualified one has an empty schema name.
#[derive(Debug, PartialEq, Eq)]
pub struct RangeVar {
    pub schemaname: String,
    pub relname: String,
}

#[derive(Debug, PartialEq, Eq)]
pub struct JoinExpr {
    pub larg: Option<Node>,
    pub rarg: Option<Node>,
    /// The join condition.
    pub quals: Option<Node>,
}

/// An output column, a column of a column list, or an assignment.
#[derive(Debug, PartialEq, Eq)]
pub struct ResTarget {
    pub name: String,
    pub indirection: Vec<Node>,
    pub val: Option<Node>,
}

/// One element of a conflict target.
#[derive(Debug, PartialEq, Eq)]
pub struct IndexElem {
    pub name: String,
    pub expr: Option<Node>,
}

#[derive(Debug, Clone, Copy, PartialEq, Eq, Structural)]
pub enum SortDir {
    Default,
    Asc,
    Desc,
    Using,
}

#[derive(Debug, Clone, Copy, PartialEq, Eq, Structural)]
pub enum SortNulls {
    Default,
    First,
    Last,
}

/// One item of an `ORDER BY`.
#[derive(Debug, PartialEq, Eq)]
pub struct SortBy {
    pub node: Option<Node>,
    pub dir: SortDir,
    pub nulls: SortNulls,
}

#[derive(Debug, PartialEq, Eq)]
pub struct SelectStmt {
    /// Whether this is a `UNION`, `INTERSECT` or `EXCEPT` of `larg` and `rarg`.
    pub set_operation: bool,
    pub larg: Option<Box<SelectStmt>>,
    pub rarg: Option<Box<SelectStmt>>,
    /// The queries of the `WITH` clause, where there is one.
    pub with_clause: Option<Vec<Node>>,
    pub distinct_clause: Vec<Node>,
    /// Whether there is an `INTO` clause.
    pub into_clause: bool,
    pub target_list: Vec<Node>,
    pub from_clause: Vec<Node>,
    pub where_clause: Option<Node>,
    pub group_clause: Vec<Node>,
    pub group_distinct: bool,
    pub having_clause: Option<Node>,
    pub window_clause: Vec<Node>,
    pub values_lists: Vec<Node>,
    pub sort_clause: Vec<Node>,
    pub limit_offset: Option<Node>,
    pub limit_count: Option<Node>,
    pub locking_clause: Vec<Node>,
}

#[derive(Debug, Clone, Copy, PartialEq, Eq, Structural)]
pub enum ConflictAction {
    Nothing,
    Update,
    Other,
}

/// The target of an `ON CONFLICT`.
#[derive(Debug, PartialEq, Eq)]
pub struct InferClause {
    /// The name after `ON CONSTRAINT`, else empty.
    pub conname: String,
    pub index_elems: Vec<Node>,
    pub where_clause: Option<Node>,
}

#[derive(Debug, PartialEq, Eq)]
pub struct OnConflict {
    pub action: ConflictAction,
    pub infer: Option<InferClause>,
    pub target_list: Vec<Node>,
    pub where_clause: Option<Node>,
}

#[derive(Debug, PartialEq, Eq)]
pub struct InsertStmt {
    pub relation: Option<RangeVar>,
    pub cols: Vec<Node>,
    pub select_stmt: Option<Node>,
    pub on_conflict_clause: Option<OnConflict>,
    pub returning_list: Vec<Node>,
    pub with_clause: Option<Vec<Node>>,
}

#[derive(Debug, PartialEq, Eq)]
pub struct UpdateStmt {
    pub relation: Option<RangeVar>,
    pub target_list: Vec<Node>,
    pub where_clause: Option<Node>,
    pub from_clause: Vec<Node>,
    pub returning_list: Vec<Node>,
    pub with_clause: Option<Vec<Node>>,
}

#[derive(Debug, PartialEq, Eq)]
pub struct DeleteStmt {
    pub relation: Option<RangeVar>,
    pub using_clause: Vec<Node>,
    pub where_clause: Option<Node>,
    pub returning_list: Vec<Node>,
    pub with_clause: Option<Vec<Node>>,
}

#[derive(Debug, PartialEq, Eq)]
pub enum Node {
    Const(Const),
    /// A `$n` placeholder.
    Param(i32),
    /// The fields of a column reference: names, or `*`.
    Column(Vec<Node>),
    /// An identifier.
    Name(String),
    Bool(BoolOp, Vec<Node>),
    Expr(Box<AExpr>),
    List(Vec<Node>),
    Table(RangeVar),
    Join(Box<JoinExpr>),
    Target(Box<ResTarget>),
    IndexElem(Box<IndexElem>),
    SortBy(Box<SortBy>),
    /// A sub-select in an expression.
    SubLink(Vec<Node>),
    Select(Box<SelectStmt>),
    Insert(Box<InsertStmt>),
    Update(Box<UpdateStmt>),
    Delete(Box<DeleteStmt>),
    /// Any other node, with its children.
    Other(Vec<Node>),
}

/// What a statement does, as far as routing distinguishes.
#[derive(Debug, Clone, Copy, PartialEq, Eq, Structural)]
pub enum StatementKind {
    Select,
    Insert,
    Update,
    Delete,
    Merge,
    Copy,
    Ddl,
    TxnBegin,
    TxnCommit,
    TxnRollback,
    TxnOther,
    SetVariable,
    Show,
    Prepare,
    Execute,
    Empty,
    /// A data-modifying `WITH`, or a form that nothing else names.
    Other,
}

/// A parsed query: its statements and what each of them does.
#[derive(Debug, PartialEq, Eq)]
pub struct Parsed {
    pub kinds: Vec<StatementKind>,
    /// The root of each statement; an empty statement has none.
    pub stmts: Vec<Option<Node>>,
}

/// What a search of a statement looks for.
#[derive(Debug, Clone, Copy, PartialEq, Eq, Structural)]
pub enum Feature {
    /// A sub-select in an expression.
    SubLink,
    /// A `WITH` clause.
    With,
}

pub open spec fn list_has(s: Seq<Node>, f: Feature) -> bool
    decreases s,
{
    exists|i: int| 0 <= i < s.len() && node_has(#[trigger] s[i], f)
}

pub open spec fn option_has(o: Option<Node>, f: Feature) -> bool
    decreases o,
{
    match o {
        Some(n) => node_has(n, f),
        None => false,
    }
}

pub open spec fn with_has(w: Option<Vec<Node>>, f: Feature) -> bool
    decreases w,
{
    match w {
        Some(v) => f == Feature::With || list_has(v@, f),
        None => false,
    }
}

pub open spec fn arm_has(a: Option<Box<SelectStmt>>, f: Feature) -> bool
    decreases a,
{
    match a {
        Some(s) => select_has(*s, f),
        None => false,
    }
}

pub open spec fn select_has(s: SelectStmt, f: Feature) -> bool
    decreases s,
{
    ||| arm_has(s.larg, f)
    ||| arm_has(s.rarg, f)
    ||| with_has(s.with_clause, f)
    ||| list_has(s.distinct_clause@, f)
    ||| list_has(s.target_list@, f)
    ||| list_has(s.from_clause@, f)
    ||| option_has(s.where_clause, f)
    ||| list_has(s.group_clause@, f)
    ||| option_has(s.having_clause, f)
    ||| list_has(s.window_clause@, f)
    ||| list_has(s.values_lists@, f)
    ||| list_has(s.sort_clause@, f)
    ||| option_has(s.limit_offset, f)
    ||| option_has(s.limit_count, f)
    ||| list_has(s.locking_clause@, f)
}

pub open spec fn conflict_has(o: Option<OnConflict>, f: Feature) -> bool
    decreases o,
{
    match o {
        Some(c) => {
            ||| (match c.infer {
                Some(i) => list_has(i.index_elems@, f) || option_has(i.where_clause, f),
                None => false,
            })
            ||| list_has(c.target_list@, f)
            ||| option_has(c.where_clause, f)
        },
        None => false,
    }
}

pub open spec fn insert_has(s: InsertStmt, f: Feature) -> bool
    decreases s,
{
    ||| list_has(s.cols@, f)
    ||| option_has(s.select_stmt, f)
    ||| conflict_has(s.on_conflict_clause, f)
    ||| list_has(s.returning_list@, f)
    ||| with_has(s.with_clause, f)
}

pub open spec fn update_has(s: UpdateStmt, f: Feature) -> bool
    decreases s,
{
    ||| list_has(s.target_list@, f)
    ||| option_has(s.where_clause, f)
    ||| list_has(s.from_clause@, f)
    ||| list_has(s.returning_list@, f)
    ||| with_has(s.with_clause, f)
}

pub open spec fn delete_has(s: DeleteStmt, f: Feature) -> bool
    decreases s,
{
    ||| list_has(s.using_clause@, f)
    ||| option_has(s.where_clause, f)
    ||| list_has(s.returning_list@, f)
    ||| with_has(s.with_clause, f)
}

/// Whether the feature occurs anywhere in the tree.
pub open spec fn node_has(n: Node, f: Feature) -> bool
    decreases n,
{
    match n {
        Node::Const(_) => false,
        Node::Param(_) => false,
        Node::Column(v) => list_has(v@, f),
        Node::Name(_) => false,
        Node::Bool(_, v) => list_has(v@, f),
        Node::Expr(e) => option_has(e.lexpr, f) || option_has(e.rexpr, f),
        Node::List(v) => list_has(v@, f),
        Node::Table(_) => false,
        Node::Join(j) => option_has(j.larg, f) || option_has(j.rarg, f) || option_has(j.quals, f),
        Node::Target(t) => list_has(t.indirection@, f) || option_has(t.val, f),
        Node::IndexElem(e) => option_has(e.expr, f),
        Node::SortBy(s) => option_has(s.node, f),
        Node::SubLink(v) => f == Feature::SubLink || list_has(v@, f),
        Node::Select(s) => select_has(*s, f),
        Node::Insert(s) => insert_has(*s, f),
        Node::Update(s) => update_has(*s, f),
        Node::Delete(s) => delete_has(*s, f),
        Node::Other(v) => list_has(v@, f),
    }
}

pub fn find_in_list(v: &Vec<Node>, f: Feature) -> (r: bool)
    ensures
        r == list_has(v@, f),
    decreases v,
{
    let mut i: usize = 0;
    while i < v.len()
        invariant
            i <= v@.len(),
            forall|k: int| 0 <= k < i ==> !node_has(#[trigger] v@[k], f),
        decreases v@.len() - i,
    {
        if find_in_node(&v[i], f) {
            assert(node_has(v@[i as int], f));
            return true;
        }
        i += 1;
    }
    false
}

fn find_in_option(o: &Option<Node>, f: Feature) -> (r: bool)
    ensures
        r == option_has(*o, f),
    decreases o,
{
    match o {
        Some(n) => find_in_node(n, f),
        None => false,
    }
}

fn find_in_with(w: &Option<Vec<Node>>, f: Feature) -> (r: bool)
    ensures
        r == with_has(*w, f),
    decreases w,
{
    match w {
        Some(v) => f == Feature::With || find_in_list(v, f),
        None => false,
    }
}

fn find_in_arm(a: &Option<Box<SelectStmt>>, f: Feature) -> (r: bool)
    ensures
        r == arm_has(*a, f),
    decreases a,
{
    match a {
        Some(s) => find_in_select(s, f),
        None => false,
    }
}

/// Whether the feature occurs anywhere in the statement.
pub fn find_in_select(s: &SelectStmt, f: Feature) -> (r: bool)
    ensures
        r == select_has(*s, f),
    decreases s,
{
    find_in_arm(&s.larg, f) || find_in_arm(&s.rarg, f) || find_in_with(&s.with_clause, f)
        || find_in_list(&s.distinct_clause, f) || find_in_list(&s.target_list, f) || find_in_list(
        &s.from_clause,
        f,
    ) || find_in_option(&s.where_clause, f) || find_in_list(&s.group_clause, f) || find_in_option(
        &s.having_clause,
        f,
    ) || find_in_list(&s.window_clause, f) || find_in_list(&s.values_lists, f) || find_in_list(
        &s.sort_clause,
        f,
    ) || find_in_option(&s.limit_offset, f) || find_in_option(&s.limit_count, f) || find_in_list(
        &s.locking_clause,
        f,
    )
}

fn find_in_conflict(o: &Option<OnConflict>, f: Feature) -> (r: bool)
    ensures
        r == conflict_has(*o, f),
    decreases o,
{
    match o {
        Some(c) => {
            let inferred = match &c.infer {
                Some(i) => find_in_list(&i.index_elems, f) || find_in_option(&i.where_clause, f),
                None => false,
            };
            inferred || find_in_list(&c.target_list, f) || find_in_option(&c.where_clause, f)
        },
        None => false,
    }
}

/// Whether the feature occurs anywhere in the statement.
pub fn find_in_insert(s: &InsertStmt, f: Feature) -> (r: bool)
    ensures
        r == insert_has(*s, f),
    decreases s,
{
    find_in_list(&s.cols, f) || find_in_option(&s.select_stmt, f) || find_in_conflict(
        &s.on_conflict_clause,
        f,
    ) || find_in_list(&s.returning_list, f) || find_in_with(&s.with_clause, f)
}

/// Whether the feature occurs anywhere in the statement.
pub fn find_in_update(s: &UpdateStmt, f: Feature) -> (r: bool)
    ensures
        r == update_has(*s, f),
    decreases s,
{
    find_in_list(&s.target_list, f) || find_in_option(&s.where_clause, f) || find_in_list(
        &s.from_clause,
        f,
    ) || find_in_list(&s.returning_list, f) || find_in_with(&s.with_clause, f)
}

/// Whether the feature occurs anywhere in the statement.
pub fn find_in_delete(s: &DeleteStmt, f: Feature) -> (r: bool)
    ensures
        r == delete_has(*s, f),
    decreases s,
{
    find_in_list(&s.using_clause, f) || find_in_option(&s.where_clause, f) || find_in_list(
        &s.returning_list,
        f,
    ) || find_in_with(&s.with_clause, f)
}

/// Whether the feature occurs anywhere in the tree.
pub fn find_in_node(n: &Node, f: Feature) -> (r: bool)
    ensures
        r == node_has(*n, f),
    decreases n,
{
    match n {
        Node::Const(_) => false,
        Node::Param(_) => false,
        Node::Column(v) => find_in_list(v, f),
        Node::Name(_) => false,
        Node::Bool(_, v) => find_in_list(v, f),
        Node::Expr(e) => find_in_option(&e.lexpr, f) || find_in_option(&e.rexpr, f),
        Node::List(v) => find_in_list(v, f),
        Node::Table(_) => false,
        Node::Join(j) => find_in_option(&j.larg, f) || find_in_option(&j.rarg, f)
            || find_in_option(&j.quals, f),
        Node::Target(t) => find_in_list(&t.indirection, f) || find_in_option(&t.val, f),
        Node::IndexElem(e) => find_in_option(&e.expr, f),
        Node::SortBy(s) => find_in_option(&s.node, f),
        Node::SubLink(v) => f == Feature::SubLink || find_in_list(v, f),
        Node::Select(s) => find_in_select(s, f),
        Node::Insert(s) => find_in_insert(s, f),
        Node::Update(s) => find_in_update(s, f),
        Node::Delete(s) => find_in_delete(s, f),
        Node::Other(v) => find_in_list(v, f),
    }
}

/// A search reaches every part: what a child has, its parent has, down to the whole
/// statement; a sub-select in an expression is one itself, and so is a `WITH` clause.
pub proof fn law_searches_reach_every_part(n: Node, list: Vec<Node>, before: Seq<Node>, rest: Seq<Node>, f: Feature)
    ensures
        node_has(Node::SubLink(list), Feature::SubLink),
        with_has(Some(list), Feature::With),
        list_has(before + seq![n] + rest, f) <==> list_has(before, f) || node_has(n, f) || list_has(
            rest,
            f,
        ),
        !list_has(Seq::empty(), f),
        option_has(Some(n), f) == node_has(n, f),
        list_has(list@, f) ==> {
            &&& node_has(Node::SubLink(list), f)
            &&& node_has(Node::List(list), f)
            &&& node_has(Node::Column(list), f)
            &&& node_has(Node::Other(list), f)
            &&& node_has(Node::Bool(BoolOp::And, list), f)
            &&& node_has(Node::Bool(BoolOp::Or, list), f)
            &&& node_has(Node::Bool(BoolOp::Not, list), f)
            &&& with_has(Some(list), f)
        },
{
    let all = before + seq![n] + rest;
    let k = before.len() as int;
    assert(all[k] == n);
    if list_has(before, f) {
        let i = choose|i: int| 0 <= i < before.len() && node_has(#[trigger] before[i], f);
        assert(node_has(all[i], f));
    }
    if list_has(rest, f) {
        let i = choose|i: int| 0 <= i < rest.len() && node_has(#[trigger] rest[i], f);
        assert(node_has(all[k + 1 + i], f));
    }
    if list_has(all, f) {
        let i = choose|i: int| 0 <= i < all.len() && node_has(#[trigger] all[i], f);
        if i < k {
            assert(node_has(before[i], f));
        } else if i > k {
            assert(node_has(rest[i - k - 1], f));
        }
    }
}

/// Every clause of a statement and every operand is searched.
pub proof fn law_every_clause_is_searched(
    s: Box<SelectStmt>,
    i: Box<InsertStmt>,
    u: Box<UpdateStmt>,
    d: Box<DeleteStmt>,
    e: Box<AExpr>,
    j: Box<JoinExpr>,
    t: Box<ResTarget>,
    o: Box<SortBy>,
    x: Box<IndexElem>,
    f: Feature,
)
    ensures
        node_has(Node::Select(s), f) <==> ((s.larg is Some && select_has(*s.larg->0, f)) || (s.rarg
            is Some && select_has(*s.rarg->0, f)) || with_has(s.with_clause, f) || list_has(
            s.distinct_clause@,
            f,
        ) || list_has(s.target_list@, f) || list_has(s.from_clause@, f) || option_has(
            s.where_clause,
            f,
        ) || list_has(s.group_clause@, f) || option_has(s.having_clause, f) || list_has(
            s.window_clause@,
            f,
        ) || list_has(s.values_lists@, f) || list_has(s.sort_clause@, f) || option_has(
            s.limit_offset,
            f,
        ) || option_has(s.limit_count, f) || list_has(s.locking_clause@, f)),
        node_has(Node::Insert(i), f) <==> (list_has(i.cols@, f) || option_has(i.select_stmt, f)
            || list_has(i.returning_list@, f) || with_has(i.with_clause, f) || (
        i.on_conflict_clause matches Some(c) && (list_has(c.target_list@, f) || option_has(
            c.where_clause,
            f,
        ) || (c.infer matches Some(inf) && (list_has(inf.index_elems@, f) || option_has(
            inf.where_clause,
            f,
        )))))),
        node_has(Node::Update(u), f) <==> (list_has(u.target_list@, f) || option_has(
            u.where_clause,
            f,
        ) || list_has(u.from_clause@, f) || list_has(u.returning_list@, f) || with_has(
            u.with_clause,
            f,
        )),
        node_has(Node::Delete(d), f) <==> (list_has(d.using_clause@, f) || option_has(
            d.where_clause,
            f,
        ) || list_has(d.returning_list@, f) || with_has(d.with_clause, f)),
        node_has(Node::Expr(e), f) <==> option_has(e.lexpr, f) || option_has(e.rexpr, f),
        node_has(Node::Join(j), f) <==> option_has(j.larg, f) || option_has(j.rarg, f)
            || option_has(j.quals, f),
        node_has(Node::Target(t), f) <==> option_has(t.val, f) || list_has(t.indirection@, f),
        node_has(Node::SortBy(o), f) <==> option_has(o.node, f),
        node_has(Node::IndexElem(x), f) <==> option_has(x.expr, f),
        node_has(Node::Select(s), f) == select_has(*s, f),
        node_has(Node::Insert(i), f) == insert_has(*i, f),
        node_has(Node::Update(u), f) == update_has(*u, f),
        node_has(Node::Delete(d), f) == delete_has(*d, f),
{
    reveal_with_fuel(node_has, 2);
    reveal_with_fuel(arm_has, 2);
    reveal_with_fuel(select_has, 2);
    reveal_with_fuel(insert_has, 2);
    reveal_with_fuel(conflict_has, 2);
}

} // verus!
