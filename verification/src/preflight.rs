//! What must hold before a seeding workflow destroys anything.
//!
//! Seeding truncates target tables, replaces a slot and clears a checkpoint. Before any of
//! that the target database must carry the expected provenance marker,
//! the publication must cover exactly the mapped tables, and each table's
//! shard-key column must have a PostgreSQL type matching its declared wire
//! type and be covered by the replica identity. A typo'd or misdeclared spec must fail here,
//! with the target untouched.
use crate::instance;
use crate::shardfn::{self, ScalarType};
use crate::text;
use crate::workflow::{self, RunPlan, TablePlan};
use vstd::prelude::*;
use vstd::string::*;

verus! {

// ---------------------------------------------------------------------------------------
// The publication.
// ---------------------------------------------------------------------------------------

/// One publication member, read from the UNDERLYING catalog rows: an
/// explicit column list that names every current column is invisible in
/// pg_publication_tables.attnames yet freezes the published set (a later
/// ADD COLUMN silently vanishes from the stream), so only
/// pg_publication_rel.prattrs decides `has_column_list`.
#[derive(Debug, PartialEq, Eq)]
pub struct PublishedTable {
    pub schema: String,
    pub name: String,
    /// The currently-published column names — part of the drift shape: with
    /// no explicit list, ADD COLUMN silently expands the publication without
    /// touching any versioned catalog row, and only this list betrays it.
    pub columns: Vec<String>,
    pub has_column_list: bool,
    pub has_row_filter: bool,
}

/// The row version of a catalog row: its catalog (0 pg_publication, 1 pg_publication_rel,
/// 2 pg_publication_namespace), its oid and its xmin.
pub type RowVersion = (i32, u32, String);

/// The validated shape of the publication. Captured at preflight and
/// re-fetched during streaming: ALTER PUBLICATION can disable a DML kind or
/// add a row filter mid-stream, after which pgoutput silently omits changes
/// with no Relation message to betray it — the only defense is to notice the
/// catalog changed and fail the workflow loudly (a retry re-seeds from
/// scratch, so omitted changes can never be served).
#[derive(Debug, PartialEq, Eq)]
pub struct PublicationShape {
    pub insert: bool,
    pub update: bool,
    pub delete: bool,
    pub truncate: bool,
    pub via_partition_root: bool,
    pub publishes_generated: bool,
    pub all_tables: bool,
    /// Row versions of the pg_publication row and
    /// every pg_publication_rel / pg_publication_namespace row. A sampled
    /// shape comparison alone would miss a toggle-away-and-back between
    /// polls; ANY ALTER PUBLICATION rewrites at least one of these rows, so
    /// the version set cannot match unless the publication was untouched
    /// the whole time (xid reuse is separately fenced by the wrap horizon).
    pub versions: Vec<RowVersion>,
    pub tables: Vec<PublishedTable>,
}

/// A member as plain text.
#[verifier::ext_equal]
pub struct PublishedView {
    pub schema: Seq<char>,
    pub name: Seq<char>,
    pub columns: Seq<Seq<char>>,
    pub has_column_list: bool,
    pub has_row_filter: bool,
}

impl View for PublishedTable {
    type V = PublishedView;

    open spec fn view(&self) -> PublishedView {
        PublishedView {
            schema: self.schema@,
            name: self.name@,
            columns: text::views(self.columns@),
            has_column_list: self.has_column_list,
            has_row_filter: self.has_row_filter,
        }
    }
}

/// A shape as plain text.
#[verifier::ext_equal]
pub struct ShapeView {
    pub insert: bool,
    pub update: bool,
    pub delete: bool,
    pub truncate: bool,
    pub via_partition_root: bool,
    pub publishes_generated: bool,
    pub all_tables: bool,
    pub versions: Seq<(i32, u32, Seq<char>)>,
    pub tables: Seq<PublishedView>,
}

pub open spec fn version_views(s: Seq<RowVersion>) -> Seq<(i32, u32, Seq<char>)> {
    s.map_values(|v: RowVersion| (v.0, v.1, v.2@))
}

pub open spec fn table_views(s: Seq<PublishedTable>) -> Seq<PublishedView> {
    s.map_values(|t: PublishedTable| t@)
}

impl View for PublicationShape {
    type V = ShapeView;

    open spec fn view(&self) -> ShapeView {
        ShapeView {
            insert: self.insert,
            update: self.update,
            delete: self.delete,
            truncate: self.truncate,
            via_partition_root: self.via_partition_root,
            publishes_generated: self.publishes_generated,
            all_tables: self.all_tables,
            versions: version_views(self.versions@),
            tables: table_views(self.tables@),
        }
    }
}

fn same_names(a: &Vec<String>, b: &Vec<String>) -> (r: bool)
    ensures
        r == (text::views(a@) == text::views(b@)),
{
    if a.len() != b.len() {
        assert(text::views(a@).len() != text::views(b@).len());
        return false;
    }
    let mut i: usize = 0;
    while i < a.len()
        invariant
            i <= a@.len() == b@.len(),
            forall|k: int| 0 <= k < i ==> (#[trigger] a@[k])@ == b@[k]@,
        decreases a@.len() - i,
    {
        if !text::same(a[i].as_str(), b[i].as_str()) {
            assert(text::views(a@)[i as int] != text::views(b@)[i as int]);
            return false;
        }
        i += 1;
    }
    assert(text::views(a@) =~= text::views(b@));
    true
}

fn same_versions(a: &Vec<RowVersion>, b: &Vec<RowVersion>) -> (r: bool)
    ensures
        r == (version_views(a@) == version_views(b@)),
{
    if a.len() != b.len() {
        assert(version_views(a@).len() != version_views(b@).len());
        return false;
    }
    let mut i: usize = 0;
    while i < a.len()
        invariant
            i <= a@.len() == b@.len(),
            forall|k: int|
                0 <= k < i ==> version_views(a@)[k] == #[trigger] version_views(b@)[k],
        decreases a@.len() - i,
    {
        if a[i].0 != b[i].0 || a[i].1 != b[i].1 || !text::same(a[i].2.as_str(), b[i].2.as_str()) {
            assert(version_views(a@)[i as int] != version_views(b@)[i as int]);
            return false;
        }
        i += 1;
    }
    assert(version_views(a@) =~= version_views(b@));
    true
}

fn same_tables(a: &Vec<PublishedTable>, b: &Vec<PublishedTable>) -> (r: bool)
    ensures
        r == (table_views(a@) == table_views(b@)),
{
    if a.len() != b.len() {
        assert(table_views(a@).len() != table_views(b@).len());
        return false;
    }
    let mut i: usize = 0;
    while i < a.len()
        invariant
            i <= a@.len() == b@.len(),
            forall|k: int| 0 <= k < i ==> table_views(a@)[k] == #[trigger] table_views(b@)[k],
        decreases a@.len() - i,
    {
        if !text::same(a[i].schema.as_str(), b[i].schema.as_str()) || !text::same(
            a[i].name.as_str(),
            b[i].name.as_str(),
        ) || !same_names(&a[i].columns, &b[i].columns) || a[i].has_column_list
            != b[i].has_column_list || a[i].has_row_filter != b[i].has_row_filter {
            assert(table_views(a@)[i as int] != table_views(b@)[i as int]);
            return false;
        }
        i += 1;
    }
    assert(table_views(a@) =~= table_views(b@));
    true
}

impl PublicationShape {
    /// Whether two shapes are the same.
    pub fn same(&self, other: &PublicationShape) -> (r: bool)
        ensures
            r == (self@ == other@),
    {
        self.insert == other.insert && self.update == other.update && self.delete == other.delete
            && self.truncate == other.truncate && self.via_partition_root
            == other.via_partition_root && self.publishes_generated == other.publishes_generated
            && self.all_tables == other.all_tables && same_versions(&self.versions, &other.versions)
            && same_tables(&self.tables, &other.tables)
    }
}

/// The publication's validated shape plus the exact xid horizon fencing xmin
/// reuse: 32-bit xmins recur when the counter wraps back to a captured value,
/// and freezing PRESERVES old xmins — a row frozen nearly a full wrap ago can
/// be only a few xids ahead of the counter. `horizon` is the minimum forward
/// distance from the baseline xid to ANY captured xmin; while fewer xids than
/// that have been consumed, no new assignment can equal a captured value, so
/// version equality is proof the row was never rewritten.
#[derive(Debug, PartialEq, Eq)]
pub struct PublicationBaseline {
    pub shape: PublicationShape,
    pub xid: u64,
    pub horizon: u64,
}

/// How many xids until the counter, now at `base`, has the low bits `v` again; 0 where it
/// has them now.
pub open spec fn forward_distance(base: u64, v: int) -> int {
    (v - base % 0x1_0000_0000) % 0x1_0000_0000
}

/// An xmin as a number.
pub open spec fn xmin_of(s: Seq<char>) -> Option<u32> {
    match text::parse_unsigned(s, 10) {
        Some(v) => if v <= u32::MAX {
            Some(v as u32)
        } else {
            None
        },
        None => None,
    }
}

/// The horizon of some row versions, or the first xmin that is not a number.
pub open spec fn horizon_of(base: u64, versions: Seq<RowVersion>) -> Result<int, Seq<char>>
    decreases versions.len(),
{
    if versions.len() == 0 {
        Ok(0x1_0000_0000)
    } else {
        match horizon_of(base, versions.drop_last()) {
            Err(e) => Err(e),
            Ok(h) => match xmin_of(versions.last().2@) {
                None => Err(versions.last().2@),
                Some(v) => {
                    let d = forward_distance(base, v as int);
                    if v < 3 || d == 0 || h <= d {
                        Ok(h)
                    } else {
                        Ok(d)
                    }
                },
            },
        }
    }
}

proof fn lemma_horizon_error(base: u64, versions: Seq<RowVersion>, n: int)
    requires
        0 <= n <= versions.len(),
        horizon_of(base, versions.take(n)) is Err,
    ensures
        horizon_of(base, versions) == horizon_of(base, versions.take(n)),
    decreases versions.len() - n,
{
    if n == versions.len() {
        assert(versions.take(n) =~= versions);
    } else {
        assert(versions.take(n + 1).drop_last() =~= versions.take(n));
        lemma_horizon_error(base, versions, n + 1);
    }
}

pub open spec fn unparseable(xmin: Seq<char>) -> Seq<char> {
    "unparseable catalog xmin "@ + text::debug_text(xmin)
}

/// Forward-recurrence horizon: min over captured xmins of the xid distance
/// until the counter reaches that value again. Special xids (< 3: bootstrap,
/// frozen) are never assigned again and do not bound the horizon.
pub fn xid_recurrence_horizon(base: u64, versions: &Vec<RowVersion>) -> (r: Result<u64, String>)
    ensures
        match horizon_of(base, versions@) {
            Ok(h) => r == Ok::<u64, String>(h as u64) && 0 < h <= 0x1_0000_0000,
            Err(e) => r is Err && r->Err_0@ == unparseable(e),
        },
{
    let low: u64 = base % 0x1_0000_0000;
    let mut horizon: u64 = 0x1_0000_0000;
    let mut i: usize = 0;
    while i < versions.len()
        invariant
            i <= versions@.len(),
            low == base % 0x1_0000_0000,
            0 < horizon <= 0x1_0000_0000,
            horizon_of(base, versions@.take(i as int)) == Ok::<int, Seq<char>>(horizon as int),
        decreases versions@.len() - i,
    {
        proof {
            assert(versions@.take(i + 1).drop_last() =~= versions@.take(i as int));
            assert(versions@.take(i + 1).last() == versions@[i as int]);
        }
        let xmin = versions[i].2.as_str();
        let v: u64 = match text::read_unsigned(&text::chars(xmin), 10) {
            Some(v) if v <= 0xffff_ffff => v,
            _ => {
                proof {
                    lemma_horizon_error(base, versions@, i + 1);
                }
                return Err(
                    text::concat2(
                        "unparseable catalog xmin ",
                        text::debug_string(xmin).as_str(),
                    ),
                );
            },
        };
        if v >= 3 {
            let d: u64 = if v >= low {
                v - low
            } else {
                0x1_0000_0000 - low + v
            };
            proof {
                assert(d == forward_distance(base, v as int)) by {
                    if v >= low {
                        vstd::arithmetic::div_mod::lemma_small_mod(
                            (v - low) as nat,
                            0x1_0000_0000,
                        );
                    } else {
                        vstd::arithmetic::div_mod::lemma_mod_add_multiples_vanish(
                            v - low,
                            0x1_0000_0000,
                        );
                        vstd::arithmetic::div_mod::lemma_small_mod(d as nat, 0x1_0000_0000);
                    }
                }
            }
            if d > 0 && d < horizon {
                horizon = d;
            }
        }
        i += 1;
    }
    proof {
        assert(versions@.take(versions@.len() as int) =~= versions@);
    }
    Ok(horizon)
}

/// While fewer xids than the horizon have been consumed, no new xid has the low bits of a
/// captured one, so a catalog row that still carries the captured xmin was not rewritten.
pub proof fn law_no_captured_xmin_recurs(
    base: u64,
    versions: Seq<RowVersion>,
    i: int,
    consumed: int,
)
    requires
        horizon_of(base, versions) is Ok,
        0 <= i < versions.len(),
        xmin_of(versions[i].2@)->0 >= 3,
        0 < consumed < horizon_of(base, versions)->Ok_0,
    ensures
        xmin_of(versions[i].2@) is Some,
        (base + consumed) % 0x1_0000_0000 != xmin_of(versions[i].2@)->0,
    decreases versions.len(),
{
    let h = horizon_of(base, versions.drop_last())->Ok_0;
    lemma_horizon_range(base, versions);
    lemma_horizon_range(base, versions.drop_last());
    if i < versions.len() - 1 {
        law_no_captured_xmin_recurs(base, versions.drop_last(), i, consumed);
    } else {
        let v = xmin_of(versions[i].2@)->0 as int;
        let m = 0x1_0000_0000int;
        let d = forward_distance(base, v);
        if (base + consumed) % m == v {
            // Then the counter reaches the captured value after `consumed` xids.
            let low = base % 0x1_0000_0000;
            assert((low + consumed) % m == v) by {
                vstd::arithmetic::div_mod::lemma_add_mod_noop(base as int, consumed, m);
                vstd::arithmetic::div_mod::lemma_add_mod_noop(low as int, consumed, m);
                vstd::arithmetic::div_mod::lemma_small_mod(low as nat, m as nat);
            }
            if low + consumed < m {
                vstd::arithmetic::div_mod::lemma_small_mod((low + consumed) as nat, m as nat);
                vstd::arithmetic::div_mod::lemma_small_mod(consumed as nat, m as nat);
            } else {
                vstd::arithmetic::div_mod::lemma_mod_add_multiples_vanish(low + consumed - m, m);
                vstd::arithmetic::div_mod::lemma_small_mod((low + consumed - m) as nat, m as nat);
                vstd::arithmetic::div_mod::lemma_mod_add_multiples_vanish(v - low, m);
                vstd::arithmetic::div_mod::lemma_small_mod(consumed as nat, m as nat);
            }
            assert(d == consumed);
        }
    }
}

proof fn lemma_horizon_range(base: u64, versions: Seq<RowVersion>)
    ensures
        horizon_of(base, versions) is Ok ==> 0 < horizon_of(base, versions)->Ok_0
            <= 0x1_0000_0000,
    decreases versions.len(),
{
    if versions.len() > 0 {
        lemma_horizon_range(base, versions.drop_last());
        match xmin_of(versions.last().2@) {
            Some(v) => {
                vstd::arithmetic::div_mod::lemma_mod_bound(
                    v as int - base % 0x1_0000_0000,
                    0x1_0000_0000,
                );
            },
            None => {},
        }
    }
}

/// The publication's row in pg_publication, with the current xid.
#[derive(Debug, PartialEq, Eq)]
pub struct PublicationRow {
    pub insert: bool,
    pub update: bool,
    pub delete: bool,
    pub truncate: bool,
    pub via_partition_root: bool,
    pub publishes_generated: bool,
    pub all_tables: bool,
    pub xid: String,
}

/// What `str::parse::<u64>` says against a text that is no unsigned 64-bit integer.
pub uninterp spec fn unsigned_fault_text(s: Seq<char>) -> Seq<char>;

/// `str::parse::<u64>`: its error as text. It depends on the text alone.
#[verifier::external_body]
fn unsigned_fault(s: &str) -> (r: String)
    ensures
        r@ == unsigned_fault_text(s@),
{
    match s.parse::<u64>() {
        Ok(_) => String::new(),
        Err(e) => e.to_string(),
    }
}

/// What is wrong with what was fetched of a publication.
pub open spec fn baseline_fault(
    publication: Seq<char>,
    row: Option<PublicationRow>,
    versions: Seq<RowVersion>,
) -> Option<Seq<char>> {
    match row {
        None => Some("publication "@ + publication + " does not exist on the source"@),
        Some(r) => match text::parse_unsigned(r.xid@, 10) {
            None => Some(unsigned_fault_text(r.xid@)),
            Some(xid) => match horizon_of(xid, versions) {
                Err(e) => Some(unparseable(e)),
                Ok(_) => None,
            },
        },
    }
}

/// Assembles what was fetched of a publication.
pub fn fetch_publication(
    publication: &str,
    row: Option<PublicationRow>,
    versions: Vec<RowVersion>,
    tables: Vec<PublishedTable>,
) -> (r: Result<PublicationBaseline, String>)
    ensures
        match baseline_fault(publication@, row, versions@) {
            Some(f) => r is Err && r->Err_0@ == f,
            None => {
                &&& r is Ok
                &&& row is Some
                &&& text::parse_unsigned(row->0.xid@, 10) == Some(r->Ok_0.xid)
                &&& horizon_of(r->Ok_0.xid, versions@) == Ok::<int, Seq<char>>(
                    r->Ok_0.horizon as int,
                )
                &&& r->Ok_0.shape.insert == row->0.insert
                &&& r->Ok_0.shape.update == row->0.update
                &&& r->Ok_0.shape.delete == row->0.delete
                &&& r->Ok_0.shape.truncate == row->0.truncate
                &&& r->Ok_0.shape.via_partition_root == row->0.via_partition_root
                &&& r->Ok_0.shape.publishes_generated == row->0.publishes_generated
                &&& r->Ok_0.shape.all_tables == row->0.all_tables
                &&& r->Ok_0.shape.versions == versions
                &&& r->Ok_0.shape.tables == tables
            },
        },
{
    let row = match row {
        Some(row) => row,
        None => {
            return Err(
                text::concat3("publication ", publication, " does not exist on the source"),
            );
        },
    };
    let xid: u64 = match text::read_unsigned(&text::chars(row.xid.as_str()), 10) {
        Some(xid) => xid,
        None => {
            return Err(unsigned_fault(row.xid.as_str()));
        },
    };
    let horizon: u64 = match xid_recurrence_horizon(xid, &versions) {
        Ok(h) => h,
        Err(e) => {
            return Err(e);
        },
    };
    Ok(
        PublicationBaseline {
            shape: PublicationShape {
                insert: row.insert,
                update: row.update,
                delete: row.delete,
                truncate: row.truncate,
                via_partition_root: row.via_partition_root,
                publishes_generated: row.publishes_generated,
                all_tables: row.all_tables,
                versions,
                tables,
            },
            xid,
            horizon,
        },
    )
}

/// Whether a table is published.
pub open spec fn is_published(published: Seq<PublishedTable>, t: TablePlan) -> bool {
    exists|i: int|
        0 <= i < published.len() && (#[trigger] published[i]).schema@ == t.schema@
            && published[i].name@ == t.name@
}

/// Whether a member is mapped.
pub open spec fn is_mapped(tables: Seq<TablePlan>, p: PublishedTable) -> bool {
    exists|i: int|
        0 <= i < tables.len() && (#[trigger] tables[i]).schema@ == p.schema@ && tables[i].name@
            == p.name@
}

/// A table's name, as messages have it.
pub open spec fn table_text(t: TablePlan) -> Seq<char> {
    workflow::dotted(t.schema@, t.name@)
}

pub open spec fn member_text(p: PublishedTable) -> Seq<char> {
    workflow::dotted(p.schema@, p.name@)
}

/// The first mapped table that is not published, as a fault: it would be seeded once and
/// then silently never receive changes.
pub open spec fn unpublished_fault(
    publication: Seq<char>,
    tables: Seq<TablePlan>,
    published: Seq<PublishedTable>,
) -> Option<Seq<char>>
    decreases tables.len(),
{
    if tables.len() == 0 {
        None
    } else if unpublished_fault(publication, tables.drop_last(), published) is Some {
        unpublished_fault(publication, tables.drop_last(), published)
    } else if !is_published(published, tables.last()) {
        Some(
            "table "@ + table_text(tables.last()) + " is not in publication "@ + publication
                + ": it would be seeded once and then never receive changes"@,
        )
    } else {
        None
    }
}

/// What is wrong with one member: unmapped, it would kill the
/// stream mid-flight after seeding; a row filter would drop changes the copy included; a
/// column list would transform rows.
pub open spec fn member_fault(
    publication: Seq<char>,
    tables: Seq<TablePlan>,
    p: PublishedTable,
) -> Option<Seq<char>> {
    if !is_mapped(tables, p) {
        Some(
            "publication "@ + publication + " carries unmapped table "@ + member_text(p)
                + ": the stream would fail after seeding"@,
        )
    } else if p.has_row_filter {
        Some(
            "publication "@ + publication + " filters rows of "@ + member_text(p)
                + ": the stream would silently drop changes the seed copy included"@,
        )
    } else if p.has_column_list {
        Some(
            "publication "@ + publication + " publishes a different column set of "@ + member_text(
                p,
            )
                + ": even a currently-complete list freezes the published set, so a later ADD COLUMN would silently vanish from the stream"@,
        )
    } else {
        None
    }
}

/// What is wrong with the first faulty member.
pub open spec fn members_fault(
    publication: Seq<char>,
    tables: Seq<TablePlan>,
    published: Seq<PublishedTable>,
) -> Option<Seq<char>>
    decreases published.len(),
{
    if published.len() == 0 {
        None
    } else if members_fault(publication, tables, published.drop_last()) is Some {
        members_fault(publication, tables, published.drop_last())
    } else {
        member_fault(publication, tables, published.last())
    }
}

/// Whether a publication publishes whole schemas.
pub open spec fn publishes_schemas(versions: Seq<RowVersion>) -> bool {
    exists|i: int| 0 <= i < versions.len() && (#[trigger] versions[i]).0 == 2
}

/// What is wrong with a publication: the first of these.
pub open spec fn publication_fault(run: RunPlan, shape: PublicationShape) -> Option<Seq<char>> {
    if !(shape.insert && shape.update && shape.delete && shape.truncate) {
        Some(
            "publication "@ + run.publication@
                + " does not publish all of insert/update/delete/truncate: disabled kinds would be silently omitted from the stream"@,
        )
    } else if shape.via_partition_root {
        Some(
            "publication "@ + run.publication@
                + " sets publish_via_partition_root, which this runner cannot stream soundly"@,
        )
    } else if shape.publishes_generated {
        Some(
            "publication "@ + run.publication@
                + " publishes generated columns, which this runner cannot stream soundly"@,
        )
    } else if shape.all_tables {
        Some(
            "publication "@ + run.publication@
                + " is FOR ALL TABLES; its membership cannot be pinned — use an explicit FOR TABLE publication"@,
        )
    } else if publishes_schemas(shape.versions@) {
        Some(
            "publication "@ + run.publication@
                + " publishes TABLES IN SCHEMA; its membership cannot be pinned — use an explicit FOR TABLE publication"@,
        )
    } else if unpublished_fault(run.publication@, run.tables@, shape.tables@) is Some {
        unpublished_fault(run.publication@, run.tables@, shape.tables@)
    } else {
        members_fault(run.publication@, run.tables@, shape.tables@)
    }
}

/// Whether a check passed, or failed with the message.
pub open spec fn passes(r: Result<(), String>, fault: Option<Seq<char>>) -> bool {
    match fault {
        Some(f) => r is Err && r->Err_0@ == f,
        None => r is Ok,
    }
}

fn table_name(t: &TablePlan) -> (r: String)
    ensures
        r@ == table_text(*t),
{
    text::concat3(t.schema.as_str(), ".", t.name.as_str())
}

fn member_name(p: &PublishedTable) -> (r: String)
    ensures
        r@ == member_text(*p),
{
    text::concat3(p.schema.as_str(), ".", p.name.as_str())
}

fn published(tables: &Vec<PublishedTable>, t: &TablePlan) -> (r: bool)
    ensures
        r == is_published(tables@, *t),
{
    let mut i: usize = 0;
    while i < tables.len()
        invariant
            i <= tables@.len(),
            forall|k: int|
                0 <= k < i ==> !((#[trigger] tables@[k]).schema@ == t.schema@ && tables@[k].name@
                    == t.name@),
        decreases tables@.len() - i,
    {
        if text::same(tables[i].schema.as_str(), t.schema.as_str()) && text::same(
            tables[i].name.as_str(),
            t.name.as_str(),
        ) {
            return true;
        }
        i += 1;
    }
    false
}

fn mapped(tables: &Vec<TablePlan>, p: &PublishedTable) -> (r: bool)
    ensures
        r == is_mapped(tables@, *p),
{
    let mut i: usize = 0;
    while i < tables.len()
        invariant
            i <= tables@.len(),
            forall|k: int|
                0 <= k < i ==> !((#[trigger] tables@[k]).schema@ == p.schema@ && tables@[k].name@
                    == p.name@),
        decreases tables@.len() - i,
    {
        if text::same(tables[i].schema.as_str(), p.schema.as_str()) && text::same(
            tables[i].name.as_str(),
            p.name.as_str(),
        ) {
            return true;
        }
        i += 1;
    }
    false
}

proof fn lemma_unpublished(
    publication: Seq<char>,
    tables: Seq<TablePlan>,
    published: Seq<PublishedTable>,
    n: int,
)
    requires
        0 <= n <= tables.len(),
        unpublished_fault(publication, tables.take(n), published) is Some,
    ensures
        unpublished_fault(publication, tables, published) == unpublished_fault(
            publication,
            tables.take(n),
            published,
        ),
    decreases tables.len() - n,
{
    if n == tables.len() {
        assert(tables.take(n) =~= tables);
    } else {
        assert(tables.take(n + 1).drop_last() =~= tables.take(n));
        lemma_unpublished(publication, tables, published, n + 1);
    }
}

proof fn lemma_members(
    publication: Seq<char>,
    tables: Seq<TablePlan>,
    published: Seq<PublishedTable>,
    n: int,
)
    requires
        0 <= n <= published.len(),
        members_fault(publication, tables, published.take(n)) is Some,
    ensures
        members_fault(publication, tables, published) == members_fault(
            publication,
            tables,
            published.take(n),
        ),
    decreases published.len() - n,
{
    if n == published.len() {
        assert(published.take(n) =~= published);
    } else {
        assert(published.take(n + 1).drop_last() =~= published.take(n));
        lemma_members(publication, tables, published, n + 1);
    }
}

fn check_member(publication: &str, tables: &Vec<TablePlan>, p: &PublishedTable) -> (r: Result<
    (),
    String,
>)
    ensures
        passes(r, member_fault(publication@, tables@, *p)),
{
    if !mapped(tables, p) {
        return Err(
            text::concat5(
                "publication ",
                publication,
                " carries unmapped table ",
                member_name(p).as_str(),
                ": the stream would fail after seeding",
            ),
        );
    }
    if p.has_row_filter {
        return Err(
            text::concat5(
                "publication ",
                publication,
                " filters rows of ",
                member_name(p).as_str(),
                ": the stream would silently drop changes the seed copy included",
            ),
        );
    }
    if p.has_column_list {
        return Err(
            text::concat5(
                "publication ",
                publication,
                " publishes a different column set of ",
                member_name(p).as_str(),
                ": even a currently-complete list freezes the published set, so a later ADD COLUMN would silently vanish from the stream",
            ),
        );
    }
    Ok(())
}

fn has_schema_row(versions: &Vec<RowVersion>) -> (r: bool)
    ensures
        r == publishes_schemas(versions@),
{
    let mut i: usize = 0;
    while i < versions.len()
        invariant
            i <= versions@.len(),
            forall|k: int| 0 <= k < i ==> (#[trigger] versions@[k]).0 != 2,
        decreases versions@.len() - i,
    {
        if versions[i].0 == 2 {
            return true;
        }
        i += 1;
    }
    false
}

/// The publication must republish EVERYTHING: all DML kinds (a disabled
/// kind is silently omitted — TRUNCATE included, so a source truncate
/// reaches the stream and fails loudly instead of silently diverging),
/// no row filter, and no column
/// list. And it must cover EXACTLY the mapped
/// tables. publish_via_partition_root publishes the ROOT in the catalog while
/// pgoutput still announces leaf relations, and a direct
/// leaf TRUNCATE is not published at all. FOR ALL TABLES and TABLES IN SCHEMA memberships
/// expand DYNAMICALLY; only explicit FOR TABLE publications give
/// every member a versioned pg_publication_rel row.
pub fn check_publication(run: &RunPlan, shape: &PublicationShape) -> (r: Result<(), String>)
    ensures
        passes(r, publication_fault(*run, *shape)),
{
    let name = run.publication.as_str();
    if !(shape.insert && shape.update && shape.delete && shape.truncate) {
        return Err(
            text::concat3(
                "publication ",
                name,
                " does not publish all of insert/update/delete/truncate: disabled kinds would be silently omitted from the stream",
            ),
        );
    }
    if shape.via_partition_root {
        return Err(
            text::concat3(
                "publication ",
                name,
                " sets publish_via_partition_root, which this runner cannot stream soundly",
            ),
        );
    }
    if shape.publishes_generated {
        return Err(
            text::concat3(
                "publication ",
                name,
                " publishes generated columns, which this runner cannot stream soundly",
            ),
        );
    }
    if shape.all_tables {
        return Err(
            text::concat3(
                "publication ",
                name,
                " is FOR ALL TABLES; its membership cannot be pinned — use an explicit FOR TABLE publication",
            ),
        );
    }
    if has_schema_row(&shape.versions) {
        return Err(
            text::concat3(
                "publication ",
                name,
                " publishes TABLES IN SCHEMA; its membership cannot be pinned — use an explicit FOR TABLE publication",
            ),
        );
    }
    let mut i: usize = 0;
    while i < run.tables.len()
        invariant
            i <= run.tables@.len(),
            name@ == run.publication@,
            unpublished_fault(name@, run.tables@.take(i as int), shape.tables@) is None,
            publication_fault(*run, *shape) == (if unpublished_fault(
                name@,
                run.tables@,
                shape.tables@,
            ) is Some {
                unpublished_fault(name@, run.tables@, shape.tables@)
            } else {
                members_fault(name@, run.tables@, shape.tables@)
            }),
        decreases run.tables@.len() - i,
    {
        proof {
            assert(run.tables@.take(i + 1).drop_last() =~= run.tables@.take(i as int));
        }
        if !published(&shape.tables, &run.tables[i]) {
            proof {
                lemma_unpublished(name@, run.tables@, shape.tables@, i + 1);
            }
            return Err(
                text::concat5(
                    "table ",
                    table_name(&run.tables[i]).as_str(),
                    " is not in publication ",
                    name,
                    ": it would be seeded once and then never receive changes",
                ),
            );
        }
        i += 1;
    }
    proof {
        assert(run.tables@.take(run.tables@.len() as int) =~= run.tables@);
    }
    let mut j: usize = 0;
    while j < shape.tables.len()
        invariant
            j <= shape.tables@.len(),
            name@ == run.publication@,
            members_fault(name@, run.tables@, shape.tables@.take(j as int)) is None,
            publication_fault(*run, *shape) == members_fault(name@, run.tables@, shape.tables@),
        decreases shape.tables@.len() - j,
    {
        proof {
            assert(shape.tables@.take(j + 1).drop_last() =~= shape.tables@.take(j as int));
        }
        match check_member(name, &run.tables, &shape.tables[j]) {
            Ok(()) => {},
            Err(e) => {
                proof {
                    lemma_members(name@, run.tables@, shape.tables@, j + 1);
                }
                return Err(e);
            },
        }
        j += 1;
    }
    proof {
        assert(shape.tables@.take(shape.tables@.len() as int) =~= shape.tables@);
    }
    Ok(())
}

/// A publication that passes covers exactly the mapped tables, whole: every mapped table is
/// published, every member is mapped, and none has a row filter or a column list.
pub proof fn law_publication_covers_exactly_the_mapped_tables(
    run: RunPlan,
    shape: PublicationShape,
)
    requires
        publication_fault(run, shape) is None,
    ensures
        forall|i: int|
            0 <= i < run.tables@.len() ==> is_published(
                shape.tables@,
                #[trigger] run.tables@[i],
            ),
        forall|i: int|
            0 <= i < shape.tables@.len() ==> is_mapped(
                run.tables@,
                #[trigger] shape.tables@[i],
            ) && !shape.tables@[i].has_row_filter && !shape.tables@[i].has_column_list,
        shape.insert && shape.update && shape.delete && shape.truncate,
{
    assert forall|i: int| 0 <= i < run.tables@.len() implies is_published(
        shape.tables@,
        #[trigger] run.tables@[i],
    ) by {
        lemma_all_published(run.publication@, run.tables@, shape.tables@, i);
    }
    assert forall|i: int| 0 <= i < shape.tables@.len() implies is_mapped(
        run.tables@,
        #[trigger] shape.tables@[i],
    ) && !shape.tables@[i].has_row_filter && !shape.tables@[i].has_column_list by {
        lemma_all_members(run.publication@, run.tables@, shape.tables@, i);
    }
}

proof fn lemma_all_published(
    publication: Seq<char>,
    tables: Seq<TablePlan>,
    published: Seq<PublishedTable>,
    i: int,
)
    requires
        0 <= i < tables.len(),
        unpublished_fault(publication, tables, published) is None,
    ensures
        is_published(published, tables[i]),
    decreases tables.len(),
{
    if i < tables.len() - 1 {
        lemma_all_published(publication, tables.drop_last(), published, i);
    }
}

proof fn lemma_all_members(
    publication: Seq<char>,
    tables: Seq<TablePlan>,
    published: Seq<PublishedTable>,
    i: int,
)
    requires
        0 <= i < published.len(),
        members_fault(publication, tables, published) is None,
    ensures
        member_fault(publication, tables, published[i]) is None,
    decreases published.len(),
{
    if i < published.len() - 1 {
        lemma_all_members(publication, tables, published.drop_last(), i);
    }
}

// ---------------------------------------------------------------------------------------
// The tables.
// ---------------------------------------------------------------------------------------

/// One column as both sides' compatibility check needs it.
#[derive(Debug, Clone, PartialEq, Eq)]
pub struct SqlColumn {
    pub name: String,
    pub type_oid: u32,
    pub typmod: i32,
    pub generated: bool,
    /// attidentity: 0 none, 'a' GENERATED ALWAYS, 'd' BY DEFAULT.
    pub identity: u8,
    pub relkind: u8,
}

/// PostgreSQL type OIDs a declared shard-key type may hash soundly. bpchar
/// (1042) is deliberately absent from Text: char(n) pads with spaces, so the
/// same logical value hashes differently than its text form would.
pub open spec fn key_oids(ty: ScalarType) -> Seq<u32> {
    match ty {
        ScalarType::Int => seq![20, 21, 23],
        ScalarType::Text => seq![25, 1043],
        ScalarType::Uuid => seq![2950],
        ScalarType::Bytea => seq![17],
    }
}

pub fn allowed_key_oids(key_type: ScalarType) -> (r: Vec<u32>)
    ensures
        r@ == key_oids(key_type),
{
    match key_type {
        ScalarType::Int => vec![20, 21, 23],
        ScalarType::Text => vec![25, 1043],
        ScalarType::Uuid => vec![2950],
        ScalarType::Bytea => vec![17],
    }
}

/// Whether a column of this type can be hashed as declared.
pub fn hashable(key_type: ScalarType, oid: u32) -> (r: bool)
    ensures
        r == key_oids(key_type).contains(oid),
{
    let oids = allowed_key_oids(key_type);
    let mut i: usize = 0;
    while i < oids.len()
        invariant
            i <= oids@.len(),
            oids@ == key_oids(key_type),
            forall|k: int| 0 <= k < i ==> oids@[k] != oid,
        decreases oids@.len() - i,
    {
        if oids[i] == oid {
            assert(oids@.contains(oid));
            return true;
        }
        i += 1;
    }
    assert(!oids@.contains(oid));
    false
}

/// The position of the first column with the name, or the number of columns.
pub open spec fn column_at(cs: Seq<SqlColumn>, name: Seq<char>) -> int
    decreases cs.len(),
{
    if cs.len() == 0 || cs[0].name@ == name {
        0
    } else {
        1 + column_at(cs.drop_first(), name)
    }
}

proof fn lemma_column_at(cs: Seq<SqlColumn>, name: Seq<char>, p: int)
    requires
        0 <= p <= cs.len(),
        p < cs.len() ==> cs[p].name@ == name,
        forall|k: int| 0 <= k < p ==> (#[trigger] cs[k]).name@ != name,
    ensures
        column_at(cs, name) == p,
    decreases cs.len(),
{
    if p > 0 {
        assert(cs[0].name@ != name);
        let t = cs.drop_first();
        assert forall|k: int| 0 <= k < p - 1 implies (#[trigger] t[k]).name@ != name by {
            assert(t[k] == cs[k + 1]);
        }
        lemma_column_at(t, name, p - 1);
    }
}

proof fn lemma_column_found(cs: Seq<SqlColumn>, name: Seq<char>)
    ensures
        0 <= column_at(cs, name) <= cs.len(),
        column_at(cs, name) < cs.len() ==> cs[column_at(cs, name)].name@ == name,
    decreases cs.len(),
{
    if cs.len() > 0 && cs[0].name@ != name {
        lemma_column_found(cs.drop_first(), name);
    }
}

fn find_column(cs: &Vec<SqlColumn>, name: &str) -> (r: usize)
    ensures
        r == column_at(cs@, name@),
        r <= cs@.len(),
        r < cs@.len() ==> cs@[r as int].name@ == name@,
{
    let mut i: usize = 0;
    while i < cs.len() && !text::same(cs[i].name.as_str(), name)
        invariant
            i <= cs@.len(),
            forall|k: int| 0 <= k < i ==> (#[trigger] cs@[k]).name@ != name@,
        decreases cs@.len() - i,
    {
        i += 1;
    }
    proof {
        lemma_column_at(cs@, name@, i as int);
    }
    i
}

/// A column and its table, as messages have it.
pub open spec fn column_text(c: SqlColumn, t: TablePlan) -> Seq<char> {
    "column "@ + c.name@ + " of "@ + table_text(t)
}

fn column_name(c: &SqlColumn, t: &TablePlan) -> (r: String)
    ensures
        r@ == column_text(*c, *t),
{
    text::concat4("column ", c.name.as_str(), " of ", table_name(t).as_str())
}

/// The first generated column, as a fault. pgoutput does not
/// publish generated columns and COPY cannot insert them, and PostgreSQL offers no
/// sound cross-database comparison of the generation expressions.
pub open spec fn generated_fault(t: TablePlan, cs: Seq<SqlColumn>) -> Option<Seq<char>>
    decreases cs.len(),
{
    if cs.len() == 0 {
        None
    } else if generated_fault(t, cs.drop_last()) is Some {
        generated_fault(t, cs.drop_last())
    } else if cs.last().generated {
        Some(
            column_text(cs.last(), t)
                + " is generated; generated columns cannot be streamed soundly"@,
        )
    } else {
        None
    }
}

/// What is wrong with a source table. Only plain tables: pgoutput announces partition LEAVES
/// while the catalog publishes the root, and a direct leaf TRUNCATE is not
/// published.
pub open spec fn source_fault(t: TablePlan, src: Seq<SqlColumn>) -> Option<Seq<char>> {
    if src.len() == 0 {
        Some("source table "@ + table_text(t) + " not found"@)
    } else if src[0].relkind != 114 {
        Some(
            "source table "@ + table_text(t) + " is not a plain table (relkind "@
                + text::debug_char_text(src[0].relkind as char)
                + "); partitioned sources are not supported"@,
        )
    } else {
        generated_fault(t, src)
    }
}

proof fn lemma_generated(t: TablePlan, cs: Seq<SqlColumn>, n: int)
    requires
        0 <= n <= cs.len(),
        generated_fault(t, cs.take(n)) is Some,
    ensures
        generated_fault(t, cs) == generated_fault(t, cs.take(n)),
    decreases cs.len() - n,
{
    if n == cs.len() {
        assert(cs.take(n) =~= cs);
    } else {
        assert(cs.take(n + 1).drop_last() =~= cs.take(n));
        lemma_generated(t, cs, n + 1);
    }
}

pub fn check_source(t: &TablePlan, src: &Vec<SqlColumn>) -> (r: Result<(), String>)
    ensures
        passes(r, source_fault(*t, src@)),
{
    if src.len() == 0 {
        return Err(text::concat3("source table ", table_name(t).as_str(), " not found"));
    }
    if src[0].relkind != 114 {
        return Err(
            text::concat5(
                "source table ",
                table_name(t).as_str(),
                " is not a plain table (relkind ",
                text::debug_char(src[0].relkind as char).as_str(),
                "); partitioned sources are not supported",
            ),
        );
    }
    let mut i: usize = 0;
    while i < src.len()
        invariant
            i <= src@.len(),
            generated_fault(*t, src@.take(i as int)) is None,
            source_fault(*t, src@) == generated_fault(*t, src@),
        decreases src@.len() - i,
    {
        proof {
            assert(src@.take(i + 1).drop_last() =~= src@.take(i as int));
        }
        if src[i].generated {
            proof {
                lemma_generated(*t, src@, i + 1);
            }
            return Err(
                text::concat2(
                    column_name(&src[i], t).as_str(),
                    " is generated; generated columns cannot be streamed soundly",
                ),
            );
        }
        i += 1;
    }
    proof {
        assert(src@.take(src@.len() as int) =~= src@);
    }
    Ok(())
}

/// The first target column that the source does not have, as a fault.
pub open spec fn extra_fault(t: TablePlan, src: Seq<SqlColumn>, tgt: Seq<SqlColumn>) -> Option<
    Seq<char>,
>
    decreases tgt.len(),
{
    if tgt.len() == 0 {
        None
    } else if extra_fault(t, src, tgt.drop_last()) is Some {
        extra_fault(t, src, tgt.drop_last())
    } else if column_at(src, tgt.last().name@) == src.len() {
        Some(
            "target table "@ + table_text(t) + " has extra column "@ + tgt.last().name@
                + ": copied and streamed rows do not carry it"@,
        )
    } else {
        None
    }
}

/// What is wrong with the target's counterpart of one source column. Type OIDs are
/// database-local, so equality is only meaningful
/// for builtin pg_catalog types (stable OIDs). GENERATED ALWAYS identity refuses explicit
/// values: COPY would pass, but every streamed INSERT would fail.
pub open spec fn counterpart_fault(t: TablePlan, c: SqlColumn, tgt: Seq<SqlColumn>) -> Option<
    Seq<char>,
> {
    let k = column_at(tgt, c.name@);
    if k == tgt.len() {
        Some("target table "@ + table_text(t) + " is missing column "@ + c.name@)
    } else if !(c.type_oid < 16384 && tgt[k].type_oid < 16384) {
        Some(
            column_text(c, t)
                + " has a non-builtin type; custom types cannot be compared across databases and are not supported"@,
        )
    } else if !(tgt[k].type_oid == c.type_oid && tgt[k].typmod == c.typmod) {
        Some(
            column_text(c, t)
                + " has a different type on the target: copied and streamed values could be transformed or rejected"@,
        )
    } else if tgt[k].generated {
        Some(
            column_text(c, t)
                + " is generated on the target; copied and streamed values would be rejected"@,
        )
    } else if tgt[k].identity == 97 {
        Some(
            column_text(c, t)
                + " is GENERATED ALWAYS AS IDENTITY on the target: streamed inserts carrying explicit values would be rejected"@,
        )
    } else {
        None
    }
}

/// What is wrong with the first source column that has no sound counterpart.
pub open spec fn counterparts_fault(t: TablePlan, src: Seq<SqlColumn>, tgt: Seq<SqlColumn>) -> Option<
    Seq<char>,
>
    decreases src.len(),
{
    if src.len() == 0 {
        None
    } else if counterparts_fault(t, src.drop_last(), tgt) is Some {
        counterparts_fault(t, src.drop_last(), tgt)
    } else {
        counterpart_fault(t, src.last(), tgt)
    }
}

/// What is wrong with a target table. The contract is EXACT schema equivalence — reshard
/// targets are clones — because anything looser reintroduces silent divergence.
pub open spec fn target_fault(
    database: Seq<char>,
    t: TablePlan,
    src: Seq<SqlColumn>,
    tgt: Seq<SqlColumn>,
) -> Option<Seq<char>> {
    if tgt.len() == 0 {
        Some("target table "@ + table_text(t) + " does not exist in "@ + database)
    } else if tgt[0].relkind != 114 {
        Some("target table "@ + table_text(t) + " is not a plain table"@)
    } else if extra_fault(t, src, tgt) is Some {
        extra_fault(t, src, tgt)
    } else {
        counterparts_fault(t, src, tgt)
    }
}

proof fn lemma_extra(t: TablePlan, src: Seq<SqlColumn>, tgt: Seq<SqlColumn>, n: int)
    requires
        0 <= n <= tgt.len(),
        extra_fault(t, src, tgt.take(n)) is Some,
    ensures
        extra_fault(t, src, tgt) == extra_fault(t, src, tgt.take(n)),
    decreases tgt.len() - n,
{
    if n == tgt.len() {
        assert(tgt.take(n) =~= tgt);
    } else {
        assert(tgt.take(n + 1).drop_last() =~= tgt.take(n));
        lemma_extra(t, src, tgt, n + 1);
    }
}

proof fn lemma_counterparts(t: TablePlan, src: Seq<SqlColumn>, tgt: Seq<SqlColumn>, n: int)
    requires
        0 <= n <= src.len(),
        counterparts_fault(t, src.take(n), tgt) is Some,
    ensures
        counterparts_fault(t, src, tgt) == counterparts_fault(t, src.take(n), tgt),
    decreases src.len() - n,
{
    if n == src.len() {
        assert(src.take(n) =~= src);
    } else {
        assert(src.take(n + 1).drop_last() =~= src.take(n));
        lemma_counterparts(t, src, tgt, n + 1);
    }
}

fn check_counterpart(t: &TablePlan, c: &SqlColumn, tgt: &Vec<SqlColumn>) -> (r: Result<(), String>)
    ensures
        passes(r, counterpart_fault(*t, *c, tgt@)),
{
    let k: usize = find_column(tgt, c.name.as_str());
    if k == tgt.len() {
        return Err(
            text::concat4(
                "target table ",
                table_name(t).as_str(),
                " is missing column ",
                c.name.as_str(),
            ),
        );
    }
    let column = column_name(c, t);
    if !(c.type_oid < 16384 && tgt[k].type_oid < 16384) {
        return Err(
            text::concat2(
                column.as_str(),
                " has a non-builtin type; custom types cannot be compared across databases and are not supported",
            ),
        );
    }
    if !(tgt[k].type_oid == c.type_oid && tgt[k].typmod == c.typmod) {
        return Err(
            text::concat2(
                column.as_str(),
                " has a different type on the target: copied and streamed values could be transformed or rejected",
            ),
        );
    }
    if tgt[k].generated {
        return Err(
            text::concat2(
                column.as_str(),
                " is generated on the target; copied and streamed values would be rejected",
            ),
        );
    }
    if tgt[k].identity == 97 {
        return Err(
            text::concat2(
                column.as_str(),
                " is GENERATED ALWAYS AS IDENTITY on the target: streamed inserts carrying explicit values would be rejected",
            ),
        );
    }
    Ok(())
}

pub fn check_target(database: &str, t: &TablePlan, src: &Vec<SqlColumn>, tgt: &Vec<SqlColumn>) -> (r:
    Result<(), String>)
    ensures
        passes(r, target_fault(database@, *t, src@, tgt@)),
{
    if tgt.len() == 0 {
        return Err(
            text::concat4(
                "target table ",
                table_name(t).as_str(),
                " does not exist in ",
                database,
            ),
        );
    }
    if tgt[0].relkind != 114 {
        return Err(
            text::concat3("target table ", table_name(t).as_str(), " is not a plain table"),
        );
    }
    let mut i: usize = 0;
    while i < tgt.len()
        invariant
            i <= tgt@.len(),
            extra_fault(*t, src@, tgt@.take(i as int)) is None,
            target_fault(database@, *t, src@, tgt@) == (if extra_fault(*t, src@, tgt@) is Some {
                extra_fault(*t, src@, tgt@)
            } else {
                counterparts_fault(*t, src@, tgt@)
            }),
        decreases tgt@.len() - i,
    {
        proof {
            assert(tgt@.take(i + 1).drop_last() =~= tgt@.take(i as int));
        }
        if find_column(src, tgt[i].name.as_str()) == src.len() {
            proof {
                lemma_extra(*t, src@, tgt@, i + 1);
            }
            return Err(
                text::concat5(
                    "target table ",
                    table_name(t).as_str(),
                    " has extra column ",
                    tgt[i].name.as_str(),
                    ": copied and streamed rows do not carry it",
                ),
            );
        }
        i += 1;
    }
    proof {
        assert(tgt@.take(tgt@.len() as int) =~= tgt@);
    }
    let mut j: usize = 0;
    while j < src.len()
        invariant
            j <= src@.len(),
            counterparts_fault(*t, src@.take(j as int), tgt@) is None,
            target_fault(database@, *t, src@, tgt@) == counterparts_fault(*t, src@, tgt@),
        decreases src@.len() - j,
    {
        proof {
            assert(src@.take(j + 1).drop_last() =~= src@.take(j as int));
        }
        match check_counterpart(t, &src[j], tgt) {
            Ok(()) => {},
            Err(e) => {
                proof {
                    lemma_counterparts(*t, src@, tgt@, j + 1);
                }
                return Err(e);
            },
        }
        j += 1;
    }
    proof {
        assert(src@.take(src@.len() as int) =~= src@);
    }
    Ok(())
}

/// A target table that passes is a clone of its source: the two have the same columns by
/// name, and each column has the same builtin type on both sides.
pub proof fn law_targets_are_clones(
    database: Seq<char>,
    t: TablePlan,
    src: Seq<SqlColumn>,
    tgt: Seq<SqlColumn>,
)
    requires
        target_fault(database, t, src, tgt) is None,
    ensures
        forall|i: int|
            #![trigger tgt[i]]
            0 <= i < tgt.len() ==> exists|j: int|
                0 <= j < src.len() && (#[trigger] src[j]).name@ == tgt[i].name@,
        forall|i: int|
            #![trigger src[i]]
            0 <= i < src.len() ==> exists|j: int|
                0 <= j < tgt.len() && (#[trigger] tgt[j]).name@ == src[i].name@ && tgt[j].type_oid
                    == src[i].type_oid && tgt[j].typmod == src[i].typmod && tgt[j].type_oid < 16384
                    && !tgt[j].generated && tgt[j].identity != 97,
{
    assert forall|i: int| #![trigger tgt[i]] 0 <= i < tgt.len() implies exists|j: int|
        0 <= j < src.len() && (#[trigger] src[j]).name@ == tgt[i].name@ by {
        lemma_no_extra(t, src, tgt, i);
        lemma_column_found(src, tgt[i].name@);
        assert(src[column_at(src, tgt[i].name@)].name@ == tgt[i].name@);
    }
    assert forall|i: int| #![trigger src[i]] 0 <= i < src.len() implies exists|j: int|
        0 <= j < tgt.len() && (#[trigger] tgt[j]).name@ == src[i].name@ && tgt[j].type_oid
            == src[i].type_oid && tgt[j].typmod == src[i].typmod && tgt[j].type_oid < 16384
            && !tgt[j].generated && tgt[j].identity != 97 by {
        lemma_counterpart(t, src, tgt, i);
        lemma_column_found(tgt, src[i].name@);
        let j = column_at(tgt, src[i].name@);
        assert(tgt[j].name@ == src[i].name@);
    }
}

proof fn lemma_no_extra(t: TablePlan, src: Seq<SqlColumn>, tgt: Seq<SqlColumn>, i: int)
    requires
        0 <= i < tgt.len(),
        extra_fault(t, src, tgt) is None,
    ensures
        column_at(src, tgt[i].name@) != src.len(),
    decreases tgt.len(),
{
    if i < tgt.len() - 1 {
        lemma_no_extra(t, src, tgt.drop_last(), i);
    }
}

proof fn lemma_counterpart(t: TablePlan, src: Seq<SqlColumn>, tgt: Seq<SqlColumn>, i: int)
    requires
        0 <= i < src.len(),
        counterparts_fault(t, src, tgt) is None,
    ensures
        counterpart_fault(t, src[i], tgt) is None,
    decreases src.len(),
{
    if i < src.len() - 1 {
        lemma_counterpart(t, src.drop_last(), tgt, i);
    }
}

/// What is wrong with a table's shard key.
pub open spec fn key_fault(t: TablePlan, src: Seq<SqlColumn>) -> Option<Seq<char>> {
    let k = column_at(src, t.shard_key_column@);
    if k == src.len() {
        Some("shard key column "@ + t.shard_key_column@ + " not found in "@ + table_text(t))
    } else if !key_oids(t.shard_key_type).contains(src[k].type_oid) {
        Some(
            "shard key "@ + table_text(t) + "."@ + t.shard_key_column@ + " has type oid "@
                + text::decimal(src[k].type_oid as int)
                + ", which cannot be hashed as declared "@ + shardfn::type_text(t.shard_key_type)
                + ": rows would land on the wrong shard"@,
        )
    } else {
        None
    }
}

pub fn check_key(t: &TablePlan, src: &Vec<SqlColumn>) -> (r: Result<(), String>)
    ensures
        passes(r, key_fault(*t, src@)),
{
    let k: usize = find_column(src, t.shard_key_column.as_str());
    if k == src.len() {
        return Err(
            text::concat4(
                "shard key column ",
                t.shard_key_column.as_str(),
                " not found in ",
                table_name(t).as_str(),
            ),
        );
    }
    if !hashable(t.shard_key_type, src[k].type_oid) {
        let head = text::concat5(
            "shard key ",
            table_name(t).as_str(),
            ".",
            t.shard_key_column.as_str(),
            " has type oid ",
        );
        return Err(
            text::concat5(
                head.as_str(),
                text::decimal_u64(src[k].type_oid as u64).as_str(),
                ", which cannot be hashed as declared ",
                shardfn::type_str(t.shard_key_type),
                ": rows would land on the wrong shard",
            ),
        );
    }
    Ok(())
}

/// What is wrong with a replica identity. It must be the default ('d') or an index ('i'):
/// FULL is rejected too, since the applier refuses FULL-identity
/// updates/deletes.
pub open spec fn identity_fault(t: TablePlan, replident: u8) -> Option<Seq<char>> {
    if replident == 100 || replident == 105 {
        None
    } else {
        Some(
            "table "@ + table_text(t) + " has replica identity "@ + text::debug_char_text(
                replident as char,
            )
                + " (need default or a replident index covering the shard key): updates and deletes could not be applied"@,
        )
    }
}

pub fn check_identity(t: &TablePlan, replident: u8) -> (r: Result<(), String>)
    ensures
        passes(r, identity_fault(*t, replident)),
{
    if replident == 100 || replident == 105 {
        return Ok(());
    }
    Err(
        text::concat5(
            "table ",
            table_name(t).as_str(),
            " has replica identity ",
            text::debug_char(replident as char).as_str(),
            " (need default or a replident index covering the shard key): updates and deletes could not be applied",
        ),
    )
}

/// What is wrong with the identity's key columns: they must cover the shard key, since
/// streamed UPDATE and
/// DELETE are filtered by it, and a shard-key change is only visible
/// when the identity carries the old key.
pub open spec fn cover_fault(t: TablePlan, identity: Seq<String>) -> Option<Seq<char>> {
    if text::views(identity).contains(t.shard_key_column@) {
        None
    } else {
        Some(
            "replica identity of "@ + table_text(t) + " does not cover shard key "@
                + t.shard_key_column@ + ": updates and deletes could not be range-filtered"@,
        )
    }
}

pub fn check_cover(t: &TablePlan, identity: &Vec<String>) -> (r: Result<(), String>)
    ensures
        passes(r, cover_fault(*t, identity@)),
{
    let mut i: usize = 0;
    while i < identity.len()
        invariant
            i <= identity@.len(),
            forall|k: int| 0 <= k < i ==> (#[trigger] identity@[k])@ != t.shard_key_column@,
        decreases identity@.len() - i,
    {
        if text::same(identity[i].as_str(), t.shard_key_column.as_str()) {
            assert(text::views(identity@)[i as int] == t.shard_key_column@);
            return Ok(());
        }
        i += 1;
    }
    proof {
        let v = text::views(identity@);
        assert forall|k: int| 0 <= k < v.len() implies v[k] != t.shard_key_column@ by {
            assert(identity@[k]@ != t.shard_key_column@);
        }
    }
    Err(
        text::concat5(
            "replica identity of ",
            table_name(t).as_str(),
            " does not cover shard key ",
            t.shard_key_column.as_str(),
            ": updates and deletes could not be range-filtered",
        ),
    )
}

/// What is wrong with the target database's marker. It is stamped when the database is
/// created and never by hand.
pub open spec fn marker_fault(run: RunPlan, marker: Option<String>) -> Option<Seq<char>> {
    let expected = instance::marker(run.expect_provenance@);
    if text::option_view(marker) == Some(expected) {
        None
    } else {
        Some(
            "target database "@ + run.target_database@ + " carries provenance "@
                + text::debug_text(
                match marker {
                    Some(m) => m@,
                    None => "<none>"@,
                },
            ) + ", expected "@ + text::debug_text(expected)
                + ": refusing to truncate a database this workflow does not own"@,
        )
    }
}

pub fn check_marker(run: &RunPlan, marker: &Option<String>) -> (r: Result<(), String>)
    ensures
        passes(r, marker_fault(*run, *marker)),
{
    let expected = instance::provenance_marker(run.expect_provenance.as_str());
    let found = match marker {
        Some(m) => m.as_str(),
        None => "<none>",
    };
    if marker.is_some() && text::same(found, expected.as_str()) {
        return Ok(());
    }
    let head = text::concat5(
        "target database ",
        run.target_database.as_str(),
        " carries provenance ",
        text::debug_string(found).as_str(),
        ", expected ",
    );
    Err(
        text::concat3(
            head.as_str(),
            text::debug_string(expected.as_str()).as_str(),
            ": refusing to truncate a database this workflow does not own",
        ),
    )
}

// ---------------------------------------------------------------------------------------
// The preflight.
// ---------------------------------------------------------------------------------------

/// One preflighted table: its full column list (for the copy) after every
/// destructive-work precondition held.
#[derive(Debug, PartialEq, Eq)]
pub struct TablePreflight {
    pub columns: Vec<String>,
}

/// What is to be asked next.
#[derive(Debug, Clone, Copy, PartialEq, Eq, Structural)]
pub enum Question {
    /// The comment of the target database.
    Marker,
    /// The publication, on the source.
    Publication,
    /// The columns of table number `n` on the source.
    Source(usize),
    /// The columns of table number `n` on the target.
    Target(usize),
    /// The replica identity of table number `n` on the source.
    Identity(usize),
    /// The key columns of the replica identity of table number `n`: those of the primary
    /// key, or of the index that was named as the identity. Only the first indnkeyatts index
    /// columns are identity KEY columns; INCLUDE payload columns never appear in the old
    /// tuple.
    IdentityColumns(usize, bool),
    /// Nothing: every precondition holds.
    Nothing,
}

/// An answer.
#[derive(Debug, PartialEq, Eq)]
pub enum Answer {
    Marker(Option<String>),
    Publication(PublicationBaseline),
    Source(Vec<SqlColumn>),
    Target(Vec<SqlColumn>),
    Identity(u8),
    IdentityColumns(Vec<String>),
}

/// The questions asked so far.
#[derive(Debug, PartialEq, Eq)]
pub struct Preflight {
    pub question: Question,
    pub publication: Option<PublicationBaseline>,
    /// The columns, on the source, of the table that is asked about.
    pub source: Vec<SqlColumn>,
    /// The tables that have passed.
    pub tables: Vec<TablePreflight>,
}

/// A preflight's state.
#[verifier::ext_equal]
pub struct PreflightView {
    pub question: Question,
    pub publication: Option<PublicationBaseline>,
    /// The columns, on the source, of the table that is asked about.
    pub source: Seq<SqlColumn>,
    /// The column lists of the tables that have passed.
    pub tables: Seq<Seq<Seq<char>>>,
}

/// The column lists of some tables.
pub open spec fn column_lists(ts: Seq<TablePreflight>) -> Seq<Seq<Seq<char>>> {
    ts.map_values(|t: TablePreflight| text::views(t.columns@))
}

impl View for Preflight {
    type V = PreflightView;

    open spec fn view(&self) -> PreflightView {
        PreflightView {
            question: self.question,
            publication: self.publication,
            source: self.source@,
            tables: column_lists(self.tables@),
        }
    }
}

/// The names of some columns.
pub open spec fn column_names(cs: Seq<SqlColumn>) -> Seq<Seq<char>> {
    cs.map_values(|c: SqlColumn| c.name@)
}

/// What is asked after `n` tables have passed.
pub open spec fn next_table(n: int, tables: int) -> Question {
    if n < tables {
        Question::Source(n as usize)
    } else {
        Question::Nothing
    }
}

/// The state after an answer, or what is wrong. An answer to another question changes
/// nothing.
pub open spec fn preflight_next(p: PreflightView, run: RunPlan, a: Answer) -> Result<
    PreflightView,
    Seq<char>,
> {
    match (p.question, a) {
        (Question::Marker, Answer::Marker(m)) => match marker_fault(run, m) {
            Some(f) => Err(f),
            None => Ok(PreflightView { question: Question::Publication, ..p }),
        },
        (Question::Publication, Answer::Publication(b)) => match publication_fault(run, b.shape) {
            Some(f) => Err(f),
            None => Ok(
                PreflightView {
                    question: next_table(0, run.tables@.len() as int),
                    publication: Some(b),
                    ..p
                },
            ),
        },
        (Question::Source(n), Answer::Source(src)) => match source_fault(
            run.tables@[n as int],
            src@,
        ) {
            Some(f) => Err(f),
            None => Ok(PreflightView { question: Question::Target(n), source: src@, ..p }),
        },
        (Question::Target(n), Answer::Target(tgt)) => match target_fault(
            run.target_database@,
            run.tables@[n as int],
            p.source,
            tgt@,
        ) {
            Some(f) => Err(f),
            None => match key_fault(run.tables@[n as int], p.source) {
                Some(f) => Err(f),
                None => Ok(PreflightView { question: Question::Identity(n), ..p }),
            },
        },
        (Question::Identity(n), Answer::Identity(c)) => match identity_fault(
            run.tables@[n as int],
            c,
        ) {
            Some(f) => Err(f),
            None => Ok(PreflightView { question: Question::IdentityColumns(n, c == 105), ..p }),
        },
        (Question::IdentityColumns(n, _), Answer::IdentityColumns(cols)) => match cover_fault(
            run.tables@[n as int],
            cols@,
        ) {
            Some(f) => Err(f),
            None => Ok(
                PreflightView {
                    question: next_table(n + 1, run.tables@.len() as int),
                    tables: p.tables.push(column_names(p.source)),
                    ..p
                },
            ),
        },
        _ => Ok(p),
    }
}

/// The state after some answers, or the first thing that is wrong.
pub open spec fn preflight_end(p: PreflightView, run: RunPlan, answers: Seq<Answer>) -> Result<
    PreflightView,
    Seq<char>,
>
    decreases answers.len(),
{
    if answers.len() == 0 {
        Ok(p)
    } else {
        match preflight_next(p, run, answers[0]) {
            Err(f) => Err(f),
            Ok(q) => preflight_end(q, run, answers.skip(1)),
        }
    }
}

/// What the two databases say of a table.
pub struct TableFacts {
    pub source: Vec<SqlColumn>,
    pub target: Vec<SqlColumn>,
    pub identity: u8,
    pub identity_columns: Vec<String>,
}

/// What the two databases say: of the target database, of the publication, and of each
/// mapped table.
pub struct Facts {
    pub marker: Option<String>,
    pub publication: PublicationBaseline,
    pub tables: Seq<TableFacts>,
}

/// The answers about one table, in the order of the questions.
pub open spec fn table_answers(t: TableFacts) -> Seq<Answer> {
    seq![
        Answer::Source(t.source),
        Answer::Target(t.target),
        Answer::Identity(t.identity),
        Answer::IdentityColumns(t.identity_columns),
    ]
}

/// The answers about some tables.
pub open spec fn tables_answers(ts: Seq<TableFacts>) -> Seq<Answer>
    decreases ts.len(),
{
    if ts.len() == 0 {
        Seq::empty()
    } else {
        table_answers(ts[0]) + tables_answers(ts.skip(1))
    }
}

/// All answers, in the order of the questions.
pub open spec fn answers_of(f: Facts) -> Seq<Answer> {
    seq![Answer::Marker(f.marker), Answer::Publication(f.publication)] + tables_answers(f.tables)
}

/// What is wrong with a mapped table: its source, its target, its shard key, its replica
/// identity, in this order.
pub open spec fn table_fault(run: RunPlan, t: TablePlan, f: TableFacts) -> Option<Seq<char>> {
    if source_fault(t, f.source@) is Some {
        source_fault(t, f.source@)
    } else if target_fault(run.target_database@, t, f.source@, f.target@) is Some {
        target_fault(run.target_database@, t, f.source@, f.target@)
    } else if key_fault(t, f.source@) is Some {
        key_fault(t, f.source@)
    } else if identity_fault(t, f.identity) is Some {
        identity_fault(t, f.identity)
    } else {
        cover_fault(t, f.identity_columns@)
    }
}

/// What is wrong with the first table, from table number `n` on, that is not in order.
pub open spec fn tables_fault(run: RunPlan, ts: Seq<TableFacts>, n: int) -> Option<Seq<char>>
    decreases ts.len() - n,
{
    if n < 0 || n >= ts.len() {
        None
    } else if table_fault(run, run.tables@[n], ts[n]) is Some {
        table_fault(run, run.tables@[n], ts[n])
    } else {
        tables_fault(run, ts, n + 1)
    }
}

/// Why work on the target is refused: the target's marker, then the publication, then each
/// mapped table in its turn.
pub open spec fn preflight_fault(run: RunPlan, f: Facts) -> Option<Seq<char>> {
    if marker_fault(run, f.marker) is Some {
        marker_fault(run, f.marker)
    } else if publication_fault(run, f.publication.shape) is Some {
        publication_fault(run, f.publication.shape)
    } else {
        tables_fault(run, f.tables, 0)
    }
}

/// The column lists of the source tables.
pub open spec fn source_lists(ts: Seq<TableFacts>) -> Seq<Seq<Seq<char>>> {
    ts.map_values(|t: TableFacts| column_names(t.source@))
}

/// Whether this is the verdict on what the databases say: the refusal, or else the baseline of
/// the publication and the column list of every mapped table, with nothing left to ask.
pub open spec fn is_verdict(run: RunPlan, f: Facts, end: Result<PreflightView, Seq<char>>) -> bool {
    match preflight_fault(run, f) {
        Some(e) => end == Err::<PreflightView, Seq<char>>(e),
        None => {
            &&& end is Ok
            &&& end->Ok_0.question == Question::Nothing
            &&& end->Ok_0.publication == Some(f.publication)
            &&& end->Ok_0.tables == source_lists(f.tables)
        },
    }
}

/// One table, from the question about its source to the question after it.
proof fn lemma_table_end(p: PreflightView, run: RunPlan, f: TableFacts, n: int, rest: Seq<Answer>)
    requires
        0 <= n < run.tables@.len(),
        p.question == Question::Source(n as usize),
    ensures
        preflight_end(p, run, table_answers(f) + rest) == (match table_fault(
            run,
            run.tables@[n],
            f,
        ) {
            Some(e) => Err::<PreflightView, Seq<char>>(e),
            None => preflight_end(
                PreflightView {
                    question: next_table(n + 1, run.tables@.len() as int),
                    publication: p.publication,
                    source: f.source@,
                    tables: p.tables.push(column_names(f.source@)),
                },
                run,
                rest,
            ),
        }),
{
    assert(run.tables.len() == run.tables@.len());
    assert((n as usize) as int == n);
    let all = table_answers(f) + rest;
    reveal_with_fuel(preflight_end, 5);
    assert(all[0] == Answer::Source(f.source));
    assert(all.skip(1)[0] == Answer::Target(f.target));
    assert(all.skip(1).skip(1)[0] == Answer::Identity(f.identity));
    assert(all.skip(1).skip(1).skip(1)[0] == Answer::IdentityColumns(f.identity_columns));
    assert(all.skip(1).skip(1).skip(1).skip(1) =~= rest);
}

/// The tables from number `n` on.
proof fn lemma_tables_end(p: PreflightView, run: RunPlan, ts: Seq<TableFacts>, n: int)
    requires
        0 <= n <= ts.len() == run.tables@.len(),
        p.question == next_table(n, run.tables@.len() as int),
    ensures
        match tables_fault(run, ts, n) {
            Some(e) => preflight_end(p, run, tables_answers(ts.skip(n))) == Err::<
                PreflightView,
                Seq<char>,
            >(e),
            None => {
                let end = preflight_end(p, run, tables_answers(ts.skip(n)));
                &&& end is Ok
                &&& end->Ok_0.question == Question::Nothing
                &&& end->Ok_0.publication == p.publication
                &&& end->Ok_0.tables == p.tables + source_lists(ts.skip(n))
            },
        },
    decreases ts.len() - n,
{
    let rest = ts.skip(n);
    if n == ts.len() {
        assert(p.tables + source_lists(rest) =~= p.tables);
    } else {
        assert(rest[0] == ts[n]);
        assert(rest.skip(1) =~= ts.skip(n + 1));
        lemma_table_end(p, run, ts[n], n, tables_answers(ts.skip(n + 1)));
        if table_fault(run, run.tables@[n], ts[n]) is None {
            let q = PreflightView {
                question: next_table(n + 1, run.tables@.len() as int),
                publication: p.publication,
                source: ts[n].source@,
                tables: p.tables.push(column_names(ts[n].source@)),
            };
            lemma_tables_end(q, run, ts, n + 1);
            assert(q.tables + source_lists(ts.skip(n + 1)) =~= p.tables + source_lists(rest));
        }
    }
}

proof fn lemma_preflight_end(p: PreflightView, run: RunPlan, f: Facts)
    requires
        p.question == Question::Marker,
        p.tables.len() == 0,
        f.tables.len() == run.tables@.len(),
    ensures
        is_verdict(run, f, preflight_end(p, run, answers_of(f))),
{
    let all = answers_of(f);
    reveal_with_fuel(preflight_end, 3);
    assert(all[0] == Answer::Marker(f.marker));
    assert(all.skip(1)[0] == Answer::Publication(f.publication));
    assert(all.skip(1).skip(1) =~= tables_answers(f.tables));
    assert(f.tables.skip(0) =~= f.tables);
    let q = PreflightView {
        question: next_table(0, run.tables@.len() as int),
        publication: Some(f.publication),
        ..p
    };
    lemma_tables_end(q, run, f.tables, 0);
    assert(q.tables + source_lists(f.tables) =~= source_lists(f.tables));
}

impl Preflight {
    /// The tables that have passed are those before the one asked about; the publication is
    /// known once tables are asked about.
    pub open spec fn wf(self, run: RunPlan) -> bool {
        match self.question {
            Question::Marker => self.tables@.len() == 0,
            Question::Publication => self.tables@.len() == 0,
            Question::Source(n) => n == self.tables@.len() < run.tables@.len()
                && self.publication is Some,
            Question::Target(n) => n == self.tables@.len() < run.tables@.len()
                && self.publication is Some,
            Question::Identity(n) => n == self.tables@.len() < run.tables@.len()
                && self.publication is Some,
            Question::IdentityColumns(n, _) => n == self.tables@.len() < run.tables@.len()
                && self.publication is Some,
            Question::Nothing => self.tables@.len() == run.tables@.len()
                && self.publication is Some,
        }
    }
}

/// A preflight, before the first question. Answered with what the two databases say, it ends
/// in the verdict on it: the first precondition that does not hold, or the baseline of the
/// publication and the columns of every mapped table.
pub fn preflight(run: &RunPlan) -> (r: Preflight)
    ensures
        r.wf(*run),
        r@ == (PreflightView {
            question: Question::Marker,
            publication: None,
            source: Seq::empty(),
            tables: Seq::empty(),
        }),
        forall|f: Facts|
            f.tables.len() == run.tables@.len() ==> is_verdict(
                *run,
                f,
                #[trigger] preflight_end(r@, *run, answers_of(f)),
            ),
{
    let r = Preflight {
        question: Question::Marker,
        publication: None,
        source: Vec::new(),
        tables: Vec::new(),
    };
    proof {
        assert(column_lists(r.tables@) =~= Seq::<Seq<Seq<char>>>::empty());
        assert forall|f: Facts| f.tables.len() == run.tables@.len() implies is_verdict(
            *run,
            f,
            #[trigger] preflight_end(r@, *run, answers_of(f)),
        ) by {
            lemma_preflight_end(r@, *run, f);
        }
    }
    r
}

fn names_of(cs: &Vec<SqlColumn>) -> (r: Vec<String>)
    ensures
        text::views(r@) == column_names(cs@),
{
    let mut out: Vec<String> = Vec::new();
    let mut i: usize = 0;
    while i < cs.len()
        invariant
            i <= cs@.len(),
            out@.len() == i,
            forall|k: int| 0 <= k < i ==> (#[trigger] out@[k])@ == cs@[k].name@,
        decreases cs@.len() - i,
    {
        out.push(cs[i].name.clone());
        i += 1;
    }
    proof {
        assert(text::views(out@) =~= column_names(cs@));
    }
    out
}

impl Preflight {
    /// Takes an answer: the state after it, or what is wrong.
    pub fn answer(self, run: &RunPlan, a: Answer) -> (r: Result<Preflight, String>)
        requires
            self.wf(*run),
        ensures
            match preflight_next(self@, *run, a) {
                Err(f) => r is Err && r->Err_0@ == f,
                Ok(v) => r is Ok && r->Ok_0@ == v && r->Ok_0.wf(*run),
            },
    {
        let count: usize = run.tables.len();
        let mut p = self;
        match (p.question, a) {
            (Question::Marker, Answer::Marker(m)) => {
                check_marker(run, &m)?;
                p.question = Question::Publication;
            },
            (Question::Publication, Answer::Publication(b)) => {
                check_publication(run, &b.shape)?;
                p.publication = Some(b);
                p.question = if 0 < count {
                    Question::Source(0)
                } else {
                    Question::Nothing
                };
            },
            (Question::Source(n), Answer::Source(src)) => {
                check_source(&run.tables[n], &src)?;
                p.source = src;
                p.question = Question::Target(n);
            },
            (Question::Target(n), Answer::Target(tgt)) => {
                check_target(run.target_database.as_str(), &run.tables[n], &p.source, &tgt)?;
                check_key(&run.tables[n], &p.source)?;
                p.question = Question::Identity(n);
            },
            (Question::Identity(n), Answer::Identity(c)) => {
                check_identity(&run.tables[n], c)?;
                p.question = Question::IdentityColumns(n, c == 105);
            },
            (Question::IdentityColumns(n, _), Answer::IdentityColumns(cols)) => {
                check_cover(&run.tables[n], &cols)?;
                let columns = names_of(&p.source);
                p.tables.push(TablePreflight { columns });
                proof {
                    assert(column_lists(p.tables@) =~= column_lists(self.tables@).push(
                        column_names(self.source@),
                    ));
                }
                p.question = if n + 1 < count {
                    Question::Source(n + 1)
                } else {
                    Question::Nothing
                };
            },
            _ => {},
        }
        Ok(p)
    }
}

/// A preflight that has passed asked for the marker and the publication first, and then
/// passed every table: it cannot end with a table left out.
pub proof fn law_every_table_is_preflighted(p: Preflight, run: RunPlan)
    requires
        p.wf(run),
        p.question == Question::Nothing,
    ensures
        p.tables@.len() == run.tables@.len(),
        p.publication is Some,
{
}

/// A publication passes only where it publishes every kind of change, of tables that it names
/// one by one, as they are stored.
pub proof fn law_publications_stream_every_change(run: RunPlan, shape: PublicationShape, i: int)
    requires
        publication_fault(run, shape) is None,
    ensures
        shape.insert && shape.update && shape.delete && shape.truncate,
        !shape.via_partition_root,
        !shape.publishes_generated,
        !shape.all_tables,
        0 <= i < shape.versions@.len() ==> shape.versions@[i].0 != 2,
{
    if 0 <= i < shape.versions@.len() {
        assert(!publishes_schemas(shape.versions@));
    }
}

/// A sound publication of the moved tables, and of no others, passes.
pub proof fn law_sound_publications_pass(run: RunPlan, shape: PublicationShape)
    requires
        shape.insert && shape.update && shape.delete && shape.truncate,
        !shape.via_partition_root,
        !shape.publishes_generated,
        !shape.all_tables,
        forall|i: int| 0 <= i < shape.versions@.len() ==> (#[trigger] shape.versions@[i]).0 != 2,
        forall|i: int|
            0 <= i < run.tables@.len() ==> is_published(shape.tables@, #[trigger] run.tables@[i]),
        forall|i: int|
            0 <= i < shape.tables@.len() ==> is_mapped(run.tables@, #[trigger] shape.tables@[i])
                && !shape.tables@[i].has_row_filter && !shape.tables@[i].has_column_list,
    ensures
        publication_fault(run, shape) is None,
{
    lemma_none_unpublished(run.publication@, run.tables@, shape.tables@);
    lemma_none_faulty(run.publication@, run.tables@, shape.tables@);
}

proof fn lemma_none_unpublished(
    publication: Seq<char>,
    tables: Seq<TablePlan>,
    published: Seq<PublishedTable>,
)
    requires
        forall|i: int| 0 <= i < tables.len() ==> is_published(published, #[trigger] tables[i]),
    ensures
        unpublished_fault(publication, tables, published) is None,
    decreases tables.len(),
{
    if tables.len() > 0 {
        let t = tables.drop_last();
        assert forall|i: int| 0 <= i < t.len() implies is_published(published, #[trigger] t[i]) by {
            assert(t[i] == tables[i]);
        }
        lemma_none_unpublished(publication, t, published);
        assert(tables.last() == tables[tables.len() - 1]);
    }
}

proof fn lemma_none_faulty(
    publication: Seq<char>,
    tables: Seq<TablePlan>,
    published: Seq<PublishedTable>,
)
    requires
        forall|i: int|
            0 <= i < published.len() ==> is_mapped(tables, #[trigger] published[i])
                && !published[i].has_row_filter && !published[i].has_column_list,
    ensures
        members_fault(publication, tables, published) is None,
    decreases published.len(),
{
    if published.len() > 0 {
        let t = published.drop_last();
        assert forall|i: int| 0 <= i < t.len() implies is_mapped(tables, #[trigger] t[i])
            && !t[i].has_row_filter && !t[i].has_column_list by {
            assert(t[i] == published[i]);
        }
        lemma_none_faulty(publication, tables, t);
        assert(published.last() == published[published.len() - 1]);
    }
}

/// A key hashes as an integer from `smallint`, `integer` or `bigint`, as text from `text` or
/// `varchar`, and as the others from their own type alone.
pub proof fn law_keys_hash_from_their_types(oid: u32)
    ensures
        key_oids(ScalarType::Int).contains(oid) <==> oid == 20 || oid == 21 || oid == 23,
        key_oids(ScalarType::Text).contains(oid) <==> oid == 25 || oid == 1043,
        key_oids(ScalarType::Uuid).contains(oid) <==> oid == 2950,
        key_oids(ScalarType::Bytea).contains(oid) <==> oid == 17,
{
    let i = key_oids(ScalarType::Int);
    let t = key_oids(ScalarType::Text);
    let u = key_oids(ScalarType::Uuid);
    let b = key_oids(ScalarType::Bytea);
    assert(i[0] == 20 && i[1] == 21 && i[2] == 23);
    assert(t[0] == 25 && t[1] == 1043);
    assert(u[0] == 2950 && b[0] == 17);
}

/// A source passes only where it is there, is a plain table, and has no generated column.
pub proof fn law_sources_are_plain_tables(t: TablePlan, src: Seq<SqlColumn>, i: int)
    requires
        source_fault(t, src) is None,
        0 <= i < src.len(),
    ensures
        src[0].relkind == 114,
        !src[i].generated,
{
    lemma_none_generated(t, src, i);
}

proof fn lemma_none_generated(t: TablePlan, cs: Seq<SqlColumn>, i: int)
    requires
        generated_fault(t, cs) is None,
        0 <= i < cs.len(),
    ensures
        !cs[i].generated,
    decreases cs.len(),
{
    if i < cs.len() - 1 {
        lemma_none_generated(t, cs.drop_last(), i);
    }
}

/// A table's key passes only where the source has the column, under a type that hashes as
/// declared, and the replica identity is a default or an index that covers it.
pub proof fn law_keys_are_there_and_covered(
    t: TablePlan,
    src: Seq<SqlColumn>,
    replident: u8,
    identity: Seq<String>,
)
    ensures
        key_fault(t, src) is None ==> exists|k: int|
            0 <= k < src.len() && (#[trigger] src[k]).name@ == t.shard_key_column@ && key_oids(
                t.shard_key_type,
            ).contains(src[k].type_oid),
        (forall|k: int| 0 <= k < src.len() ==> (#[trigger] src[k]).name@ != t.shard_key_column@)
            ==> key_fault(t, src) is Some,
        identity_fault(t, replident) is None <==> replident == 100 || replident == 105,
        cover_fault(t, identity) is None <==> exists|k: int|
            0 <= k < identity.len() && (#[trigger] identity[k])@ == t.shard_key_column@,
{
    lemma_column_found(src, t.shard_key_column@);
    let k = column_at(src, t.shard_key_column@);
    if k < src.len() {
        assert(src[k].name@ == t.shard_key_column@);
    }
    let names = text::views(identity);
    if names.contains(t.shard_key_column@) {
        let j = choose|j: int| 0 <= j < names.len() && names[j] == t.shard_key_column@;
        assert(identity[j]@ == t.shard_key_column@);
    }
    if exists|k: int| 0 <= k < identity.len() && (#[trigger] identity[k])@ == t.shard_key_column@ {
        let j = choose|k: int|
            0 <= k < identity.len() && (#[trigger] identity[k])@ == t.shard_key_column@;
        assert(names[j] == t.shard_key_column@);
    }
}

/// A target database is touched only under the very mark that the workflow expects.
pub proof fn law_only_owned_targets_are_touched(run: RunPlan, marker: Option<String>)
    ensures
        marker_fault(run, marker) is None <==> marker is Some && marker->0@ == instance::marker(
            run.expect_provenance@,
        ),
        marker is None ==> marker_fault(run, marker) is Some,
{
}

/// A preflight passes only where the target is owned, the publication is sound, and every
/// table passes each of its questions.
pub proof fn law_nothing_faulty_passes(run: RunPlan, f: Facts, n: int)
    requires
        preflight_fault(run, f) is None,
        0 <= n < f.tables.len(),
    ensures
        marker_fault(run, f.marker) is None,
        publication_fault(run, f.publication.shape) is None,
        source_fault(run.tables@[n], f.tables[n].source@) is None,
        target_fault(
            run.target_database@,
            run.tables@[n],
            f.tables[n].source@,
            f.tables[n].target@,
        ) is None,
        key_fault(run.tables@[n], f.tables[n].source@) is None,
        identity_fault(run.tables@[n], f.tables[n].identity) is None,
        cover_fault(run.tables@[n], f.tables[n].identity_columns@) is None,
{
    lemma_each_table_passes(run, f.tables, 0, n);
}

proof fn lemma_each_table_passes(run: RunPlan, ts: Seq<TableFacts>, at: int, n: int)
    requires
        tables_fault(run, ts, at) is None,
        0 <= at <= n < ts.len(),
    ensures
        table_fault(run, run.tables@[n], ts[n]) is None,
    decreases n - at,
{
    if at < n {
        lemma_each_table_passes(run, ts, at + 1, n);
    }
}

} // verus!
