//! Results as they travel on the wire: columns, rows, and errors.
use crate::bytes;
use vstd::prelude::*;
use vstd::slice::slice_subrange;
use vstd::string::*;
use vstd::utf8::*;

verus! {

/// An error for the client: its SQLSTATE and its message.
#[derive(Debug, PartialEq, Eq)]
pub struct WireError {
    pub code: String,
    pub message: String,
}

/// What an error says.
#[verifier::ext_equal]
pub struct Fault {
    pub code: Seq<char>,
    pub message: Seq<char>,
}

impl View for WireError {
    type V = Fault;

    open spec fn view(&self) -> Fault {
        Fault { code: self.code@, message: self.message@ }
    }
}

pub open spec fn fault(code: Seq<char>, message: Seq<char>) -> Fault {
    Fault { code, message }
}

/// Whether a result is the error.
pub open spec fn refuses<T>(r: Result<T, WireError>, f: Fault) -> bool {
    r is Err && r->Err_0@ == f
}

pub fn user_error(code: &str, message: String) -> (r: WireError)
    ensures
        r@ == fault(code@, message@),
{
    WireError { code: code.to_owned(), message }
}

#[derive(Debug, Clone, Copy, PartialEq, Eq, Structural)]
pub enum FieldFormat {
    Text,
    Binary,
}

/// Where a column comes from and how its type is declared, as the backend reports it. It is
/// relayed and never looked at.
#[derive(Debug, Clone, Copy, PartialEq, Eq, Structural)]
pub struct Origin {
    /// The OID of the table.
    pub table: Option<i32>,
    /// The number of the column in the table.
    pub column: Option<i16>,
    /// The width of the type, or 0 where none is reported.
    pub type_size: i16,
    /// The type's modifier, or -1 where there is none.
    pub type_modifier: i32,
}

/// A column that no table and no declaration stands behind.
pub open spec fn no_origin() -> Origin {
    Origin { table: None, column: None, type_size: 0, type_modifier: (-1) as i32 }
}

impl Origin {
    pub fn none() -> (r: Origin)
        ensures
            r == no_origin(),
    {
        Origin { table: None, column: None, type_size: 0, type_modifier: -1 }
    }
}

/// A column of a result.
#[derive(Debug, PartialEq, Eq)]
pub struct Field {
    pub name: String,
    /// The OID of the column's type.
    pub type_oid: u32,
    pub format: FieldFormat,
    pub origin: Origin,
}

/// A column with its name as text.
#[verifier::ext_equal]
pub struct FieldView {
    pub name: Seq<char>,
    pub type_oid: u32,
    pub format: FieldFormat,
    pub origin: Origin,
}

/// What a client reads a column's cells by.
pub type Shape = (Seq<char>, u32, FieldFormat);

pub open spec fn shapes(s: Seq<FieldView>) -> Seq<Shape> {
    s.map_values(|f: FieldView| (f.name, f.type_oid, f.format))
}

impl View for Field {
    type V = FieldView;

    open spec fn view(&self) -> FieldView {
        FieldView {
            name: self.name@,
            type_oid: self.type_oid,
            format: self.format,
            origin: self.origin,
        }
    }
}

pub open spec fn field_views(s: Seq<Field>) -> Seq<FieldView> {
    s.map_values(|f: Field| f@)
}

/// A row: its cells one after the other, each a big-endian 32-bit length (-1 for SQL NULL)
/// followed by that many bytes.
#[derive(Debug, PartialEq, Eq)]
pub struct DataRow {
    pub data: Vec<u8>,
    pub field_count: i16,
}

/// The cell `n` places after the one whose length stands at `at`: `Some(None)` for SQL NULL,
/// and `None` where the row is malformed up to there.
pub open spec fn cell_from(b: Seq<u8>, at: int, n: nat) -> Option<Option<Seq<u8>>>
    decreases n,
{
    if at + 4 > b.len() {
        None
    } else {
        let len = bytes::signed32(bytes::be_value(b.subrange(at, at + 4)) as u32);
        if len == -1 {
            if n == 0 {
                Some(None)
            } else {
                cell_from(b, at + 4, (n - 1) as nat)
            }
        } else if len < -1 || at + 4 + len > b.len() {
            None
        } else if n == 0 {
            Some(Some(b.subrange(at + 4, at + 4 + len)))
        } else {
            cell_from(b, at + 4 + len, (n - 1) as nat)
        }
    }
}

/// The cell of a column.
pub open spec fn cell(row: DataRow, idx: int) -> Option<Option<Seq<u8>>> {
    cell_from(row.data@, 0, idx as nat)
}

pub open spec fn malformed() -> Fault {
    fault("XX000"@, "malformed DataRow from backend: field is truncated or out of range"@)
}

fn malformed_row() -> (r: WireError)
    ensures
        r@ == malformed(),
{
    user_error(
        "XX000",
        "malformed DataRow from backend: field is truncated or out of range".to_owned(),
    )
}

pub open spec fn slice_view(s: Option<&[u8]>) -> Option<Seq<u8>> {
    match s {
        Some(b) => Some(b@),
        None => None,
    }
}

/// The raw bytes of column `idx` in `row`, `Ok(None)` for a SQL NULL cell. A row that ends
/// before `idx`, carries a length that overruns the buffer, or states a length below `-1`
/// is malformed: this fails closed (`XX000`) rather than mistaking a truncated cell for a
/// NULL that would silently sort into the wrong place.
pub fn field_bytes<'a>(row: &'a DataRow, idx: usize) -> (r: Result<Option<&'a [u8]>, WireError>)
    ensures
        match cell(*row, idx as int) {
            Some(c) => r is Ok && slice_view(r->Ok_0) == c,
            None => refuses(r, malformed()),
        },
{
    let data: &[u8] = row.data.as_slice();
    let size: usize = data.len();
    let mut at: usize = 0;
    let mut left: usize = idx;
    loop
        invariant
            size == data@.len(),
            data@ == row.data@,
            at <= size,
            left <= idx,
            cell_from(data@, at as int, left as nat) == cell(*row, idx as int),
        decreases left,
    {
        if size - at < 4 {
            return Err(malformed_row());
        }
        let raw: u64 = bytes::read_be(data, at, 4);
        proof {
            bytes::lemma_pow256();
        }
        let len: i32 = bytes::to_signed32(raw as u32);
        at = at + 4;
        if len == -1 {
            if left == 0 {
                return Ok(None);
            }
        } else if len < -1 {
            return Err(malformed_row());
        } else {
            let n: usize = len as usize;
            if n > size - at {
                return Err(malformed_row());
            }
            if left == 0 {
                return Ok(Some(slice_subrange(data, at, at + n)));
            }
            at = at + n;
        }
        left -= 1;
    }
}

/// A text cell: its length and its bytes. A length that does not fit in 32 bits wraps.
pub open spec fn text_cell(value: Option<Seq<char>>) -> Seq<u8> {
    match value {
        Some(s) => bytes::be(encode_utf8(s).len() % 0x1_0000_0000, 4) + encode_utf8(s),
        None => seq![0xffu8, 0xffu8, 0xffu8, 0xffu8],
    }
}

/// The cells of a row stand one behind the other: the first is its length and that many
/// bytes, or -1 for NULL, and each other one is the first of what follows.
pub proof fn law_cells_follow_one_another(b: Seq<u8>, at: int, n: nat, len: u32)
    requires
        0 <= at,
        at + 4 <= b.len(),
        b.subrange(at, at + 4) == bytes::be(len as nat, 4),
    ensures
        len == 0xffff_ffff ==> cell_from(b, at, 0) == Some(None::<Seq<u8>>) && cell_from(
            b,
            at,
            n + 1,
        ) == cell_from(b, at + 4, n),
        len < 0x8000_0000 && at + 4 + len <= b.len() ==> cell_from(b, at, 0) == Some(
            Some(b.subrange(at + 4, at + 4 + len)),
        ) && cell_from(b, at, n + 1) == cell_from(b, at + 4 + len, n),
{
    bytes::lemma_pow256();
    bytes::lemma_be_value(len as nat, 4);
}

/// A row that ends before a cell, a cell that overruns its row, and a length below -1 are
/// malformed: none of them is read as NULL.
pub proof fn law_cut_cells_are_malformed(b: Seq<u8>, at: int, n: nat, len: u32)
    requires
        0 <= at <= b.len(),
    ensures
        b.len() < at + 4 ==> cell_from(b, at, n) is None,
        at + 4 <= b.len() && b.subrange(at, at + 4) == bytes::be(len as nat, 4) && (0x8000_0000
            <= len < 0xffff_ffff || (len < 0x8000_0000 && b.len() < at + 4 + len)) ==> cell_from(
            b,
            at,
            n,
        ) is None,
{
    bytes::lemma_pow256();
    bytes::lemma_be_value(len as nat, 4);
}

/// Two columns look alike to a client exactly where their name, type and format agree.
pub proof fn law_shapes_are_what_clients_see(a: Seq<FieldView>, b: Seq<FieldView>)
    ensures
        shapes(a) == shapes(b) <==> a.len() == b.len() && forall|i: int|
            0 <= i < a.len() ==> (#[trigger] a[i]).name == b[i].name && a[i].type_oid
                == b[i].type_oid && a[i].format == b[i].format,
{
    if shapes(a) == shapes(b) {
        assert(shapes(a).len() == a.len());
        assert(shapes(b).len() == b.len());
        assert forall|i: int| 0 <= i < a.len() implies (#[trigger] a[i]).name == b[i].name
            && a[i].type_oid == b[i].type_oid && a[i].format == b[i].format by {
            assert(shapes(a)[i] == shapes(b)[i]);
        }
    }
    if a.len() == b.len() && forall|i: int|
        0 <= i < a.len() ==> (#[trigger] a[i]).name == b[i].name && a[i].type_oid
            == b[i].type_oid && a[i].format == b[i].format {
        assert(shapes(a) =~= shapes(b));
    }
}

} // verus!
