//! The cell of the class view that is being edited.
use vstd::prelude::*;
use vstd::string::StringExecFns;

use crate::class_actions::{seed_text, NodeEditOp};
use crate::class_view::NodeSnapshot;
use crate::model::FloatWidth;
use crate::text::{chars_of, same_str, says, string_of, trim, trim_exec};

verus! {

/// What of a row is edited.
#[derive(Clone, Copy, Debug, PartialEq, Eq, Structural)]
pub enum EditField {
    Value,
    Name,
    Comment,
    /// One component of a vector or matrix.
    Component(usize),
}

/// A cell that is being edited: its row, what was typed, and which cell it is.
#[derive(Debug)]
pub struct EditState {
    pub node_id: String,
    pub text: String,
    pub field: EditField,
}

/// That cell is being edited.
pub open spec fn edits(e: Option<EditState>, id: Seq<char>, field: EditField) -> bool {
    e is Some && e->0.node_id@ == id && e->0.field == field
}

pub fn is_editing(e: &Option<EditState>, id: &str, field: EditField) -> (r: bool)
    ensures
        r == edits(*e, id@, field),
{
    match e {
        None => false,
        Some(s) => same_str(s.node_id.as_str(), id) && s.field == field,
    }
}

/// Starts to edit a cell.
pub fn begin_edit(id: &str, text: &str, field: EditField) -> (e: EditState)
    ensures
        edits(Some(e), id@, field),
        e.text@ == text@,
{
    EditState { node_id: id.to_string(), text: text.to_string(), field }
}

/// Starts to edit the value of a row, without the prefix of a hex number.
pub fn begin_value_edit(id: &str, shown: &str) -> (e: EditState)
    ensures
        edits(Some(e), id@, EditField::Value),
        e.text@ == crate::class_actions::seeded(shown@),
{
    EditState { node_id: id.to_string(), text: seed_text(shown), field: EditField::Value }
}

/// The change of the class that a name or a comment makes; none for other cells.
pub fn text_edit_op(e: EditState, owner: u128, path: Vec<usize>) -> (op: Option<NodeEditOp>)
    ensures
        op == match e.field {
            EditField::Name => Some(NodeEditOp::SetName { owner, path, name: e.text }),
            EditField::Comment => Some(NodeEditOp::SetComment { owner, path, comment: e.text }),
            _ => None,
        },
{
    match e.field {
        EditField::Name => Some(NodeEditOp::SetName { owner, path, name: e.text }),
        EditField::Comment => Some(NodeEditOp::SetComment { owner, path, comment: e.text }),
        _ => None,
    }
}

/// The number of the first row at that place of the tree.
pub open spec fn row_index(rows: Seq<NodeSnapshot>, id: Seq<char>) -> Option<int>
    decreases rows.len(),
{
    if rows.len() == 0 {
        None
    } else {
        match row_index(rows.drop_last(), id) {
            Some(i) => Some(i),
            None => if rows.last().id_path@ == id {
                Some(rows.len() - 1)
            } else {
                None
            },
        }
    }
}

proof fn lemma_row_index(rows: Seq<NodeSnapshot>, id: Seq<char>)
    ensures
        match row_index(rows, id) {
            Some(i) => 0 <= i < rows.len() && rows[i].id_path@ == id && forall|j: int|
                0 <= j < i ==> (#[trigger] rows[j]).id_path@ != id,
            None => forall|j: int| 0 <= j < rows.len() ==> (#[trigger] rows[j]).id_path@ != id,
        },
    decreases rows.len(),
{
    if rows.len() > 0 {
        let rest = rows.drop_last();
        lemma_row_index(rest, id);
        assert forall|j: int| 0 <= j < rest.len() implies (#[trigger] rows[j]).id_path@
            == rest[j].id_path@ by {}
    }
}

/// The row at that place of the tree.
pub fn find_row(rows: &Vec<NodeSnapshot>, id: &str) -> (r: Option<usize>)
    ensures
        match r {
            Some(i) => i < rows@.len() && row_index(rows@, id@) == Some(i as int),
            None => row_index(rows@, id@) is None,
        },
{
    let mut i: usize = 0;
    while i < rows.len()
        invariant
            i <= rows@.len(),
            forall|j: int| 0 <= j < i ==> (#[trigger] rows@[j]).id_path@ != id@,
        decreases rows@.len() - i,
    {
        if same_str(rows[i].id_path.as_str(), id) {
            proof {
                lemma_row_index(rows@, id@);
            }
            return Some(i);
        }
        i += 1;
    }
    proof {
        lemma_row_index(rows@, id@);
    }
    None
}

/// A value that is to be written: where, of which type, and what was typed.
#[derive(Debug)]
pub struct ValueWrite {
    pub addr: usize,
    pub tag: String,
    pub text: String,
}

/// The value that a finished edit writes: only that of a value cell, into an
/// attached process, of a row that is still there.
pub open spec fn commits(
    e: Option<EditState>,
    attached: bool,
    rows: Seq<NodeSnapshot>,
    w: Option<ValueWrite>,
) -> bool {
    if e is Some && e->0.field == EditField::Value && attached && row_index(rows, e->0.node_id@)
        is Some {
        let row = rows[row_index(rows, e->0.node_id@)->0];
        w is Some && w->0.addr == row.address && w->0.tag == row.type_tag && w->0.text@ == trim(
            e->0.text@,
        )
    } else {
        w is None
    }
}

/// The value that a finished edit writes. The edit ends in any case.
pub fn commit_edit(
    e: &mut Option<EditState>,
    attached: bool,
    rows: &Vec<NodeSnapshot>,
) -> (w: Option<ValueWrite>)
    ensures
        *final(e) is None,
        commits(*old(e), attached, rows@, w),
{
    match e.take() {
        None => None,
        Some(s) => {
            if s.field != EditField::Value || !attached {
                return None;
            }
            match find_row(rows, s.node_id.as_str()) {
                None => None,
                Some(i) => {
                    let c = chars_of(s.text.as_str());
                    Some(
                        ValueWrite {
                            addr: rows[i].address,
                            tag: rows[i].type_tag.clone(),
                            text: string_of(trim_exec(c.as_slice())),
                        },
                    )
                },
            }
        },
    }
}

/// How the type of a component is called.
pub open spec fn width_name(w: FloatWidth) -> Seq<char> {
    match w {
        FloatWidth::F32 => "f32"@,
        FloatWidth::F64 => "f64"@,
    }
}

/// What keeps a component from being written: nothing is attached, or the text
/// is no number.
pub fn component_refused(attached: bool, readable: bool, text: &str, width: FloatWidth) -> (m: Option<
    String,
>)
    ensures
        if !attached {
            says(m, "not attached"@)
        } else if !readable {
            says(m, "'"@ + text@ + "' is not a valid "@ + width_name(width))
        } else {
            m is None
        },
{
    if !attached {
        return Some("not attached".to_string());
    }
    if !readable {
        let mut m = "'".to_string();
        m.append(text);
        m.append("' is not a valid ");
        match width {
            FloatWidth::F32 => m.append("f32"),
            FloatWidth::F64 => m.append("f64"),
        }
        return Some(m);
    }
    None
}

/// What was typed goes to the row that was edited: to its address, in its type, without
/// the white space round it.
pub proof fn typed_value_goes_to_its_row(
    e: Option<EditState>,
    rows: Seq<NodeSnapshot>,
    w: ValueWrite,
)
    requires
        commits(e, true, rows, Some(w)),
    ensures
        e is Some,
        e->0.field == EditField::Value,
        exists|i: int|
            0 <= i < rows.len() && (#[trigger] rows[i]).id_path@ == e->0.node_id@ && w.addr
                == rows[i].address && w.tag == rows[i].type_tag,
        w.text@ == trim(e->0.text@),
{
    lemma_row_index(rows, e->0.node_id@);
    let i = row_index(rows, e->0.node_id@)->0;
    assert(rows[i].id_path@ == e->0.node_id@);
}

} // verus!
