//! What the class view does with its rows: searching, selecting, expanding,
//! editing, and what its menus and dialogs ask for.
use vstd::prelude::*;
use vstd::string::StringExecFns;

use crate::address::{strip_hex_prefix, strip_hex_prefix_exec};
use crate::class_view::{
    is_live_container, is_live_tag, NodeSnapshot, RowView, ViewRow, VtableMethodRow,
};
use crate::encoding::{lowercase, lowercase_of};
use crate::model::{FloatWidth, Shape};
use crate::modules_panel::{has_name, has_name_exec};
use crate::scalar::scalar_kind;
use crate::text::{
    chars_of, contains_text, contains_text_exec, decimal, decimal_exec, hex_lower, hex_lower_exec,
    parse_int_spec, parse_unsigned, prefixed_hex, prefixed_hex_exec, same_str, says, string_of,
    trim, trim_exec, wide_hex, wide_hex_exec,
};

verus! {

/// A field by the class that it belongs to and its place in that class.
#[derive(Debug)]
pub struct NodeRef {
    pub owner: u128,
    pub path: Vec<usize>,
}

pub(crate) fn copy_path(path: &Vec<usize>) -> (out: Vec<usize>)
    ensures
        out@ == path@,
{
    let mut out: Vec<usize> = Vec::new();
    let mut i: usize = 0;
    while i < path.len()
        invariant
            i <= path@.len(),
            out@ == path@.subrange(0, i as int),
        decreases path@.len() - i,
    {
        out.push(path[i]);
        i += 1;
    }
    assert(path@.subrange(0, path@.len() as int) =~= path@);
    out
}

/// A row passes a search, given its texts in lower case: one of them, or its
/// offset in hex, holds what is searched for.
pub open spec fn row_hit(
    needle: Seq<char>,
    name: Seq<char>,
    tag: Seq<char>,
    comment: Seq<char>,
    value: Seq<char>,
    offset: usize,
) -> bool {
    ||| contains_text(name, needle)
    ||| contains_text(tag, needle)
    ||| contains_text(comment, needle)
    ||| contains_text(value, needle)
    ||| contains_text(hex_lower(offset as nat), needle)
}

/// Whether a row passes a search. The texts are in lower case.
pub fn row_matches(
    needle: &str,
    name: &str,
    tag: &str,
    comment: &str,
    value: &str,
    offset: usize,
) -> (r: bool)
    ensures
        r == row_hit(needle@, name@, tag@, comment@, value@, offset),
{
    let n = chars_of(needle);
    let a = chars_of(name);
    let b = chars_of(tag);
    let c = chars_of(comment);
    let d = chars_of(value);
    let e = hex_lower_exec(offset as u64);
    contains_text_exec(a.as_slice(), n.as_slice()) || contains_text_exec(
        b.as_slice(),
        n.as_slice(),
    ) || contains_text_exec(c.as_slice(), n.as_slice()) || contains_text_exec(
        d.as_slice(),
        n.as_slice(),
    ) || contains_text_exec(e.as_slice(), n.as_slice())
}

/// The view row is a tree row that passes the search.
pub open spec fn found(
    rows: Seq<NodeSnapshot>,
    values: Seq<String>,
    needle: Seq<char>,
    v: ViewRow,
) -> bool {
    v matches ViewRow::Snap(i) && i < rows.len() && i < values.len() && row_hit(
        needle,
        lowercase_of(rows[i as int].name@),
        lowercase_of(rows[i as int].type_tag@),
        lowercase_of(rows[i as int].comment@),
        lowercase_of(values[i as int]@),
        rows[i as int].offset,
    )
}

/// The view rows that a search leaves: all of them where nothing is searched
/// for, else the tree rows that pass.
pub open spec fn searched(
    rows: Seq<NodeSnapshot>,
    values: Seq<String>,
    search: Seq<char>,
    view: Seq<ViewRow>,
) -> Seq<ViewRow>
    decreases view.len(),
{
    if trim(search).len() == 0 || view.len() == 0 {
        view
    } else if found(rows, values, lowercase_of(trim(search)), view.last()) {
        searched(rows, values, search, view.drop_last()).push(view.last())
    } else {
        searched(rows, values, search, view.drop_last())
    }
}

/// Filters the view rows by the search box. `values` are the shown values of the
/// tree rows.
pub fn search_rows(
    rows: &Vec<NodeSnapshot>,
    values: &Vec<String>,
    search: &str,
    view: Vec<ViewRow>,
) -> (out: Vec<ViewRow>)
    ensures
        out@ == searched(rows@, values@, search@, view@),
{
    let chars = chars_of(search);
    let t = trim_exec(chars.as_slice());
    if t.len() == 0 {
        return view;
    }
    let wanted = string_of(t);
    let needle = lowercase(wanted.as_str());
    let mut out: Vec<ViewRow> = Vec::new();
    let mut k: usize = 0;
    while k < view.len()
        invariant
            k <= view@.len(),
            trim(search@).len() > 0,
            needle@ == lowercase_of(trim(search@)),
            out@ == searched(rows@, values@, search@, view@.subrange(0, k as int)),
        decreases view@.len() - k,
    {
        assert(view@.subrange(0, k + 1).drop_last() =~= view@.subrange(0, k as int));
        assert(view@.subrange(0, k + 1).last() == view@[k as int]);
        let v = view[k];
        if let ViewRow::Snap(i) = v {
            if i < rows.len() && i < values.len() {
                let row = &rows[i];
                let name = lowercase(row.name.as_str());
                let tag = lowercase(row.type_tag.as_str());
                let comment = lowercase(row.comment.as_str());
                let value = lowercase(values[i].as_str());
                if row_matches(
                    needle.as_str(),
                    name.as_str(),
                    tag.as_str(),
                    comment.as_str(),
                    value.as_str(),
                    row.offset,
                ) {
                    out.push(v);
                }
            }
        }
        k += 1;
    }
    assert(view@.subrange(0, view@.len() as int) =~= view@);
    out
}

/// The number of the tree row that a view row is.
pub open spec fn tree_rows(view: Seq<ViewRow>) -> Seq<usize>
    decreases view.len(),
{
    if view.len() == 0 {
        Seq::empty()
    } else {
        match view.last() {
            ViewRow::Snap(i) => tree_rows(view.drop_last()).push(i),
            _ => tree_rows(view.drop_last()),
        }
    }
}

/// The fields on screen, in order: what shift-clicks and arrow keys range over.
pub fn visible_order(rows: &Vec<NodeSnapshot>, view: &Vec<ViewRow>) -> (out: Vec<NodeRef>)
    requires
        forall|k: int|
            0 <= k < view@.len() ==> ((#[trigger] view@[k]) matches ViewRow::Snap(i) ==> i
                < rows@.len()),
    ensures
        out@.len() == tree_rows(view@).len(),
        forall|k: int|
            0 <= k < out@.len() ==> {
                let row = rows@[tree_rows(view@)[k] as int];
                (#[trigger] out@[k]).owner == row.owner_class && out@[k].path@ == row.local_path@
            },
{
    let mut out: Vec<NodeRef> = Vec::new();
    let mut k: usize = 0;
    while k < view.len()
        invariant
            k <= view@.len(),
            forall|k: int|
                0 <= k < view@.len() ==> ((#[trigger] view@[k]) matches ViewRow::Snap(i) ==> i
                    < rows@.len()),
            out@.len() == tree_rows(view@.subrange(0, k as int)).len(),
            forall|j: int|
                0 <= j < out@.len() ==> {
                    let row = rows@[tree_rows(view@.subrange(0, k as int))[j] as int];
                    (#[trigger] out@[j]).owner == row.owner_class && out@[j].path@
                        == row.local_path@
                },
        decreases view@.len() - k,
    {
        assert(view@.subrange(0, k + 1).drop_last() =~= view@.subrange(0, k as int));
        assert(view@.subrange(0, k + 1).last() == view@[k as int]);
        let ghost before = tree_rows(view@.subrange(0, k as int));
        let ghost was = out@;
        if let ViewRow::Snap(i) = view[k] {
            assert(i < rows@.len());
            out.push(NodeRef { owner: rows[i].owner_class, path: copy_path(&rows[i].local_path) });
        }
        proof {
            let now = tree_rows(view@.subrange(0, k + 1));
            assert forall|j: int| 0 <= j < out@.len() implies ({
                let row = rows@[now[j] as int];
                (#[trigger] out@[j]).owner == row.owner_class && out@[j].path@ == row.local_path@
            }) by {
                if j < was.len() {
                    assert(now[j] == before[j]);
                    assert(was[j].owner == rows@[before[j] as int].owner_class);
                }
            }
        }
        k += 1;
    }
    assert(view@.subrange(0, view@.len() as int) =~= view@);
    out
}

/// What a click on a row does to the selection.
#[derive(Clone, Copy, Debug, PartialEq, Eq, Structural)]
pub enum ClickEffect {
    /// Select everything up to the row.
    Extend,
    /// Select the row besides the others, or no longer.
    Toggle,
    /// Select nothing.
    Clear,
    /// Select the row alone.
    Single,
}

/// What a click does: with shift it extends the selection, with ctrl it toggles
/// the row, on the only selected row it clears, else it selects the row alone.
pub fn click_effect(shift: bool, ctrl: bool, selected: usize, hit_selected: bool) -> (e: ClickEffect)
    ensures
        e == if shift {
            ClickEffect::Extend
        } else if ctrl {
            ClickEffect::Toggle
        } else if selected == 1 && hit_selected {
            ClickEffect::Clear
        } else {
            ClickEffect::Single
        },
{
    if shift {
        ClickEffect::Extend
    } else if ctrl {
        ClickEffect::Toggle
    } else if selected == 1 && hit_selected {
        ClickEffect::Clear
    } else {
        ClickEffect::Single
    }
}

/// How the value of a row is drawn.
#[derive(Clone, Copy, Debug, PartialEq, Eq, Structural)]
pub enum ValueCell {
    /// One cell per component of a vector.
    Components,
    /// The value as plain text.
    Text,
    /// The summary of a matrix, whose cells stand in rows of their own.
    Matrix,
    /// A text box.
    Editing,
    /// A value that a double click turns into a text box.
    Editable,
    /// A value that cannot be typed into.
    Label,
}

/// How the value of a row is drawn.
pub open spec fn value_cell_of(row: RowView, attached: bool, editing: bool) -> ValueCell {
    match row.shape {
        Shape::Vector { .. } => if row.components.len() == 0 {
            ValueCell::Text
        } else {
            ValueCell::Components
        },
        Shape::Matrix { .. } => ValueCell::Matrix,
        Shape::Scalar => if scalar_kind(row.type_tag) is Some && attached {
            if editing {
                ValueCell::Editing
            } else {
                ValueCell::Editable
            }
        } else {
            ValueCell::Label
        },
    }
}

pub fn value_cell(row: &NodeSnapshot, attached: bool, editing: bool) -> (c: ValueCell)
    ensures
        c == value_cell_of(row@, attached, editing),
{
    match row.shape {
        Shape::Vector { .. } => if row.components.len() == 0 {
            ValueCell::Text
        } else {
            ValueCell::Components
        },
        Shape::Matrix { .. } => ValueCell::Matrix,
        Shape::Scalar => if crate::scalar::is_editable(row.type_tag.as_str()) && attached {
            if editing {
                ValueCell::Editing
            } else {
                ValueCell::Editable
            }
        } else {
            ValueCell::Label
        },
    }
}

/// A row can be opened and closed.
pub open spec fn expandable(row: RowView) -> bool {
    row.has_children || is_live_tag(row.type_tag) || row.shape is Matrix
}

/// The arrow of a row: whether it points down, as it does for an open row.
/// Pointers are closed unless expanded, other rows open unless collapsed.
pub fn row_arrow(row: &NodeSnapshot, collapsed: &Vec<String>, expanded: &Vec<String>) -> (open:
    Option<bool>)
    ensures
        open == if !expandable(row@) {
            None
        } else if row.type_tag@ == "Pointer"@ {
            Some(has_name(expanded@, row.id_path@))
        } else {
            Some(!has_name(collapsed@, row.id_path@))
        },
{
    let matrix = match row.shape {
        Shape::Matrix { .. } => true,
        _ => false,
    };
    if !(row.has_children || is_live_container(row.type_tag.as_str()) || matrix) {
        return None;
    }
    if same_str(row.type_tag.as_str(), "Pointer") {
        Some(has_name_exec(expanded, row.id_path.as_str()))
    } else {
        Some(!has_name_exec(collapsed, row.id_path.as_str()))
    }
}

/// `out` holds `name` where `s` does not, and is `s` for every other name.
pub open spec fn toggled(s: Seq<String>, out: Seq<String>, name: Seq<char>) -> bool {
    &&& has_name(out, name) <==> !has_name(s, name)
    &&& forall|other: Seq<char>|
        other != name ==> (#[trigger] has_name(out, other) <==> has_name(s, other))
}

fn toggle_name(names: &mut Vec<String>, name: &str)
    ensures
        toggled(old(names)@, final(names)@, name@),
{
    let ghost was = names@;
    let mut kept: Vec<String> = Vec::new();
    let mut i: usize = 0;
    while i < names.len()
        invariant
            i <= names@.len(),
            names@ == was,
            !has_name(kept@, name@),
            forall|other: Seq<char>|
                other != name@ ==> (#[trigger] has_name(kept@, other) <==> has_name(
                    was.subrange(0, i as int),
                    other,
                )),
        decreases names@.len() - i,
    {
        let same = same_str(names[i].as_str(), name);
        let ghost before = kept@;
        if !same {
            kept.push(names[i].clone());
        }
        proof {
            let seen = was.subrange(0, i as int);
            let next = was.subrange(0, i + 1);
            assert forall|other: Seq<char>| other != name@ implies (#[trigger] has_name(
                kept@,
                other,
            ) <==> has_name(next, other)) by {
                assert(has_name(before, other) <==> has_name(seen, other));
                if has_name(seen, other) {
                    let j = choose|j: int| 0 <= j < seen.len() && (#[trigger] seen[j])@ == other;
                    assert(next[j]@ == other);
                    let k = choose|k: int| 0 <= k < before.len() && (#[trigger] before[k])@ == other;
                    assert(kept@[k]@ == other);
                }
                if was[i as int]@ == other {
                    assert(next[i as int]@ == other);
                    assert(kept@[before.len() as int]@ == other);
                }
                if has_name(kept@, other) {
                    let k = choose|k: int| 0 <= k < kept@.len() && (#[trigger] kept@[k])@ == other;
                    if k < before.len() {
                        assert(before[k]@ == other);
                    }
                }
                if has_name(next, other) {
                    let j = choose|j: int| 0 <= j < next.len() && (#[trigger] next[j])@ == other;
                    if j < i {
                        assert(seen[j]@ == other);
                    }
                }
            }
            if has_name(kept@, name@) {
                let k = choose|k: int| 0 <= k < kept@.len() && (#[trigger] kept@[k])@ == name@;
                if k < before.len() {
                    assert(before[k]@ == name@);
                }
            }
        }
        i += 1;
    }
    assert(was.subrange(0, was.len() as int) =~= was);
    let present = has_name_exec(names, name);
    let ghost without = kept@;
    if !present {
        kept.push(name.to_string());
    }
    proof {
        if !present {
            assert(kept@[without.len() as int]@ == name@);
            assert forall|other: Seq<char>| other != name@ implies (#[trigger] has_name(
                kept@,
                other,
            ) <==> has_name(was, other)) by {
                assert(has_name(without, other) <==> has_name(was, other));
                if has_name(without, other) {
                    let k = choose|k: int|
                        0 <= k < without.len() && (#[trigger] without[k])@ == other;
                    assert(kept@[k]@ == other);
                }
                if has_name(kept@, other) {
                    let k = choose|k: int| 0 <= k < kept@.len() && (#[trigger] kept@[k])@ == other;
                    assert(without[k]@ == other);
                }
            }
        }
    }
    *names = kept;
}

/// Opens or closes a row: a pointer among the expanded ones, any other row among
/// the collapsed ones.
pub fn toggle_row(tag: &str, id: &str, collapsed: &mut Vec<String>, expanded: &mut Vec<String>)
    ensures
        if tag@ == "Pointer"@ {
            toggled(old(expanded)@, final(expanded)@, id@) && final(collapsed)@ == old(collapsed)@
        } else {
            toggled(old(collapsed)@, final(collapsed)@, id@) && final(expanded)@ == old(expanded)@
        },
{
    if same_str(tag, "Pointer") {
        toggle_name(expanded, id);
    } else {
        toggle_name(collapsed, id);
    }
}

/// Where the component number `index` lies, of a node at `address`.
pub open spec fn component_place(address: usize, index: usize, width: FloatWidth) -> usize {
    address.wrapping_add(index.wrapping_mul(width.bytes() as usize))
}

/// Where the component number `index` lies, of a node at `address`.
pub fn component_address(address: usize, index: usize, width: FloatWidth) -> (a: usize)
    ensures
        a == component_place(address, index, width),
{
    address.wrapping_add(index.wrapping_mul(width.size()))
}

/// One row of a matrix: its first component, how many it has, and where it lies.
#[derive(Clone, Copy, Debug, PartialEq, Eq, Structural)]
pub struct MatrixRowLayout {
    pub first: usize,
    pub cols: usize,
    pub address: usize,
    pub offset: usize,
    pub width: FloatWidth,
}

/// The layout of the row number `mrow` of a matrix.
pub open spec fn matrix_layout(row: RowView, mrow: usize) -> Option<MatrixRowLayout> {
    match row.shape {
        Shape::Matrix { cols, width, .. } => {
            let first = mrow.wrapping_mul(cols as usize);
            let bytes = first.wrapping_mul(width.bytes() as usize);
            Some(
                MatrixRowLayout {
                    first,
                    cols: cols as usize,
                    address: row.address.wrapping_add(bytes),
                    offset: row.offset.wrapping_add(bytes),
                    width,
                },
            )
        },
        _ => None,
    }
}

pub fn matrix_row_layout(row: &NodeSnapshot, mrow: usize) -> (r: Option<MatrixRowLayout>)
    ensures
        r == matrix_layout(row@, mrow),
{
    match row.shape {
        Shape::Matrix { cols, width, .. } => {
            let first: usize = mrow.wrapping_mul(cols as usize);
            let bytes: usize = first.wrapping_mul(width.size());
            Some(
                MatrixRowLayout {
                    first,
                    cols: cols as usize,
                    address: row.address.wrapping_add(bytes),
                    offset: row.offset.wrapping_add(bytes),
                    width,
                },
            )
        },
        _ => None,
    }
}

/// The address column of a tree row.
pub fn address_label(address: usize) -> (s: String)
    ensures
        s@ == wide_hex(address as nat, 12),
{
    wide_hex_exec(address as u64, 12)
}

/// The address column of a live row.
pub fn code_label(address: u64) -> (s: String)
    ensures
        s@ == wide_hex(address as nat, 16),
{
    wide_hex_exec(address, 16)
}

/// The offset column.
pub fn offset_label(offset: usize) -> (s: String)
    ensures
        s@ == "+"@ + wide_hex(offset as nat, 4),
{
    let mut s = "+".to_string();
    let w = wide_hex_exec(offset as u64, 4);
    s.append(w.as_str());
    s
}

/// The type column: a hidden field says so.
pub fn type_label(tag: &str, hidden: bool) -> (s: String)
    ensures
        s@ == if hidden {
            tag@ + " (hidden)"@
        } else {
            tag@
        },
{
    let mut s = tag.to_string();
    if hidden {
        s.append(" (hidden)");
    }
    s
}

/// The name column of a slot of a virtual table.
pub fn method_label(m: &VtableMethodRow) -> (s: String)
    ensures
        s@ == "["@ + decimal(m.slot as nat) + "] "@ + match m.symbol {
            Some(n) => n@,
            None => ""@,
        },
{
    let mut s = "[".to_string();
    let n = string_of(decimal_exec(m.slot as u64).as_slice());
    s.append(n.as_str());
    s.append("] ");
    match &m.symbol {
        Some(n) => {
            s.append(n.as_str());
        },
        None => {
            s.append("");
        },
    }
    s
}

/// The text that a value's text box starts with: the value without its `0x`.
pub open spec fn seeded(value: Seq<char>) -> Seq<char> {
    match strip_hex_prefix(value) {
        Some(rest) => rest,
        None => value,
    }
}

pub fn seed_text(value: &str) -> (s: String)
    ensures
        s@ == seeded(value@),
{
    let c = chars_of(value);
    match strip_hex_prefix_exec(c.as_slice()) {
        Some(rest) => string_of(rest),
        None => value.to_string(),
    }
}

/// The address that the shown value of a pointer writes; `None` where the value
/// does not start with `0x` or is no address.
pub open spec fn shown_pointer(value: Seq<char>) -> Option<int> {
    match strip_hex_prefix(value) {
        Some(hex) => match parse_int_spec(hex, 16, 0, usize::MAX as int) {
            Ok(v) => Some(v),
            Err(_) => None,
        },
        None => None,
    }
}

/// The address behind a shown pointer: what "follow", "pointer-scan" and
/// "spider" start from. They are offered unless it is null.
pub fn pointer_from_value(value: &str) -> (r: Option<usize>)
    ensures
        match r {
            Some(a) => shown_pointer(value@) == Some(a as int),
            None => shown_pointer(value@) is None,
        },
{
    let c = chars_of(value);
    match strip_hex_prefix_exec(c.as_slice()) {
        Some(hex) => match parse_unsigned(hex, 16, usize::MAX as u64) {
            Ok(v) => Some(v as usize),
            Err(_) => None,
        },
        None => None,
    }
}

/// How a menu names a selection of more than one row.
pub fn menu_plural(selected: usize) -> (s: String)
    ensures
        s@ == if selected > 1 {
            " ("@ + decimal(selected as nat) + ")"@
        } else {
            ""@
        },
{
    if selected > 1 {
        let mut s = " (".to_string();
        let n = string_of(decimal_exec(selected as u64).as_slice());
        s.append(n.as_str());
        s.append(")");
        s
    } else {
        "".to_string()
    }
}

/// What the toolbar says of the selection. `row` is the selected row where there
/// is one and it is on screen.
pub fn selection_label(selected: usize, row: Option<&NodeSnapshot>) -> (s: String)
    ensures
        s@ == if selected == 0 {
            "click a field to select it"@
        } else if selected == 1 {
            "→ "@ + match row {
                Some(r) => if r.name@.len() == 0 {
                    "<"@ + r.type_tag@ + ">"@
                } else {
                    r.name@
                },
                None => "(field)"@,
            }
        } else {
            "→ "@ + decimal(selected as nat) + " fields"@
        },
{
    if selected == 0 {
        return "click a field to select it".to_string();
    }
    let mut s = "→ ".to_string();
    if selected == 1 {
        match row {
            Some(r) => {
                if r.name.as_str().is_empty() {
                    let mut t = "<".to_string();
                    t.append(r.type_tag.as_str());
                    t.append(">");
                    s.append(t.as_str());
                } else {
                    s.append(r.name.as_str());
                }
            },
            None => {
                s.append("(field)");
            },
        }
    } else {
        let n = string_of(decimal_exec(selected as u64).as_slice());
        s.append(n.as_str());
        s.append(" fields");
    }
    s
}

/// A change to the fields of a class.
#[derive(Debug)]
pub enum NodeEditOp {
    SetName { owner: u128, path: Vec<usize>, name: String },
    SetComment { owner: u128, path: Vec<usize>, comment: String },
    ChangeType { owner: u128, path: Vec<usize>, new_tag: String },
    /// Add so many bytes behind the field.
    AddBytes { owner: u128, path: Vec<usize>, count: usize },
    /// Add so many bytes at the end of the class.
    AppendBytes { owner: u128, count: usize },
    /// Add so many bytes in front of the field.
    InsertBytes { owner: u128, path: Vec<usize>, count: usize },
    DeleteRange { owner: u128, path: Vec<usize>, count: usize },
    SetHidden { owner: u128, path: Vec<usize>, hidden: bool },
    SetPtrTarget { owner: u128, path: Vec<usize>, target: Option<u128> },
    SetInstance { owner: u128, path: Vec<usize>, target: u128 },
    ExtractClass { owner: u128, paths: Vec<Vec<usize>>, name: String },
}

/// The change behind "Add": behind the selected field, or at the end of the
/// class where none is selected.
pub fn add_bytes_op(anchor: Option<&NodeRef>, class: u128, count: usize) -> (op: NodeEditOp)
    ensures
        match anchor {
            Some(a) => op matches NodeEditOp::AddBytes { owner, path, count: n } && owner == a.owner
                && path@ == a.path@ && n == count,
            None => op == (NodeEditOp::AppendBytes { owner: class, count }),
        },
{
    match anchor {
        Some(a) => NodeEditOp::AddBytes { owner: a.owner, path: copy_path(&a.path), count },
        None => NodeEditOp::AppendBytes { owner: class, count },
    }
}

/// The change behind "Insert": in front of the selected field; none without one.
pub fn insert_bytes_op(anchor: Option<&NodeRef>, count: usize) -> (op: Option<NodeEditOp>)
    ensures
        match anchor {
            Some(a) => op matches Some(NodeEditOp::InsertBytes { owner, path, count: n }) && owner
                == a.owner && path@ == a.path@ && n == count,
            None => op is None,
        },
{
    match anchor {
        Some(a) => Some(
            NodeEditOp::InsertBytes { owner: a.owner, path: copy_path(&a.path), count },
        ),
        None => None,
    }
}

/// The change behind "Delete N": from the selected field on; none without one.
pub fn delete_range_op(anchor: Option<&NodeRef>, count: usize) -> (op: Option<NodeEditOp>)
    ensures
        match anchor {
            Some(a) => op matches Some(NodeEditOp::DeleteRange { owner, path, count: n }) && owner
                == a.owner && path@ == a.path@ && n == count,
            None => op is None,
        },
{
    match anchor {
        Some(a) => Some(
            NodeEditOp::DeleteRange { owner: a.owner, path: copy_path(&a.path), count },
        ),
        None => None,
    }
}

/// The dialog that adds or inserts bytes.
#[derive(Debug)]
pub struct AddBytesState {
    pub owner: u128,
    pub path: Vec<usize>,
    pub count_text: String,
    pub insert: bool,
}

/// The number that the dialog's box holds; 0 for anything else.
pub open spec fn typed_count(text: Seq<char>) -> int {
    match parse_int_spec(trim(text), 10, 0, usize::MAX as int) {
        Ok(n) => n,
        Err(_) => 0,
    }
}

/// The change that the dialog asks for once confirmed; none for no bytes.
pub fn add_bytes_confirmed(state: AddBytesState) -> (op: Option<NodeEditOp>)
    ensures
        ({
            let n = typed_count(state.count_text@);
            if n == 0 {
                op is None
            } else if state.insert {
                op == Some(
                    NodeEditOp::InsertBytes {
                        owner: state.owner,
                        path: state.path,
                        count: n as usize,
                    },
                )
            } else {
                op == Some(
                    NodeEditOp::AddBytes {
                        owner: state.owner,
                        path: state.path,
                        count: n as usize,
                    },
                )
            }
        }),
{
    let c = chars_of(state.count_text.as_str());
    let t = trim_exec(c.as_slice());
    let count: usize = match parse_unsigned(t, 10, usize::MAX as u64) {
        Ok(v) => v as usize,
        Err(_) => 0,
    };
    if count == 0 {
        None
    } else if state.insert {
        Some(NodeEditOp::InsertBytes { owner: state.owner, path: state.path, count })
    } else {
        Some(NodeEditOp::AddBytes { owner: state.owner, path: state.path, count })
    }
}

/// What a class is picked for.
#[derive(Debug)]
pub enum PickerPurpose {
    SetPtrTarget { owner: u128, path: Vec<usize> },
    SetInstance { owner: u128, path: Vec<usize> },
    ChangeToInstance { owner: u128, path: Vec<usize> },
}

impl PickerPurpose {
    pub open spec fn owner(self) -> u128 {
        match self {
            PickerPurpose::SetPtrTarget { owner, .. } => owner,
            PickerPurpose::SetInstance { owner, .. } => owner,
            PickerPurpose::ChangeToInstance { owner, .. } => owner,
        }
    }
}

/// `op` sets the class `picked` for the field.
pub open spec fn picks(op: NodeEditOp, purpose: PickerPurpose, picked: u128) -> bool {
    match purpose {
        PickerPurpose::SetPtrTarget { owner, path } => op == (NodeEditOp::SetPtrTarget {
            owner,
            path,
            target: Some(picked),
        }),
        PickerPurpose::SetInstance { owner, path } => op == (NodeEditOp::SetInstance {
            owner,
            path,
            target: picked,
        }),
        PickerPurpose::ChangeToInstance { owner, path } => op == (NodeEditOp::SetInstance {
            owner,
            path,
            target: picked,
        }),
    }
}

/// The change that picking the class `picked` makes.
pub fn class_picked(purpose: PickerPurpose, picked: u128) -> (op: NodeEditOp)
    ensures
        picks(op, purpose, picked),
{
    match purpose {
        PickerPurpose::SetPtrTarget { owner, path } => NodeEditOp::SetPtrTarget {
            owner,
            path,
            target: Some(picked),
        },
        PickerPurpose::SetInstance { owner, path } => NodeEditOp::SetInstance {
            owner,
            path,
            target: picked,
        },
        PickerPurpose::ChangeToInstance { owner, path } => NodeEditOp::SetInstance {
            owner,
            path,
            target: picked,
        },
    }
}

/// A class passes the picker's filter, given both texts in lower case.
pub fn picker_shows(filter_low: &str, name_low: &str) -> (r: bool)
    ensures
        r == (filter_low@.len() == 0 || contains_text(name_low@, filter_low@)),
{
    let f = chars_of(filter_low);
    let n = chars_of(name_low);
    f.len() == 0 || contains_text_exec(n.as_slice(), f.as_slice())
}

/// Whether a class is listed in the picker.
pub fn picker_lists(filter: &str, name: &str) -> (r: bool)
    ensures
        r == (lowercase_of(filter@).len() == 0 || contains_text(
            lowercase_of(name@),
            lowercase_of(filter@),
        )),
{
    let f = lowercase(filter);
    let n = lowercase(name);
    picker_shows(f.as_str(), n.as_str())
}

/// The name that a rename dialog gives: trimmed; none where nothing is left.
pub fn rename_confirmed(text: &str) -> (r: Option<String>)
    ensures
        match r {
            Some(n) => n@ == trim(text@) && n@.len() > 0,
            None => trim(text@).len() == 0,
        },
{
    let c = chars_of(text);
    let t = trim_exec(c.as_slice());
    if t.len() == 0 {
        None
    } else {
        Some(string_of(t))
    }
}

/// Some texts, joined by `sep`.
pub open spec fn joined_text(parts: Seq<String>, sep: Seq<char>) -> Seq<char>
    decreases parts.len(),
{
    if parts.len() == 0 {
        Seq::empty()
    } else if parts.len() == 1 {
        parts[0]@
    } else {
        joined_text(parts.drop_last(), sep) + sep + parts.last()@
    }
}

/// How many notes of an import or export are shown.
pub const MAX_NOTES: usize = 8;

/// The message about what an import or export had to approximate.
pub open spec fn notes_text(what: Seq<char>, notes: Seq<String>) -> Seq<char> {
    let n = if notes.len() < MAX_NOTES {
        notes.len()
    } else {
        MAX_NOTES as nat
    };
    let head = what + " was not lossless:\n  "@ + joined_text(
        notes.subrange(0, n as int),
        "\n  "@,
    );
    if notes.len() > n {
        head + "\n  …and "@ + decimal((notes.len() - n) as nat) + " more"@
    } else {
        head
    }
}

/// The message about what an import or export had to approximate; none where it
/// lost nothing.
pub fn interop_message(what: &str, notes: &Vec<String>) -> (m: Option<String>)
    ensures
        match m {
            Some(t) => notes@.len() > 0 && t@ == notes_text(what@, notes@),
            None => notes@.len() == 0,
        },
{
    if notes.len() == 0 {
        return None;
    }
    let n: usize = if notes.len() < MAX_NOTES {
        notes.len()
    } else {
        MAX_NOTES
    };
    let mut list = String::new();
    let mut i: usize = 0;
    while i < n
        invariant
            i <= n <= notes@.len(),
            list@ == joined_text(notes@.subrange(0, i as int), "\n  "@),
        decreases n - i,
    {
        assert(notes@.subrange(0, i + 1).drop_last() =~= notes@.subrange(0, i as int));
        if i > 0 {
            list.append("\n  ");
        }
        list.append(notes[i].as_str());
        assert(list@ =~= joined_text(notes@.subrange(0, i + 1), "\n  "@));
        i += 1;
    }
    let mut m = what.to_string();
    m.append(" was not lossless:\n  ");
    m.append(list.as_str());
    if notes.len() > n {
        m.append("\n  …and ");
        let more = string_of(decimal_exec((notes.len() - n) as u64).as_slice());
        m.append(more.as_str());
        m.append(" more");
    }
    Some(m)
}

/// The outcome of writing `want` bytes at `addr`, of which `written` went through.
pub fn write_outcome(written: Result<usize, String>, want: usize, addr: usize) -> (r: Result<
    (),
    String,
>)
    ensures
        match written {
            Err(e) => r == Err::<(), String>(e),
            Ok(n) => if n == want {
                r is Ok
            } else {
                r matches Err(m) && m@ == "short write: "@ + decimal(n as nat) + " of "@ + decimal(
                    want as nat,
                ) + " bytes at "@ + prefixed_hex(addr as nat)
            },
        },
{
    match written {
        Err(e) => Err(e),
        Ok(n) => {
            if n == want {
                return Ok(());
            }
            let mut m = "short write: ".to_string();
            let a = string_of(decimal_exec(n as u64).as_slice());
            m.append(a.as_str());
            m.append(" of ");
            let b = string_of(decimal_exec(want as u64).as_slice());
            m.append(b.as_str());
            m.append(" bytes at ");
            let c = prefixed_hex_exec(addr as u64);
            m.append(c.as_str());
            Err(m)
        },
    }
}

/// What a button of the class toolbar does.
#[derive(Clone, Copy, Debug, PartialEq, Eq, Structural)]
pub enum ToolbarAction {
    Undo,
    Redo,
    Copy,
    Cut,
    Paste,
    Hide,
    Unhide,
    DeleteSelection,
    SelectAll,
    ExtractClass,
}

/// Whether a button can be pressed: those that change the selected fields need
/// some, and the others need something to undo, redo or paste.
pub fn toolbar_enabled(
    action: ToolbarAction,
    selected: bool,
    can_undo: bool,
    can_redo: bool,
    can_paste: bool,
) -> (r: bool)
    ensures
        r == match action {
            ToolbarAction::Undo => can_undo,
            ToolbarAction::Redo => can_redo,
            ToolbarAction::Paste => can_paste,
            ToolbarAction::SelectAll => true,
            _ => selected,
        },
{
    match action {
        ToolbarAction::Undo => can_undo,
        ToolbarAction::Redo => can_redo,
        ToolbarAction::Paste => can_paste,
        ToolbarAction::SelectAll => true,
        _ => selected,
    }
}

/// What a key does in the class view.
#[derive(Clone, Copy, Debug, PartialEq, Eq, Structural)]
pub enum KeyAction {
    Toolbar(ToolbarAction),
    ClearSelection,
    /// Go one row up or down; extend the selection or move it.
    Step { up: bool, extend: bool },
}

/// The keys that went down over the class view.
#[derive(Clone, Copy, Debug, PartialEq, Eq, Structural)]
pub struct ClassKeys {
    pub delete: bool,
    pub up: bool,
    pub down: bool,
    pub shift: bool,
    pub ctrl: bool,
    pub copy: bool,
    pub cut: bool,
    pub paste: bool,
    pub select_all: bool,
    pub undo: bool,
    pub redo: bool,
    pub escape: bool,
}

/// One action, where its key went down.
pub open spec fn when(pressed: bool, a: KeyAction) -> Seq<KeyAction> {
    if pressed {
        seq![a]
    } else {
        Seq::empty()
    }
}

/// What the keys do, in this order. Keys belong to a text box where one has the
/// focus, and do nothing without a class; arrows with Ctrl move nothing.
pub open spec fn key_actions(k: ClassKeys, typing: bool, has_class: bool) -> Seq<KeyAction> {
    if typing || !has_class {
        Seq::empty()
    } else {
        when(k.undo, KeyAction::Toolbar(ToolbarAction::Undo)) + when(
            k.redo,
            KeyAction::Toolbar(ToolbarAction::Redo),
        ) + when(k.copy, KeyAction::Toolbar(ToolbarAction::Copy)) + when(
            k.cut,
            KeyAction::Toolbar(ToolbarAction::Cut),
        ) + when(k.paste, KeyAction::Toolbar(ToolbarAction::Paste)) + when(
            k.select_all,
            KeyAction::Toolbar(ToolbarAction::SelectAll),
        ) + when(k.delete, KeyAction::Toolbar(ToolbarAction::DeleteSelection)) + when(
            k.escape,
            KeyAction::ClearSelection,
        ) + when(
            (k.up || k.down) && !k.ctrl,
            KeyAction::Step { up: k.up, extend: k.shift },
        )
    }
}

fn push_when(out: &mut Vec<KeyAction>, pressed: bool, a: KeyAction)
    ensures
        final(out)@ == old(out)@ + when(pressed, a),
{
    if pressed {
        out.push(a);
    }
    assert(out@ =~= old(out)@ + when(pressed, a));
}

/// What the keys do over the class view.
pub fn class_key_actions(k: &ClassKeys, typing: bool, has_class: bool) -> (out: Vec<KeyAction>)
    ensures
        out@ == key_actions(*k, typing, has_class),
{
    let mut out: Vec<KeyAction> = Vec::new();
    if typing || !has_class {
        return out;
    }
    let ghost first = when(k.undo, KeyAction::Toolbar(ToolbarAction::Undo));
    assert(Seq::<KeyAction>::empty() + first =~= first);
    push_when(&mut out, k.undo, KeyAction::Toolbar(ToolbarAction::Undo));
    push_when(&mut out, k.redo, KeyAction::Toolbar(ToolbarAction::Redo));
    push_when(&mut out, k.copy, KeyAction::Toolbar(ToolbarAction::Copy));
    push_when(&mut out, k.cut, KeyAction::Toolbar(ToolbarAction::Cut));
    push_when(&mut out, k.paste, KeyAction::Toolbar(ToolbarAction::Paste));
    push_when(&mut out, k.select_all, KeyAction::Toolbar(ToolbarAction::SelectAll));
    push_when(&mut out, k.delete, KeyAction::Toolbar(ToolbarAction::DeleteSelection));
    push_when(&mut out, k.escape, KeyAction::ClearSelection);
    push_when(
        &mut out,
        (k.up || k.down) && !k.ctrl,
        KeyAction::Step { up: k.up, extend: k.shift },
    );
    out
}

/// What "Set target class" picks for: only pointers and embedded classes have
/// one.
pub fn target_purpose(tag: &str, owner: u128, path: Vec<usize>) -> (p: Option<PickerPurpose>)
    ensures
        p == if tag@ == "Pointer"@ {
            Some(PickerPurpose::SetPtrTarget { owner, path })
        } else if tag@ == "ClassInstance"@ {
            Some(PickerPurpose::SetInstance { owner, path })
        } else {
            None
        },
{
    if same_str(tag, "Pointer") {
        Some(PickerPurpose::SetPtrTarget { owner, path })
    } else if same_str(tag, "ClassInstance") {
        Some(PickerPurpose::SetInstance { owner, path })
    } else {
        None
    }
}

/// What the class view says above the rows: that they are no data.
pub open spec fn banner_text(attached: bool, based: bool) -> Option<Seq<char>> {
    if !attached {
        Some("Not attached — showing demo layout (zeroed buffer)."@)
    } else if !based {
        Some(
            "No base address — set an address formula above, or resolve one via a script/pointer scan."@,
        )
    } else {
        None
    }
}

pub fn class_banner(attached: bool, based: bool) -> (s: Option<&'static str>)
    ensures
        match s {
            Some(t) => banner_text(attached, based) == Some(t@),
            None => banner_text(attached, based) is None,
        },
{
    if !attached {
        Some("Not attached — showing demo layout (zeroed buffer).")
    } else if !based {
        Some(
            "No base address — set an address formula above, or resolve one via a script/pointer scan.",
        )
    } else {
        None
    }
}

/// Typing never reaches the class: with a text box in focus no key does anything.
pub proof fn typing_changes_no_class(k: ClassKeys, has_class: bool)
    ensures
        key_actions(k, true, has_class) == Seq::<KeyAction>::empty(),
{
}

proof fn lemma_searched(
    rows: Seq<NodeSnapshot>,
    values: Seq<String>,
    search: Seq<char>,
    view: Seq<ViewRow>,
    v: ViewRow,
)
    requires
        trim(search).len() > 0,
    ensures
        searched(rows, values, search, view).contains(v) <==> view.contains(v) && found(
            rows,
            values,
            lowercase_of(trim(search)),
            v,
        ),
    decreases view.len(),
{
    let out = searched(rows, values, search, view);
    if view.len() > 0 {
        let rest = view.drop_last();
        let before = searched(rows, values, search, rest);
        lemma_searched(rows, values, search, rest, v);
        if out.contains(v) {
            let k = out.index_of(v);
            if k < before.len() {
                assert(before[k] == v);
                assert(before.contains(v));
                let q = rest.index_of(v);
                assert(view[q] == v);
            } else {
                assert(view[view.len() - 1] == v);
            }
        }
        if view.contains(v) && found(rows, values, lowercase_of(trim(search)), v) {
            let q = view.index_of(v);
            if q < rest.len() {
                assert(rest[q] == v);
                assert(before.contains(v));
                let k = before.index_of(v);
                assert(out[k] == v);
            } else {
                assert(out[before.len() as int] == v);
            }
        }
    } else {
        assert(!out.contains(v));
    }
}

/// A search keeps the rows of the tree in whose name, type, comment, value or offset
/// the searched text occurs, without regard to case, and no other row. An empty search
/// keeps every row.
pub proof fn search_keeps_the_hits(
    rows: Seq<NodeSnapshot>,
    values: Seq<String>,
    search: Seq<char>,
    view: Seq<ViewRow>,
    i: usize,
)
    requires
        i < rows.len(),
        i < values.len(),
        view.contains(ViewRow::Snap(i)),
    ensures
        trim(search).len() == 0 ==> searched(rows, values, search, view) == view,
        trim(search).len() > 0 ==> {
            let needle = lowercase_of(trim(search));
            let row = rows[i as int];
            searched(rows, values, search, view).contains(ViewRow::Snap(i)) <==> (contains_text(
                lowercase_of(row.name@),
                needle,
            ) || contains_text(lowercase_of(row.type_tag@), needle) || contains_text(
                lowercase_of(row.comment@),
                needle,
            ) || contains_text(lowercase_of(values[i as int]@), needle) || contains_text(
                hex_lower(row.offset as nat),
                needle,
            ))
        },
        trim(search).len() > 0 ==> forall|v: ViewRow| #[trigger]
            searched(rows, values, search, view).contains(v) ==> view.contains(v) && v is Snap,
{
    if trim(search).len() > 0 {
        lemma_searched(rows, values, search, view, ViewRow::Snap(i));
        assert forall|v: ViewRow| #[trigger]
            searched(rows, values, search, view).contains(v) implies view.contains(v) && v is Snap by {
            lemma_searched(rows, values, search, view, v);
        }
    }
}

/// A pointer that is shown leads to the address that it shows.
pub proof fn shown_pointer_leads_there(addr: usize, upper: bool, width: nat)
    ensures
        shown_pointer(
            seq!['0', 'x'] + crate::text::zero_padded(
                crate::text::digits_of(addr as nat, 16, upper),
                width,
            ),
        ) == Some(addr as int),
{
    let body = crate::text::zero_padded(crate::text::digits_of(addr as nat, 16, upper), width);
    let s = seq!['0', 'x'] + body;
    assert(crate::text::skip(s, 2) =~= body);
    crate::text::lemma_padded_round_trip(addr as nat, width, 16, upper, usize::MAX as int);
}

proof fn lemma_when(front: Seq<KeyAction>, pressed: bool, a: KeyAction, x: KeyAction)
    ensures
        (front + when(pressed, a)).contains(x) <==> front.contains(x) || (pressed && a == x),
{
    let all = front + when(pressed, a);
    if front.contains(x) {
        let i = front.index_of(x);
        assert(all[i] == x);
    }
    if pressed && a == x {
        assert(all[front.len() as int] == x);
    }
    if all.contains(x) {
        let i = all.index_of(x);
        if i < front.len() {
            assert(front[i] == x);
        }
    }
}

/// Each key does what it stands for, and nothing is done without its key.
pub proof fn keys_do_what_they_stand_for(k: ClassKeys, x: KeyAction)
    ensures
        key_actions(k, false, true).contains(x) <==> match x {
            KeyAction::Toolbar(ToolbarAction::Undo) => k.undo,
            KeyAction::Toolbar(ToolbarAction::Redo) => k.redo,
            KeyAction::Toolbar(ToolbarAction::Copy) => k.copy,
            KeyAction::Toolbar(ToolbarAction::Cut) => k.cut,
            KeyAction::Toolbar(ToolbarAction::Paste) => k.paste,
            KeyAction::Toolbar(ToolbarAction::SelectAll) => k.select_all,
            KeyAction::Toolbar(ToolbarAction::DeleteSelection) => k.delete,
            KeyAction::Toolbar(_) => false,
            KeyAction::ClearSelection => k.escape,
            KeyAction::Step { up, extend } => (k.up || k.down) && !k.ctrl && up == k.up && extend
                == k.shift,
        },
{
    let a0 = Seq::<KeyAction>::empty();
    let a1 = when(k.undo, KeyAction::Toolbar(ToolbarAction::Undo));
    let a2 = a1 + when(k.redo, KeyAction::Toolbar(ToolbarAction::Redo));
    let a3 = a2 + when(k.copy, KeyAction::Toolbar(ToolbarAction::Copy));
    let a4 = a3 + when(k.cut, KeyAction::Toolbar(ToolbarAction::Cut));
    let a5 = a4 + when(k.paste, KeyAction::Toolbar(ToolbarAction::Paste));
    let a6 = a5 + when(k.select_all, KeyAction::Toolbar(ToolbarAction::SelectAll));
    let a7 = a6 + when(k.delete, KeyAction::Toolbar(ToolbarAction::DeleteSelection));
    let a8 = a7 + when(k.escape, KeyAction::ClearSelection);
    let step = KeyAction::Step { up: k.up, extend: k.shift };
    assert(a0 + a1 =~= a1);
    lemma_when(a0, k.undo, KeyAction::Toolbar(ToolbarAction::Undo), x);
    lemma_when(a1, k.redo, KeyAction::Toolbar(ToolbarAction::Redo), x);
    lemma_when(a2, k.copy, KeyAction::Toolbar(ToolbarAction::Copy), x);
    lemma_when(a3, k.cut, KeyAction::Toolbar(ToolbarAction::Cut), x);
    lemma_when(a4, k.paste, KeyAction::Toolbar(ToolbarAction::Paste), x);
    lemma_when(a5, k.select_all, KeyAction::Toolbar(ToolbarAction::SelectAll), x);
    lemma_when(a6, k.delete, KeyAction::Toolbar(ToolbarAction::DeleteSelection), x);
    lemma_when(a7, k.escape, KeyAction::ClearSelection, x);
    lemma_when(a8, (k.up || k.down) && !k.ctrl, step, x);
}

/// The class that is picked for a field becomes what was asked: the target of the
/// pointer, or the class that the field embeds, at the field that asked.
pub proof fn picked_class_goes_to_its_field(op: NodeEditOp, purpose: PickerPurpose, picked: u128)
    requires
        picks(op, purpose, picked),
    ensures
        match op {
            NodeEditOp::SetPtrTarget { owner, path, target } => {
                &&& target == Some(picked)
                &&& owner == purpose.owner()
                &&& purpose matches PickerPurpose::SetPtrTarget { path: p, .. } && path@ == p@
            },
            NodeEditOp::SetInstance { owner, path, target } => {
                &&& target == picked
                &&& owner == purpose.owner()
                &&& match purpose {
                    PickerPurpose::SetPtrTarget { .. } => false,
                    PickerPurpose::SetInstance { path: p, .. } => path@ == p@,
                    PickerPurpose::ChangeToInstance { path: p, .. } => path@ == p@,
                }
            },
            _ => false,
        },
{
}

/// The rows of the tree are those of the view that are no rows of a matrix and no live
/// rows, in their order.
pub proof fn tree_rows_come_from_the_view(view: Seq<ViewRow>, x: usize)
    ensures
        tree_rows(view).contains(x) <==> view.contains(ViewRow::Snap(x)),
        tree_rows(view).len() <= view.len(),
    decreases view.len(),
{
    if view.len() > 0 {
        let rest = view.drop_last();
        let before = tree_rows(rest);
        let all = tree_rows(view);
        tree_rows_come_from_the_view(rest, x);
        if all.contains(x) {
            let k = all.index_of(x);
            if k < before.len() {
                assert(before[k] == x);
                let i = rest.index_of(ViewRow::Snap(x));
                assert(view[i] == ViewRow::Snap(x));
            } else {
                assert(view[view.len() - 1] == ViewRow::Snap(x));
            }
        }
        if view.contains(ViewRow::Snap(x)) {
            let i = view.index_of(ViewRow::Snap(x));
            if i < rest.len() {
                assert(rest[i] == ViewRow::Snap(x));
                let k = before.index_of(x);
                assert(all[k] == x);
            } else {
                assert(all[before.len() as int] == x);
            }
        }
    }
}

/// The number of bytes that is typed is the number that is taken.
pub proof fn typed_count_is_taken(n: usize)
    ensures
        typed_count(decimal(n as nat)) == n,
{
    crate::typed_values::printed_number_parses_back(n as int, 0, usize::MAX as int);
    crate::text::lemma_printed_is_trimmed(n as int);
}

/// Closing a row and opening it again leaves all rows as they were.
pub proof fn second_toggle_undoes_the_first(
    was: Seq<String>,
    mid: Seq<String>,
    now: Seq<String>,
    name: Seq<char>,
    other: Seq<char>,
)
    requires
        toggled(was, mid, name),
        toggled(mid, now, name),
    ensures
        has_name(now, other) <==> has_name(was, other),
        has_name(mid, name) != has_name(was, name),
{
    if other != name {
        assert(has_name(mid, other) <==> has_name(was, other));
        assert(has_name(now, other) <==> has_name(mid, other));
    }
}

/// A value can be edited in place only where a process is attached and the type of the
/// field can be written.
pub proof fn only_writable_values_are_edited(row: RowView, attached: bool, editing: bool)
    ensures
        value_cell_of(row, attached, editing) == ValueCell::Editing || value_cell_of(
            row,
            attached,
            editing,
        ) == ValueCell::Editable ==> attached && scalar_kind(row.type_tag) is Some && row.shape
            == Shape::Scalar && (value_cell_of(row, attached, editing) == ValueCell::Editing
            <==> editing),
        attached && scalar_kind(row.type_tag) is Some && row.shape == Shape::Scalar
            ==> value_cell_of(row, attached, editing) == ValueCell::Editing || value_cell_of(
            row,
            attached,
            editing,
        ) == ValueCell::Editable,
{
}

/// A row is found by its name, its type, its comment, its value and its offset.
pub proof fn row_is_found_by_each_of_its_columns(
    needle: Seq<char>,
    name: Seq<char>,
    tag: Seq<char>,
    comment: Seq<char>,
    value: Seq<char>,
    offset: usize,
)
    requires
        needle == name || needle == tag || needle == comment || needle == value || needle
            == hex_lower(offset as nat),
    ensures
        row_hit(needle, name, tag, comment, value, offset),
{
    assert(needle.subrange(0, needle.len() as int) =~= needle);
    assert(needle.subrange(0, 0int + needle.len()) == needle);
}

} // verus!
