//! Editing the enums of a project.
use vstd::prelude::*;
use vstd::string::StringExecFns;

use crate::model::EnumDescription;
use crate::text::{
    chars_of, decimal, decimal_exec, parse_int_spec, parse_signed, string_of, trim, trim_exec,
};

verus! {

/// The widths that an enum can have, in bytes.
pub open spec fn is_enum_width(n: u8) -> bool {
    n == 1 || n == 2 || n == 4 || n == 8
}

/// A change in the enum editor. Enums and values are given by their places.
#[derive(Debug)]
pub enum EnumEdit {
    Rename { at: usize, name: String },
    Width { at: usize, size: u8 },
    Flags { at: usize, on: bool },
    RenameValue { at: usize, value: usize, name: String },
    /// The text that was typed for a value.
    SetValue { at: usize, value: usize, text: String },
    AddValue { at: usize },
    RemoveValue { at: usize, value: usize },
    Remove { at: usize },
    Add,
}

/// What came of a change.
#[derive(Clone, Copy, Debug, PartialEq, Eq, Structural)]
pub struct EnumOutcome {
    /// Whether anything changed, so that nodes of the enum are to be drawn anew.
    pub changed: bool,
    /// Whether the change can be undone on its own.
    pub undoable: bool,
}

/// The number that a value text writes.
pub open spec fn value_typed(text: Seq<char>) -> Option<int> {
    match parse_int_spec(trim(text), 10, i64::MIN as int, i64::MAX as int) {
        Ok(v) => Some(v),
        Err(_) => None,
    }
}

/// The values of one enum were replaced; all else stays.
pub open spec fn revalued(
    was: Seq<EnumDescription>,
    now: Seq<EnumDescription>,
    at: int,
    values: Seq<(String, i64)>,
) -> bool {
    &&& 0 <= at < was.len()
    &&& now == was.update(at, EnumDescription { values: now[at].values, ..was[at] })
    &&& now[at].values@ == values
}

/// A value that was added: it is named and numbered by its place.
pub open spec fn value_added(
    was: Seq<EnumDescription>,
    now: Seq<EnumDescription>,
    at: int,
) -> bool {
    let n = was[at].values@.len();
    &&& now.len() == was.len()
    &&& now == was.update(at, EnumDescription { values: now[at].values, ..was[at] })
    &&& now[at].values@.len() == n + 1
    &&& now[at].values@.drop_last() == was[at].values@
    &&& now[at].values@.last().0@ == "Value"@ + decimal(n)
    &&& now[at].values@.last().1 == n
}

/// An enum that was added: it is named by its place.
pub open spec fn enum_added(was: Seq<EnumDescription>, now: Seq<EnumDescription>) -> bool {
    &&& now.len() == was.len() + 1
    &&& now.drop_last() == was
    &&& now.last().name@ == "Enum"@ + decimal(was.len())
    &&& now.last().size == 4
    &&& !now.last().use_flags
    &&& now.last().values@.len() == 0
}

/// What a change does. A place that does not exist, and a number that cannot be
/// read, change nothing.
pub open spec fn edited(
    was: Seq<EnumDescription>,
    now: Seq<EnumDescription>,
    edit: EnumEdit,
    out: EnumOutcome,
) -> bool {
    let nothing = now == was && !out.changed && !out.undoable;
    let plain = out.changed && !out.undoable;
    match edit {
        EnumEdit::Rename { at, name } => if at < was.len() {
            plain && now == was.update(at as int, EnumDescription { name, ..was[at as int] })
        } else {
            nothing
        },
        EnumEdit::Width { at, size } => if at < was.len() && is_enum_width(size) {
            plain && now == was.update(at as int, EnumDescription { size, ..was[at as int] })
        } else {
            nothing
        },
        EnumEdit::Flags { at, on } => if at < was.len() {
            plain && now == was.update(
                at as int,
                EnumDescription { use_flags: on, ..was[at as int] },
            )
        } else {
            nothing
        },
        EnumEdit::RenameValue { at, value, name } => if at < was.len() && value
            < was[at as int].values@.len() {
            plain && revalued(
                was,
                now,
                at as int,
                was[at as int].values@.update(
                    value as int,
                    (name, was[at as int].values@[value as int].1),
                ),
            )
        } else {
            nothing
        },
        EnumEdit::SetValue { at, value, text } => if at < was.len() && value
            < was[at as int].values@.len() && value_typed(text@) is Some {
            plain && revalued(
                was,
                now,
                at as int,
                was[at as int].values@.update(
                    value as int,
                    (was[at as int].values@[value as int].0, value_typed(text@)->0 as i64),
                ),
            )
        } else {
            nothing
        },
        EnumEdit::AddValue { at } => if at < was.len() && was[at as int].values@.len()
            < i64::MAX {
            plain && value_added(was, now, at as int)
        } else {
            nothing
        },
        EnumEdit::RemoveValue { at, value } => if at < was.len() && value
            < was[at as int].values@.len() {
            plain && revalued(was, now, at as int, was[at as int].values@.remove(value as int))
        } else {
            nothing
        },
        EnumEdit::Remove { at } => if at < was.len() {
            out.changed && out.undoable && now == was.remove(at as int)
        } else {
            nothing
        },
        EnumEdit::Add => out.changed && out.undoable && enum_added(was, now),
    }
}

/// Makes a change in the enum editor.
pub fn edit_enums(enums: &mut Vec<EnumDescription>, edit: EnumEdit) -> (out: EnumOutcome)
    ensures
        edited(old(enums)@, final(enums)@, edit, out),
{
    let none = EnumOutcome { changed: false, undoable: false };
    let plain = EnumOutcome { changed: true, undoable: false };
    let count: usize = enums.len();
    let ghost was = enums@;
    match edit {
        EnumEdit::Rename { at, name } => {
            if at >= count {
                return none;
            }
            let e = &mut enums[at];
            e.name = name;
            plain
        },
        EnumEdit::Width { at, size } => {
            if at >= count || !(size == 1 || size == 2 || size == 4 || size == 8) {
                return none;
            }
            let e = &mut enums[at];
            e.size = size;
            plain
        },
        EnumEdit::Flags { at, on } => {
            if at >= count {
                return none;
            }
            let e = &mut enums[at];
            e.use_flags = on;
            plain
        },
        EnumEdit::RenameValue { at, value, name } => {
            if at >= count || value >= enums[at].values.len() {
                return none;
            }
            let number: i64 = enums[at].values[value].1;
            let e = &mut enums[at];
            e.values.set(value, (name, number));
            assert(revalued(
                was,
                enums@,
                at as int,
                was[at as int].values@.update(value as int, (name, number)),
            ));
            plain
        },
        EnumEdit::SetValue { at, value, text } => {
            if at >= count || value >= enums[at].values.len() {
                return none;
            }
            let c = chars_of(text.as_str());
            let t = trim_exec(c.as_slice());
            match parse_signed(t, 10, i64::MAX) {
                Err(_) => none,
                Ok(v) => {
                    let name = enums[at].values[value].0.clone();
                    let e = &mut enums[at];
                    e.values.set(value, (name, v));
                    assert(revalued(
                        was,
                        enums@,
                        at as int,
                        was[at as int].values@.update(value as int, (name, v)),
                    ));
                    plain
                },
            }
        },
        EnumEdit::AddValue { at } => {
            if at >= count {
                return none;
            }
            let n: usize = enums[at].values.len();
            if n as u64 >= i64::MAX as u64 {
                return none;
            }
            let mut name = "Value".to_string();
            let d = string_of(decimal_exec(n as u64).as_slice());
            name.append(d.as_str());
            let e = &mut enums[at];
            e.values.push((name, n as i64));
            assert(enums@[at as int].values@.drop_last() =~= was[at as int].values@);
            plain
        },
        EnumEdit::RemoveValue { at, value } => {
            if at >= count || value >= enums[at].values.len() {
                return none;
            }
            let e = &mut enums[at];
            e.values.remove(value);
            assert(revalued(was, enums@, at as int, was[at as int].values@.remove(value as int)));
            plain
        },
        EnumEdit::Remove { at } => {
            if at >= count {
                return none;
            }
            enums.remove(at);
            EnumOutcome { changed: true, undoable: true }
        },
        EnumEdit::Add => {
            let mut name = "Enum".to_string();
            let d = string_of(decimal_exec(count as u64).as_slice());
            name.append(d.as_str());
            enums.push(EnumDescription::new(name));
            assert(enums@.drop_last() =~= was);
            EnumOutcome { changed: true, undoable: true }
        },
    }
}

/// A number that cannot be read leaves the value that was there.
pub proof fn typo_changes_nothing(
    was: Seq<EnumDescription>,
    now: Seq<EnumDescription>,
    at: usize,
    value: usize,
    text: String,
    out: EnumOutcome,
)
    requires
        value_typed(text@) is None,
        edited(was, now, (EnumEdit::SetValue { at, value, text }), out),
    ensures
        now == was,
        !out.changed,
{
}

/// An edit of one value changes that value alone: its number or its name, as typed. The
/// other values, the other enums and the enum itself stay as they were.
pub proof fn edit_changes_one_value(
    was: Seq<EnumDescription>,
    now: Seq<EnumDescription>,
    edit: EnumEdit,
    out: EnumOutcome,
    e: usize,
    v: usize,
    number: i64,
)
    requires
        edited(was, now, edit, out),
        e < was.len(),
        v < was[e as int].values@.len(),
        match edit {
            EnumEdit::SetValue { at, value, text } => at == e && value == v && text@
                == crate::text::signed_decimal(number as int),
            EnumEdit::RenameValue { at, value, .. } => at == e && value == v,
            _ => false,
        },
    ensures
        now.len() == was.len(),
        forall|i: int| 0 <= i < was.len() && i != e ==> #[trigger] now[i] == was[i],
        now[e as int].name == was[e as int].name,
        now[e as int].size == was[e as int].size,
        now[e as int].use_flags == was[e as int].use_flags,
        now[e as int].values@.len() == was[e as int].values@.len(),
        forall|i: int|
            0 <= i < was[e as int].values@.len() && i != v ==> #[trigger] now[e as int].values@[i]
                == was[e as int].values@[i],
        edit matches EnumEdit::SetValue { .. } ==> now[e as int].values@[v as int].1 == number
            && now[e as int].values@[v as int].0 == was[e as int].values@[v as int].0,
        edit matches EnumEdit::RenameValue { name, .. } ==> now[e as int].values@[v as int].0 == name
            && now[e as int].values@[v as int].1 == was[e as int].values@[v as int].1,
        out.changed,
{
    crate::typed_values::printed_number_parses_back(number as int, i64::MIN as int, i64::MAX as int);
    crate::text::lemma_printed_is_trimmed(number as int);
}

/// Removing an enum takes it and no other away.
pub proof fn removed_enum_is_gone(
    was: Seq<EnumDescription>,
    now: Seq<EnumDescription>,
    out: EnumOutcome,
    e: usize,
)
    requires
        edited(was, now, EnumEdit::Remove { at: e }, out),
        e < was.len(),
    ensures
        now.len() == was.len() - 1,
        forall|i: int| 0 <= i < e ==> #[trigger] now[i] == was[i],
        forall|i: int| e <= i < now.len() ==> #[trigger] now[i] == was[i + 1],
        out.undoable,
{
}

} // verus!
