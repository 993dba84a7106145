//! The menu of a row of the class view: what it offers, and what its entries do.
use vstd::prelude::*;
use vstd::string::StringExecFns;

use crate::class_actions::{
    menu_plural, pointer_from_value, shown_pointer, target_purpose, AddBytesState, PickerPurpose,
    ToolbarAction,
};
use crate::text::{decimal, same_str};

verus! {

/// An entry of the menu.
#[derive(Clone, Copy, Debug, PartialEq, Eq, Structural)]
pub enum MenuEntry {
    /// Opens the list of types.
    ChangeType,
    ChangeToInstance,
    SetTarget,
    AddBytes,
    InsertBytes,
    Copy,
    Cut,
    Paste,
    Hide,
    Unhide,
    ExtractClass,
    Delete,
    Follow,
    PointerScan,
    Spider,
}

/// The entries for a row of type `tag`, in their order: only pointers and
/// embedded classes have a target, and only pointers can be followed.
pub open spec fn menu_entries(tag: Seq<char>) -> Seq<MenuEntry> {
    seq![MenuEntry::ChangeType, MenuEntry::ChangeToInstance] + (if tag == "Pointer"@ || tag
        == "ClassInstance"@ {
        seq![MenuEntry::SetTarget]
    } else {
        Seq::empty()
    }) + seq![
        MenuEntry::AddBytes,
        MenuEntry::InsertBytes,
        MenuEntry::Copy,
        MenuEntry::Cut,
        MenuEntry::Paste,
        MenuEntry::Hide,
        MenuEntry::Unhide,
        MenuEntry::ExtractClass,
        MenuEntry::Delete,
    ] + (if tag == "Pointer"@ {
        seq![MenuEntry::Follow, MenuEntry::PointerScan, MenuEntry::Spider]
    } else {
        Seq::empty()
    })
}

/// Whether an entry can be chosen: pasting takes something to paste, and a
/// pointer is followed unless it is null.
pub open spec fn menu_enabled(entry: MenuEntry, value: Seq<char>, can_paste: bool) -> bool {
    match entry {
        MenuEntry::Paste => can_paste,
        MenuEntry::Follow | MenuEntry::PointerScan | MenuEntry::Spider => match shown_pointer(
            value,
        ) {
            Some(addr) => addr != 0,
            None => false,
        },
        _ => true,
    }
}

/// The text of an entry: its head, whether the number of selected rows follows,
/// and its tail.
pub open spec fn menu_text(entry: MenuEntry) -> (Seq<char>, bool, Seq<char>) {
    match entry {
        MenuEntry::ChangeType => ("Change type"@, true, " ▸"@),
        MenuEntry::ChangeToInstance => ("Class Instance…"@, false, ""@),
        MenuEntry::SetTarget => ("Set target class…"@, false, ""@),
        MenuEntry::AddBytes => ("Add bytes…"@, false, ""@),
        MenuEntry::InsertBytes => ("Insert bytes…"@, false, ""@),
        MenuEntry::Copy => ("Copy"@, true, "\tCtrl+C"@),
        MenuEntry::Cut => ("Cut"@, true, "\tCtrl+X"@),
        MenuEntry::Paste => ("Paste"@, false, "\tCtrl+V"@),
        MenuEntry::Hide => ("Hide"@, true, ""@),
        MenuEntry::Unhide => ("Unhide"@, true, ""@),
        MenuEntry::ExtractClass => ("Make class from selection"@, true, "…"@),
        MenuEntry::Delete => ("Delete"@, true, "\tDel"@),
        MenuEntry::Follow => ("Follow pointer → open target"@, false, ""@),
        MenuEntry::PointerScan => ("Pointer-scan this address"@, false, ""@),
        MenuEntry::Spider => ("Spider from this address"@, false, ""@),
    }
}

/// The label of an entry where so many rows are selected.
pub open spec fn menu_label(entry: MenuEntry, selected: usize) -> Seq<char> {
    let (head, counted, tail) = menu_text(entry);
    head + (if counted && selected > 1 {
        " ("@ + decimal(selected as nat) + ")"@
    } else {
        ""@
    }) + tail
}

fn menu_text_exec(entry: MenuEntry) -> (t: (&'static str, bool, &'static str))
    ensures
        (t.0@, t.1, t.2@) == menu_text(entry),
{
    match entry {
        MenuEntry::ChangeType => ("Change type", true, " ▸"),
        MenuEntry::ChangeToInstance => ("Class Instance…", false, ""),
        MenuEntry::SetTarget => ("Set target class…", false, ""),
        MenuEntry::AddBytes => ("Add bytes…", false, ""),
        MenuEntry::InsertBytes => ("Insert bytes…", false, ""),
        MenuEntry::Copy => ("Copy", true, "\tCtrl+C"),
        MenuEntry::Cut => ("Cut", true, "\tCtrl+X"),
        MenuEntry::Paste => ("Paste", false, "\tCtrl+V"),
        MenuEntry::Hide => ("Hide", true, ""),
        MenuEntry::Unhide => ("Unhide", true, ""),
        MenuEntry::ExtractClass => ("Make class from selection", true, "…"),
        MenuEntry::Delete => ("Delete", true, "\tDel"),
        MenuEntry::Follow => ("Follow pointer → open target", false, ""),
        MenuEntry::PointerScan => ("Pointer-scan this address", false, ""),
        MenuEntry::Spider => ("Spider from this address", false, ""),
    }
}

/// An entry as the menu shows it.
#[derive(Debug)]
pub struct MenuItem {
    pub entry: MenuEntry,
    pub label: String,
    pub enabled: bool,
}

/// `item` shows `entry`.
pub open spec fn shows_entry(
    item: MenuItem,
    entry: MenuEntry,
    value: Seq<char>,
    selected: usize,
    can_paste: bool,
) -> bool {
    &&& item.entry == entry
    &&& item.label@ == menu_label(entry, selected)
    &&& item.enabled == menu_enabled(entry, value, can_paste)
}

fn menu_item(entry: MenuEntry, value: &str, selected: usize, can_paste: bool) -> (item: MenuItem)
    ensures
        shows_entry(item, entry, value@, selected, can_paste),
{
    let (head, counted, tail) = menu_text_exec(entry);
    let mut label = head.to_string();
    if counted {
        let plural = menu_plural(selected);
        label.append(plural.as_str());
    } else {
        label.append("");
    }
    label.append(tail);
    let enabled = match entry {
        MenuEntry::Paste => can_paste,
        MenuEntry::Follow | MenuEntry::PointerScan | MenuEntry::Spider => match pointer_from_value(
            value,
        ) {
            Some(addr) => addr != 0,
            None => false,
        },
        _ => true,
    };
    MenuItem { entry, label, enabled }
}

fn entries_for(tag: &str) -> (entries: Vec<MenuEntry>)
    ensures
        entries@ == menu_entries(tag@),
{
    let mut out: Vec<MenuEntry> = vec![MenuEntry::ChangeType, MenuEntry::ChangeToInstance];
    let pointer = same_str(tag, "Pointer");
    if pointer || same_str(tag, "ClassInstance") {
        out.push(MenuEntry::SetTarget);
    }
    out.push(MenuEntry::AddBytes);
    out.push(MenuEntry::InsertBytes);
    out.push(MenuEntry::Copy);
    out.push(MenuEntry::Cut);
    out.push(MenuEntry::Paste);
    out.push(MenuEntry::Hide);
    out.push(MenuEntry::Unhide);
    out.push(MenuEntry::ExtractClass);
    out.push(MenuEntry::Delete);
    if pointer {
        out.push(MenuEntry::Follow);
        out.push(MenuEntry::PointerScan);
        out.push(MenuEntry::Spider);
    }
    assert(out@ =~= menu_entries(tag@));
    out
}

/// The menu of a row of type `tag` that shows `value`, where so many rows are
/// selected and there is or is not something to paste.
pub fn node_menu(tag: &str, value: &str, selected: usize, can_paste: bool) -> (items: Vec<MenuItem>)
    ensures
        items@.len() == menu_entries(tag@).len(),
        forall|i: int|
            0 <= i < items@.len() ==> shows_entry(
                #[trigger] items@[i],
                menu_entries(tag@)[i],
                value@,
                selected,
                can_paste,
            ),
{
    let entries = entries_for(tag);
    let mut items: Vec<MenuItem> = Vec::new();
    for i in 0..entries.len()
        invariant
            entries@ == menu_entries(tag@),
            items@.len() == i,
            forall|k: int|
                0 <= k < i ==> shows_entry(
                    #[trigger] items@[k],
                    menu_entries(tag@)[k],
                    value@,
                    selected,
                    can_paste,
                ),
    {
        items.push(menu_item(entries[i], value, selected, can_paste));
    }
    items
}

/// What choosing an entry leads to.
#[derive(Debug)]
pub enum MenuEffect {
    Nothing,
    /// The list of types is shown.
    Types,
    /// A class is picked.
    Pick(PickerPurpose),
    /// The dialog asks how many bytes.
    Bytes(AddBytesState),
    Toolbar(ToolbarAction),
    Follow(usize),
    PointerScan(usize),
    Spider(usize),
}

/// The command of the toolbar that an entry stands for.
pub open spec fn menu_command(entry: MenuEntry) -> Option<ToolbarAction> {
    match entry {
        MenuEntry::Copy => Some(ToolbarAction::Copy),
        MenuEntry::Cut => Some(ToolbarAction::Cut),
        MenuEntry::Paste => Some(ToolbarAction::Paste),
        MenuEntry::Hide => Some(ToolbarAction::Hide),
        MenuEntry::Unhide => Some(ToolbarAction::Unhide),
        MenuEntry::ExtractClass => Some(ToolbarAction::ExtractClass),
        MenuEntry::Delete => Some(ToolbarAction::DeleteSelection),
        _ => None,
    }
}

/// `effect` is what choosing `entry` leads to on the row at `path` of the class
/// `owner`, which is of type `tag` and shows `value`. The dialog for bytes starts
/// with eight.
pub open spec fn menu_leads_to(
    entry: MenuEntry,
    tag: Seq<char>,
    value: Seq<char>,
    owner: u128,
    path: Vec<usize>,
    effect: MenuEffect,
) -> bool {
    match entry {
        MenuEntry::ChangeType => effect == MenuEffect::Types,
        MenuEntry::ChangeToInstance => effect == MenuEffect::Pick(
            PickerPurpose::ChangeToInstance { owner, path },
        ),
        MenuEntry::SetTarget => effect == if tag == "Pointer"@ {
            MenuEffect::Pick(PickerPurpose::SetPtrTarget { owner, path })
        } else if tag == "ClassInstance"@ {
            MenuEffect::Pick(PickerPurpose::SetInstance { owner, path })
        } else {
            MenuEffect::Nothing
        },
        MenuEntry::AddBytes | MenuEntry::InsertBytes => match effect {
            MenuEffect::Bytes(b) => b.owner == owner && b.path == path && b.count_text@ == "8"@
                && b.insert == (entry == MenuEntry::InsertBytes),
            _ => false,
        },
        MenuEntry::Follow | MenuEntry::PointerScan | MenuEntry::Spider => match shown_pointer(
            value,
        ) {
            Some(addr) => effect == if addr == 0 {
                MenuEffect::Nothing
            } else if entry == MenuEntry::Follow {
                MenuEffect::Follow(addr as usize)
            } else if entry == MenuEntry::PointerScan {
                MenuEffect::PointerScan(addr as usize)
            } else {
                MenuEffect::Spider(addr as usize)
            },
            None => effect == MenuEffect::Nothing,
        },
        _ => effect == match menu_command(entry) {
            Some(command) => MenuEffect::Toolbar(command),
            None => MenuEffect::Nothing,
        },
    }
}

/// What choosing an entry leads to.
pub fn menu_chosen(
    entry: MenuEntry,
    tag: &str,
    value: &str,
    owner: u128,
    path: Vec<usize>,
) -> (effect: MenuEffect)
    ensures
        menu_leads_to(entry, tag@, value@, owner, path, effect),
{
    match entry {
        MenuEntry::ChangeType => MenuEffect::Types,
        MenuEntry::ChangeToInstance => MenuEffect::Pick(
            PickerPurpose::ChangeToInstance { owner, path },
        ),
        MenuEntry::SetTarget => match target_purpose(tag, owner, path) {
            Some(purpose) => MenuEffect::Pick(purpose),
            None => MenuEffect::Nothing,
        },
        MenuEntry::AddBytes => MenuEffect::Bytes(
            AddBytesState { owner, path, count_text: "8".to_string(), insert: false },
        ),
        MenuEntry::InsertBytes => MenuEffect::Bytes(
            AddBytesState { owner, path, count_text: "8".to_string(), insert: true },
        ),
        MenuEntry::Copy => MenuEffect::Toolbar(ToolbarAction::Copy),
        MenuEntry::Cut => MenuEffect::Toolbar(ToolbarAction::Cut),
        MenuEntry::Paste => MenuEffect::Toolbar(ToolbarAction::Paste),
        MenuEntry::Hide => MenuEffect::Toolbar(ToolbarAction::Hide),
        MenuEntry::Unhide => MenuEffect::Toolbar(ToolbarAction::Unhide),
        MenuEntry::ExtractClass => MenuEffect::Toolbar(ToolbarAction::ExtractClass),
        MenuEntry::Delete => MenuEffect::Toolbar(ToolbarAction::DeleteSelection),
        MenuEntry::Follow => match pointer_from_value(value) {
            Some(addr) => if addr == 0 {
                MenuEffect::Nothing
            } else {
                MenuEffect::Follow(addr)
            },
            None => MenuEffect::Nothing,
        },
        MenuEntry::PointerScan => match pointer_from_value(value) {
            Some(addr) => if addr == 0 {
                MenuEffect::Nothing
            } else {
                MenuEffect::PointerScan(addr)
            },
            None => MenuEffect::Nothing,
        },
        MenuEntry::Spider => match pointer_from_value(value) {
            Some(addr) => if addr == 0 {
                MenuEffect::Nothing
            } else {
                MenuEffect::Spider(addr)
            },
            None => MenuEffect::Nothing,
        },
    }
}

/// An entry that can be chosen does something: none that the menu enables leads
/// nowhere.
pub proof fn enabled_entries_lead_somewhere(
    tag: Seq<char>,
    value: Seq<char>,
    can_paste: bool,
    owner: u128,
    path: Vec<usize>,
    i: int,
    effect: MenuEffect,
)
    requires
        0 <= i < menu_entries(tag).len(),
        menu_enabled(menu_entries(tag)[i], value, can_paste),
        menu_leads_to(menu_entries(tag)[i], tag, value, owner, path, effect),
    ensures
        effect !is Nothing,
{
    let entry = menu_entries(tag)[i];
    if entry == MenuEntry::SetTarget {
        assert(tag == "Pointer"@ || tag == "ClassInstance"@);
    }
}

/// The entries of a pointer lead to the address that its row shows, and a null pointer
/// leads nowhere.
pub proof fn pointer_entries_lead_to_the_shown_address(
    entry: MenuEntry,
    tag: Seq<char>,
    owner: u128,
    path: Vec<usize>,
    addr: usize,
    effect: MenuEffect,
)
    requires
        entry == MenuEntry::Follow || entry == MenuEntry::PointerScan || entry == MenuEntry::Spider,
        menu_leads_to(entry, tag, crate::text::prefixed_hex(addr as nat), owner, path, effect),
    ensures
        addr == 0 ==> effect == MenuEffect::Nothing,
        addr != 0 ==> match effect {
            MenuEffect::Follow(a) => entry == MenuEntry::Follow && a == addr,
            MenuEffect::PointerScan(a) => entry == MenuEntry::PointerScan && a == addr,
            MenuEffect::Spider(a) => entry == MenuEntry::Spider && a == addr,
            _ => false,
        },
{
    reveal_strlit("0x");
    let digits = crate::text::hex_lower(addr as nat);
    let value = crate::text::prefixed_hex(addr as nat);
    assert(value =~= seq!['0', 'x'] + digits);
    assert(crate::text::skip(value, 2) =~= digits);
    crate::text::lemma_padded_round_trip(addr as nat, 0, 16, false, usize::MAX as int);
    assert(crate::text::zero_padded(digits, 0) =~= digits);
}

/// An entry that changes a field asks for the field that the menu was opened on, and an
/// entry that acts on the selection asks the toolbar for what its name says.
pub proof fn entry_asks_for_its_field(
    entry: MenuEntry,
    tag: Seq<char>,
    value: Seq<char>,
    owner: u128,
    path: Vec<usize>,
    effect: MenuEffect,
)
    requires
        menu_leads_to(entry, tag, value, owner, path, effect),
    ensures
        effect matches MenuEffect::Pick(p) ==> p.owner() == owner,
        effect matches MenuEffect::Bytes(b) ==> b.owner == owner && b.path == path && (b.insert
            <==> entry == MenuEntry::InsertBytes),
        effect matches MenuEffect::Toolbar(ToolbarAction::Copy) <==> entry == MenuEntry::Copy,
        effect matches MenuEffect::Toolbar(ToolbarAction::Cut) <==> entry == MenuEntry::Cut,
        effect matches MenuEffect::Toolbar(ToolbarAction::Paste) <==> entry == MenuEntry::Paste,
        effect matches MenuEffect::Toolbar(ToolbarAction::Hide) <==> entry == MenuEntry::Hide,
        effect matches MenuEffect::Toolbar(ToolbarAction::Unhide) <==> entry == MenuEntry::Unhide,
        effect matches MenuEffect::Toolbar(ToolbarAction::DeleteSelection) <==> entry
            == MenuEntry::Delete,
        effect matches MenuEffect::Toolbar(ToolbarAction::ExtractClass) <==> entry
            == MenuEntry::ExtractClass,
{
}

} // verus!
