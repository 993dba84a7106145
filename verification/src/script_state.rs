//! What a script finds again of what it has set: frozen values, the entries of the
//! table, enums, hotkeys and the fields of classes.
use vstd::prelude::*;

use crate::host_api::{
    adds_entry, creates_class, defines_enum, enum_index, enum_values, freeze_slot, freezes,
    gets_enum, lists_entries, registers, removes_entry, sets_frozen, state_called, type_declared,
    unregisters, with_freeze, without_freeze, without_hotkey, CallContext, HotkeyReg, ScriptFreeze,
    UiAction, UiHostApi,
};
use crate::host_classes::{
    adds_node, answers_class, class_key, class_named, kind_tagged, lists_classes, path_at,
    resolve_base_step, sets_formula, sets_target, sets_text, text_option, NodeKind,
};
use crate::host_error::HostError;
use crate::host_ops::{ClassReply, HostOp, HostStep, Reply};
use crate::host_proc::Target;
use crate::json::{
    addr_at, arg_at, bool_of, index_at, member_in, str_of, text_at, uint_of, ArgError,
    Json, JsonKind,
};
use crate::model::{
    class_index, lemma_class_index, ClassNode, EnumDescription, Project,
};
use crate::node_path::{change_is_read_back, changed, node_at, NodeChange};
use crate::scalar::RealReading;

verus! {

proof fn lemma_slot(frozen: Seq<ScriptFreeze>, addr: usize)
    ensures
        match freeze_slot(frozen, addr) {
            Some(i) => 0 <= i < frozen.len() && frozen[i].addr == addr,
            None => forall|j: int| 0 <= j < frozen.len() ==> (#[trigger] frozen[j]).addr != addr,
        },
    decreases frozen.len(),
{
    if frozen.len() > 0 {
        let rest = frozen.drop_last();
        lemma_slot(rest, addr);
        assert forall|j: int| 0 <= j < rest.len() implies (#[trigger] frozen[j]).addr
            == rest[j].addr by {}
    }
}

/// A value that a script freezes is pinned at its address, and what is frozen
/// elsewhere stays as it was.
pub proof fn freeze_pins_what_was_asked(
    pre: UiHostApi,
    post: UiHostApi,
    args: Json,
    reading: RealReading,
    step: HostStep,
    addr: usize,
    value: String,
)
    requires
        freezes(pre, post, args, reading, step),
        step is Done,
        step->Done_0 is Ok,
        addr_at(args, 0) matches Ok(a) && a == addr,
        text_at(args, 2) matches Ok(v) && v == value,
    ensures
        exists|j: int|
            0 <= j < post.script_freezes@.len() && (#[trigger] post.script_freezes@[j]).addr == addr
                && post.script_freezes@[j].value == value && (text_at(args, 1) matches Ok(ty)
                && pre.tags.of(ty@) == Some(post.script_freezes@[j].vt)),
        forall|f: ScriptFreeze|
            f.addr != addr ==> (#[trigger] post.script_freezes@.contains(f)
                <==> pre.script_freezes@.contains(f)),
        post.project == pre.project,
        post.cheat_table == pre.cheat_table,
{
    let was = pre.script_freezes@;
    let now = post.script_freezes@;
    let vt = pre.tags.of(text_at(args, 1)->Ok_0@)->0;
    let f = ScriptFreeze { addr, vt, value };
    assert(now == with_freeze(was, f));
    lemma_slot(was, addr);
    match freeze_slot(was, addr) {
        Some(i) => {
            assert(now[i] == f);
            assert forall|g: ScriptFreeze| g.addr != addr implies (#[trigger] now.contains(g)
                <==> was.contains(g)) by {
                if now.contains(g) {
                    let k = now.index_of(g);
                    assert(was[k] == g);
                }
                if was.contains(g) {
                    let k = was.index_of(g);
                    assert(now[k] == g);
                }
            }
        },
        None => {
            assert(now[was.len() as int] == f);
            assert forall|g: ScriptFreeze| g.addr != addr implies (#[trigger] now.contains(g)
                <==> was.contains(g)) by {
                if now.contains(g) {
                    let k = now.index_of(g);
                    assert(was[k] == g);
                }
                if was.contains(g) {
                    let k = was.index_of(g);
                    assert(now[k] == g);
                }
            }
        },
    }
}

/// Releasing an address releases it alone.
pub proof fn unfreeze_releases_its_address(frozen: Seq<ScriptFreeze>, addr: usize, f: ScriptFreeze)
    ensures
        without_freeze(frozen, addr).contains(f) <==> frozen.contains(f) && f.addr != addr,
        without_freeze(frozen, addr).len() <= frozen.len(),
    decreases frozen.len(),
{
    if frozen.len() > 0 {
        let rest = frozen.drop_last();
        let kept = without_freeze(rest, addr);
        let now = without_freeze(frozen, addr);
        unfreeze_releases_its_address(rest, addr, f);
        if now.contains(f) {
            let k = now.index_of(f);
            if k < kept.len() {
                assert(kept[k] == f);
                let j = rest.index_of(f);
                assert(frozen[j] == f);
            } else {
                assert(frozen[frozen.len() - 1] == f);
            }
        }
        if frozen.contains(f) && f.addr != addr {
            let j = frozen.index_of(f);
            if j < rest.len() {
                assert(rest[j] == f);
                let k = kept.index_of(f);
                assert(now[k] == f);
            } else {
                assert(now[kept.len() as int] == f);
            }
        }
    }
}

proof fn lemma_enum_index(enums: Seq<EnumDescription>, name: Seq<char>)
    ensures
        match enum_index(enums, name) {
            Some(i) => 0 <= i < enums.len() && enums[i].name@ == name && forall|j: int|
                0 <= j < i ==> (#[trigger] enums[j]).name@ != name,
            None => forall|j: int| 0 <= j < enums.len() ==> (#[trigger] enums[j]).name@ != name,
        },
    decreases enums.len(),
{
    if enums.len() > 0 {
        let rest = enums.drop_last();
        lemma_enum_index(rest, name);
        assert forall|j: int| 0 <= j < rest.len() implies (#[trigger] enums[j]) == rest[j] by {}
    }
}

/// An enum that is declared is found under its name as it was declared; all others
/// stay as they were.
pub proof fn declared_enum_is_found(
    pre: UiHostApi,
    post: UiHostApi,
    ty: EnumDescription,
    args: Json,
    step: HostStep,
    other: EnumDescription,
)
    requires
        type_declared(pre, post, ty),
        text_at(args, 0) matches Ok(n) && n@ == ty.name@,
        gets_enum(post, args, step),
    ensures
        step matches HostStep::Done(Ok(Reply::Enum(r))) && r.name == ty.name && r.size == ty.size
            && r.use_flags == ty.use_flags && r.values@ == ty.values@,
        other.name@ != ty.name@ ==> (post.project.enums@.contains(other)
            <==> pre.project.enums@.contains(other)),
        post.project.classes == pre.project.classes,
{
    let was = pre.project.enums@;
    let now = post.project.enums@;
    lemma_enum_index(was, ty.name@);
    lemma_enum_index(now, ty.name@);
    let i = match enum_index(was, ty.name@) {
        Some(i) => i,
        None => was.len() as int,
    };
    assert(now[i] == ty);
    assert(enum_index(now, ty.name@) is Some);
    let k = enum_index(now, ty.name@)->0;
    if k < i {
        assert(now[k] == was[k]);
    } else if i < k {
        assert(now[i].name@ == ty.name@);
    }
    if other.name@ != ty.name@ {
        if now.contains(other) {
            let j = now.index_of(other);
            assert(was[j] == other);
        }
        if was.contains(other) {
            let j = was.index_of(other);
            assert(now[j] == other);
        }
    }
}

/// The values of an enum are those that were given, each under its own name.
pub proof fn enum_takes_its_values(s: Seq<(String, Json)>, k: int)
    requires
        enum_values(s) is Ok,
        0 <= k < s.len(),
    ensures
        enum_values(s)->Ok_0.len() == s.len(),
        enum_values(s)->Ok_0[k].0 == s[k].0,
        s[k].1.kind matches JsonKind::Number(n) && (n.signed matches Some(i)
            ==> enum_values(s)->Ok_0[k].1 == i),
    decreases s.len(),
{
    let rest = s.drop_last();
    lemma_enum_values_len(rest);
    if k < rest.len() {
        enum_takes_its_values(rest, k);
    }
}

proof fn lemma_enum_values_len(s: Seq<(String, Json)>)
    ensures
        enum_values(s) matches Ok(p) ==> p.len() == s.len(),
    decreases s.len(),
{
    if s.len() > 0 {
        lemma_enum_values_len(s.drop_last());
    }
}

/// An entry that a script adds is listed last, with what the script gave, under the
/// number that was answered; removing that number takes it out again.
pub proof fn added_entry_is_listed(
    pre: UiHostApi,
    post: UiHostApi,
    back: UiHostApi,
    args: Json,
    again: Json,
    given: Vec<(String, Json)>,
    step: HostStep,
    listing: HostStep,
    removal: HostStep,
)
    requires
        adds_entry(pre, post, args, step),
        pre.cheat_table.entries@.len() < usize::MAX,
        arg_at(args, 0) matches Ok(v) && v.kind == JsonKind::Record(given),
        lists_entries(post, listing),
        index_at(again, 0) matches Ok(i) && step == HostStep::Done(
            Ok::<Reply, HostError>(Reply::Index(i)),
        ),
        removes_entry(post, back, again, removal),
    ensures
        listing matches HostStep::Done(Ok(Reply::Entries(out))) && {
            let r = out@[pre.cheat_table.entries@.len() as int];
            &&& out@.len() == pre.cheat_table.entries@.len() + 1
            &&& r.index == pre.cheat_table.entries@.len()
            &&& str_of(member_in(given@, "address"@)) matches Some(t) ==> r.address@ == t@
            &&& str_of(member_in(given@, "type"@)) matches Some(t) ==> r.value_type@ == t@
            &&& str_of(member_in(given@, "description"@)) matches Some(t) ==> r.description@ == t@
            &&& bool_of(member_in(given@, "frozen"@)) matches Some(b) ==> r.frozen == b
        },
        back.cheat_table.entries@ == pre.cheat_table.entries@,
        removal == HostStep::Done(Ok::<Reply, HostError>(Reply::Bool(true))),
{
    let n = pre.cheat_table.entries@.len() as int;
    assert(post.cheat_table.entries@.remove(n) =~= post.cheat_table.entries@.drop_last());
}

/// Freezing an entry pins it to the value that was given, and releasing it leaves
/// everything but the pin; the other entries stay as they were.
pub proof fn frozen_entry_is_pinned(
    pre: UiHostApi,
    post: UiHostApi,
    back: UiHostApi,
    args: Json,
    step: HostStep,
    last: HostStep,
    i: usize,
)
    requires
        index_at(args, 0) matches Ok(k) && k == i,
        i < pre.cheat_table.entries@.len(),
        sets_frozen(pre, post, args, true, step),
        sets_frozen(post, back, args, false, last),
    ensures
        post.cheat_table.entries@.len() == pre.cheat_table.entries@.len(),
        post.cheat_table.entries@[i as int].frozen,
        post.cheat_table.entries@[i as int].address == pre.cheat_table.entries@[i as int].address,
        crate::json::opt_text(crate::json::opt_arg_at(args, 1)) matches Some(v)
            ==> post.cheat_table.entries@[i as int].frozen_value == v,
        !back.cheat_table.entries@[i as int].frozen,
        back.cheat_table.entries@[i as int].frozen_value
            == post.cheat_table.entries@[i as int].frozen_value,
        forall|j: int|
            0 <= j < pre.cheat_table.entries@.len() && j != i ==> #[trigger] back.cheat_table.entries@[j]
                == pre.cheat_table.entries@[j],
{
}

proof fn lemma_without_hotkey(keys: Seq<HotkeyReg>, id: u32)
    requires
        forall|j: int| 0 <= j < keys.len() ==> (#[trigger] keys[j]).id != id,
    ensures
        without_hotkey(keys, id) == keys,
    decreases keys.len(),
{
    if keys.len() > 0 {
        let rest = keys.drop_last();
        assert forall|j: int| 0 <= j < rest.len() implies (#[trigger] rest[j]).id != id by {
            assert(keys[j].id != id);
        }
        lemma_without_hotkey(rest, id);
        assert(keys[keys.len() - 1].id != id);
        assert(rest.push(keys.last()) =~= keys);
    }
}

/// A hotkey is registered under the number that is answered, and unregistering that
/// number takes it and no other away.
pub proof fn hotkey_goes_by_its_number(
    pre: UiHostApi,
    post: UiHostApi,
    back: UiHostApi,
    args: Json,
    again: Json,
    step: HostStep,
    last: HostStep,
    id: u32,
)
    requires
        registers(pre, post, args, step),
        step == HostStep::Done(Ok::<Reply, HostError>(Reply::HotkeyId(id))),
        forall|j: int|
            0 <= j < pre.script_hotkeys@.len() ==> (#[trigger] pre.script_hotkeys@[j]).id != id,
        arg_at(again, 0) matches Ok(v) && (uint_of(v) matches Ok(n) && n == id),
        unregisters(post, back, again, last),
    ensures
        post.script_hotkeys@.len() == pre.script_hotkeys@.len() + 1,
        post.script_hotkeys@.last().id == id,
        post.next_hotkey_id != id,
        back.script_hotkeys@ == pre.script_hotkeys@,
        last == HostStep::Done(Ok::<Reply, HostError>(Reply::Bool(true))),
{
    let keys = post.script_hotkeys@;
    vstd::arithmetic::div_mod::lemma_small_mod(id as nat, 0x1_0000_0000);
    lemma_without_hotkey(pre.script_hotkeys@, id);
    assert(keys.drop_last() == pre.script_hotkeys@);
}

/// What a script writes into a field it finds there: the name under the name, the
/// comment under the comment.
pub proof fn written_text_is_found(
    args: Json,
    comment: bool,
    was: Project,
    now: Project,
    step: HostStep,
    key: String,
    path: Seq<usize>,
    text: String,
)
    requires
        sets_text(args, comment, was, now, step),
        text_at(args, 0) matches Ok(k) && k == key,
        path_at(args, 1) matches Ok(p) && p == path,
        text_at(args, 2) matches Ok(t) && t == text,
        class_key(was.classes@, key@) is Some,
        class_index(was.classes@, class_key(was.classes@, key@)->0) is Some,
        node_at(
            was.classes@[class_index(was.classes@, class_key(was.classes@, key@)->0)->0].children@,
            path,
        ) is Some,
    ensures
        ({
            let i = class_index(was.classes@, class_key(was.classes@, key@)->0)->0;
            let n = node_at(was.classes@[i].children@, path)->0;
            &&& node_at(now.classes@[i].children@, path) matches Some(m) && {
                &&& comment ==> m.comment == text && m.name == n.name
                &&& !comment ==> m.name == text && m.comment == n.comment
                &&& m.tag == n.tag && m.children == n.children && m.pointer_target
                    == n.pointer_target
            }
            &&& step == HostStep::Done(Ok::<Reply, HostError>(Reply::Bool(true)))
        }),
{
    let i = class_index(was.classes@, class_key(was.classes@, key@)->0)->0;
    let n = node_at(was.classes@[i].children@, path)->0;
    let change = if comment {
        NodeChange::Comment(text)
    } else {
        NodeChange::Name(text)
    };
    change_is_read_back(
        was.classes@[i].children@,
        now.classes@[i].children@,
        path,
        changed(n, change),
    );
}

/// A pointer field that a script aims at a class leads to that class.
pub proof fn aimed_pointer_is_found(
    args: Json,
    was: Project,
    now: Project,
    step: HostStep,
    key: String,
    path: Seq<usize>,
    target: String,
)
    requires
        sets_target(args, was, now, step),
        text_at(args, 0) matches Ok(k) && k == key,
        path_at(args, 1) matches Ok(p) && p == path,
        text_at(args, 2) matches Ok(t) && t == target,
        class_key(was.classes@, key@) is Some,
        class_key(was.classes@, target@) is Some,
        class_index(was.classes@, class_key(was.classes@, key@)->0) is Some,
        node_at(
            was.classes@[class_index(was.classes@, class_key(was.classes@, key@)->0)->0].children@,
            path,
        ) is Some,
    ensures
        ({
            let i = class_index(was.classes@, class_key(was.classes@, key@)->0)->0;
            let n = node_at(was.classes@[i].children@, path)->0;
            &&& node_at(now.classes@[i].children@, path) matches Some(m) && m.pointer_target == if n.takes_target {
                class_key(was.classes@, target@)
            } else {
                n.pointer_target
            }
            &&& step == HostStep::Done(Ok::<Reply, HostError>(Reply::Bool(n.takes_target)))
        }),
{
    let i = class_index(was.classes@, class_key(was.classes@, key@)->0)->0;
    let n = node_at(was.classes@[i].children@, path)->0;
    let id = class_key(was.classes@, target@)->0;
    change_is_read_back(
        was.classes@[i].children@,
        now.classes@[i].children@,
        path,
        changed(n, NodeChange::Target(id)),
    );
}

proof fn lemma_same_named(a: Seq<ClassNode>, b: Seq<ClassNode>, name: Seq<char>)
    requires
        a.len() == b.len(),
        forall|j: int|
            0 <= j < a.len() ==> (#[trigger] a[j]).id == b[j].id && a[j].name == b[j].name,
    ensures
        class_named(a, name) == class_named(b, name),
    decreases a.len(),
{
    if a.len() > 0 {
        let x = a.subrange(1, a.len() as int);
        let y = b.subrange(1, b.len() as int);
        assert forall|j: int| 0 <= j < x.len() implies (#[trigger] x[j]).id == y[j].id && x[j].name
            == y[j].name by {
            assert(a[j + 1].id == b[j + 1].id && a[j + 1].name == b[j + 1].name);
        }
        lemma_same_named(x, y, name);
        assert(a[0].id == b[0].id && a[0].name == b[0].name);
    }
}

proof fn lemma_same_index(a: Seq<ClassNode>, b: Seq<ClassNode>, id: u128)
    requires
        a.len() == b.len(),
        forall|j: int| 0 <= j < a.len() ==> (#[trigger] a[j]).id == b[j].id,
    ensures
        class_index(a, id) == class_index(b, id),
{
    lemma_class_index(a, id);
    lemma_class_index(b, id);
    match (class_index(a, id), class_index(b, id)) {
        (Some(i), Some(k)) => {
            assert(a[i].id == b[i].id);
            assert(a[k].id == b[k].id);
        },
        (Some(i), None) => {
            assert(a[i].id == b[i].id);
        },
        (None, Some(k)) => {
            assert(a[k].id == b[k].id);
        },
        _ => {},
    }
}

/// The formula that a script gives a class is the one that is resolved for the class
/// from then on.
pub proof fn set_formula_is_resolved(
    was: Project,
    now: Project,
    key: String,
    formula: String,
    args: Json,
    process: Target,
)
    requires
        sets_formula(was, now, key@, formula, Reply::Bool(true)),
        text_at(args, 0) matches Ok(k) && k@ == key@,
        process.modules is Ok,
    ensures
        resolve_base_step(args, now.classes@, Some(process)) == HostStep::Ask(
            HostOp::ResolveFormula { formula },
        ),
{
    let a = was.classes@;
    let b = now.classes@;
    let id = class_key(a, key@)->0;
    lemma_class_index(a, id);
    let i = class_index(a, id)->0;
    lemma_key_is_there(a, key@);
    assert forall|j: int| 0 <= j < a.len() implies (#[trigger] a[j]).id == b[j].id && a[j].name
        == b[j].name by {}
    lemma_same_named(a, b, key@);
    lemma_same_index(a, b, id);
    if let Some(u) = crate::host_classes::uuid_of(key@) {
        lemma_same_index(a, b, u);
    }
    assert(b[i].address_formula == formula);
}

proof fn lemma_key_is_there(classes: Seq<ClassNode>, key: Seq<char>)
    ensures
        class_key(classes, key) matches Some(id) ==> class_index(classes, id) is Some,
{
    lemma_named_is_there(classes, key);
    if let Some(id) = class_named(classes, key) {
        lemma_class_index(classes, id);
    }
}

proof fn lemma_named_is_there(classes: Seq<ClassNode>, key: Seq<char>)
    ensures
        class_named(classes, key) matches Some(id) ==> exists|j: int|
            0 <= j < classes.len() && (#[trigger] classes[j]).id == id,
    decreases classes.len(),
{
    if classes.len() > 0 {
        let rest = classes.subrange(1, classes.len() as int);
        lemma_named_is_there(rest, key);
        if let Some(id) = class_named(classes, key) {
            if classes[0].id != id || !crate::process_reader::same_ignoring_case(
                classes[0].name@,
                key,
            ) {
                let j = choose|j: int| 0 <= j < rest.len() && (#[trigger] rest[j]).id == id;
                assert(classes[j + 1].id == id);
            }
        }
    }
}

proof fn lemma_kind(kinds: Seq<NodeKind>, tag: Seq<char>)
    ensures
        kind_tagged(kinds, tag) matches Some(k) ==> k.tag@ == tag && kinds.contains(k),
    decreases kinds.len(),
{
    if kinds.len() > 0 {
        let rest = kinds.subrange(1, kinds.len() as int);
        lemma_kind(rest, tag);
        if kinds[0].tag@ == tag {
            assert(kinds[0] == kind_tagged(kinds, tag)->0);
        } else if kind_tagged(kinds, tag) is Some {
            let j = rest.index_of(kind_tagged(kinds, tag)->0);
            assert(kinds[j + 1] == rest[j]);
        }
    }
}

/// A field that a script adds is answered last of its class, of the type and under the
/// name that the script gave; the fields before it stay as they were.
pub proof fn added_field_is_answered(
    args: Json,
    kinds: Seq<NodeKind>,
    was: Project,
    now: Project,
    step: HostStep,
    key: String,
    ty: String,
    r: Reply,
)
    requires
        adds_node(args, kinds, was, now, step),
        step == HostStep::Done(Ok::<Reply, HostError>(Reply::Bool(true))),
        text_at(args, 0) matches Ok(k) && k == key,
        text_at(args, 1) matches Ok(t) && t == ty,
        class_index(was.classes@, class_key(was.classes@, key@)->0) is Some,
        answers_class(
            r,
            now.classes@[class_index(was.classes@, class_key(was.classes@, key@)->0)->0],
        ),
    ensures
        r matches Reply::Class { id, name, formula, nodes } && {
            let i = class_index(was.classes@, class_key(was.classes@, key@)->0)->0;
            let n = was.classes@[i].children@.len();
            &&& name == was.classes@[i].name
            &&& nodes@.len() == n + 1
            &&& nodes@[n as int].tag@ == ty@
            &&& text_option(args, 2, "name"@) matches Some(t) ==> nodes@[n as int].name@ == t@
            &&& forall|j: int|
                0 <= j < n ==> (#[trigger] nodes@[j]).tag == was.classes@[i].children@[j].tag
                    && nodes@[j].name == was.classes@[i].children@[j].name
        },
{
    lemma_kind(kinds, ty@);
    let i = class_index(was.classes@, class_key(was.classes@, key@)->0)->0;
    lemma_class_index(was.classes@, class_key(was.classes@, key@)->0);
    let fields = now.classes@[i].children@;
    let before = was.classes@[i].children@;
    assert forall|j: int| 0 <= j < before.len() implies (#[trigger] fields[j]) == before[j] by {
        assert(fields.drop_last()[j] == fields[j]);
    }
}

/// A class that a script creates is listed under the identifier that was answered.
pub proof fn created_class_is_listed(
    pre: UiHostApi,
    post: UiHostApi,
    args: Json,
    fresh: u128,
    step: HostStep,
    out: Seq<ClassReply>,
)
    requires
        creates_class(pre, post, args, fresh, step),
        lists_classes(post.project.classes@, out),
    ensures
        out.len() == pre.project.classes@.len() + 1,
        step matches HostStep::Done(Ok(Reply::Text(t))) && out[pre.project.classes@.len() as int].id@
            == t@,
        crate::json::opt_text(crate::json::opt_arg_at(args, 0)) matches Some(n)
            ==> out[pre.project.classes@.len() as int].name@ == n@,
        forall|j: int|
            0 <= j < pre.project.classes@.len() ==> (#[trigger] out[j]).name
                == pre.project.classes@[j].name,
{
    let now = post.project.classes@;
    assert forall|j: int| 0 <= j < pre.project.classes@.len() implies (#[trigger] now[j])
        == pre.project.classes@[j] by {
        assert(now.drop_last()[j] == now[j]);
    }
}

/// A goto to the memory asks for the memory panel, at the address.
pub proof fn goto_memory_asks_for_the_memory(
    pre: UiHostApi,
    post: UiHostApi,
    args: Json,
    ctx: CallContext,
    step: HostStep,
    addr: usize,
)
    requires
        state_called(pre, post, "ui.gotoMemory"@, args, ctx, step),
        addr_at(args, 0) == Ok::<usize, ArgError>(addr),
    ensures
        post.ui_actions@ == pre.ui_actions@.push(UiAction::GotoMemory(addr)),
{
    assert("mem.freeze"@ != "ui.gotoMemory"@) by {
        reveal_strlit("mem.freeze");
        reveal_strlit("ui.gotoMemory");
        assert("mem.freeze"@.len() != "ui.gotoMemory"@.len());
    }
    assert("mem.unfreeze"@ != "ui.gotoMemory"@) by {
        reveal_strlit("mem.unfreeze");
        reveal_strlit("ui.gotoMemory");
        assert("mem.unfreeze"@.len() != "ui.gotoMemory"@.len());
    }
    assert("scan.reset"@ != "ui.gotoMemory"@) by {
        reveal_strlit("scan.reset");
        reveal_strlit("ui.gotoMemory");
        assert("scan.reset"@.len() != "ui.gotoMemory"@.len());
    }
    assert("classes.list"@ != "ui.gotoMemory"@) by {
        reveal_strlit("classes.list");
        reveal_strlit("ui.gotoMemory");
        assert("classes.list"@.len() != "ui.gotoMemory"@.len());
    }
    assert("classes.create"@ != "ui.gotoMemory"@) by {
        reveal_strlit("classes.create");
        reveal_strlit("ui.gotoMemory");
        assert("classes.create"@.len() != "ui.gotoMemory"@.len());
    }
    assert("classes.get"@ != "ui.gotoMemory"@) by {
        reveal_strlit("classes.get");
        reveal_strlit("ui.gotoMemory");
        assert("classes.get"@.len() != "ui.gotoMemory"@.len());
    }
    assert("classes.setFormula"@ != "ui.gotoMemory"@) by {
        reveal_strlit("classes.setFormula");
        reveal_strlit("ui.gotoMemory");
        assert("classes.setFormula"@.len() != "ui.gotoMemory"@.len());
    }
    assert("classes.addNode"@ != "ui.gotoMemory"@) by {
        reveal_strlit("classes.addNode");
        reveal_strlit("ui.gotoMemory");
        assert("classes.addNode"@.len() != "ui.gotoMemory"@.len());
    }
    assert("classes.addNodeAt"@ != "ui.gotoMemory"@) by {
        reveal_strlit("classes.addNodeAt");
        reveal_strlit("ui.gotoMemory");
        assert("classes.addNodeAt"@.len() != "ui.gotoMemory"@.len());
    }
    assert("classes.setPointerTarget"@ != "ui.gotoMemory"@) by {
        reveal_strlit("classes.setPointerTarget");
        reveal_strlit("ui.gotoMemory");
        assert("classes.setPointerTarget"@.len() != "ui.gotoMemory"@.len());
    }
    assert("classes.removeNode"@ != "ui.gotoMemory"@) by {
        reveal_strlit("classes.removeNode");
        reveal_strlit("ui.gotoMemory");
        assert("classes.removeNode"@.len() != "ui.gotoMemory"@.len());
    }
    assert("classes.setNodeName"@ != "ui.gotoMemory"@) by {
        reveal_strlit("classes.setNodeName");
        reveal_strlit("ui.gotoMemory");
        assert("classes.setNodeName"@.len() != "ui.gotoMemory"@.len());
    }
    assert("classes.setNodeComment"@ != "ui.gotoMemory"@) by {
        reveal_strlit("classes.setNodeComment");
        reveal_strlit("ui.gotoMemory");
        assert("classes.setNodeComment"@.len() != "ui.gotoMemory"@.len());
    }
    assert("classes.resolveBase"@ != "ui.gotoMemory"@) by {
        reveal_strlit("classes.resolveBase");
        reveal_strlit("ui.gotoMemory");
        assert("classes.resolveBase"@.len() != "ui.gotoMemory"@.len());
    }
    assert("classes.dissect"@ != "ui.gotoMemory"@) by {
        reveal_strlit("classes.dissect");
        reveal_strlit("ui.gotoMemory");
        assert("classes.dissect"@.len() != "ui.gotoMemory"@.len());
    }
    assert("ui.notify"@ != "ui.gotoMemory"@) by {
        reveal_strlit("ui.notify");
        reveal_strlit("ui.gotoMemory");
        assert("ui.notify"@.len() != "ui.gotoMemory"@.len());
    }
}

/// A goto to the code asks for the disassembly, at the address.
pub proof fn goto_disasm_asks_for_the_listing(
    pre: UiHostApi,
    post: UiHostApi,
    args: Json,
    ctx: CallContext,
    step: HostStep,
    addr: usize,
)
    requires
        state_called(pre, post, "ui.gotoDisasm"@, args, ctx, step),
        addr_at(args, 0) == Ok::<usize, ArgError>(addr),
    ensures
        post.ui_actions@ == pre.ui_actions@.push(UiAction::GotoDisasm(addr)),
{
    assert("mem.freeze"@ != "ui.gotoDisasm"@) by {
        reveal_strlit("mem.freeze");
        reveal_strlit("ui.gotoDisasm");
        assert("mem.freeze"@.len() != "ui.gotoDisasm"@.len());
    }
    assert("mem.unfreeze"@ != "ui.gotoDisasm"@) by {
        reveal_strlit("mem.unfreeze");
        reveal_strlit("ui.gotoDisasm");
        assert("mem.unfreeze"@.len() != "ui.gotoDisasm"@.len());
    }
    assert("scan.reset"@ != "ui.gotoDisasm"@) by {
        reveal_strlit("scan.reset");
        reveal_strlit("ui.gotoDisasm");
        assert("scan.reset"@.len() != "ui.gotoDisasm"@.len());
    }
    assert("classes.list"@ != "ui.gotoDisasm"@) by {
        reveal_strlit("classes.list");
        reveal_strlit("ui.gotoDisasm");
        assert("classes.list"@.len() != "ui.gotoDisasm"@.len());
    }
    assert("classes.create"@ != "ui.gotoDisasm"@) by {
        reveal_strlit("classes.create");
        reveal_strlit("ui.gotoDisasm");
        assert("classes.create"@.len() != "ui.gotoDisasm"@.len());
    }
    assert("classes.get"@ != "ui.gotoDisasm"@) by {
        reveal_strlit("classes.get");
        reveal_strlit("ui.gotoDisasm");
        assert("classes.get"@.len() != "ui.gotoDisasm"@.len());
    }
    assert("classes.setFormula"@ != "ui.gotoDisasm"@) by {
        reveal_strlit("classes.setFormula");
        reveal_strlit("ui.gotoDisasm");
        assert("classes.setFormula"@.len() != "ui.gotoDisasm"@.len());
    }
    assert("classes.addNode"@ != "ui.gotoDisasm"@) by {
        reveal_strlit("classes.addNode");
        reveal_strlit("ui.gotoDisasm");
        assert("classes.addNode"@.len() != "ui.gotoDisasm"@.len());
    }
    assert("classes.addNodeAt"@ != "ui.gotoDisasm"@) by {
        reveal_strlit("classes.addNodeAt");
        reveal_strlit("ui.gotoDisasm");
        assert("classes.addNodeAt"@.len() != "ui.gotoDisasm"@.len());
    }
    assert("classes.setPointerTarget"@ != "ui.gotoDisasm"@) by {
        reveal_strlit("classes.setPointerTarget");
        reveal_strlit("ui.gotoDisasm");
        assert("classes.setPointerTarget"@.len() != "ui.gotoDisasm"@.len());
    }
    assert("classes.removeNode"@ != "ui.gotoDisasm"@) by {
        reveal_strlit("classes.removeNode");
        reveal_strlit("ui.gotoDisasm");
        assert("classes.removeNode"@.len() != "ui.gotoDisasm"@.len());
    }
    assert("classes.setNodeName"@ != "ui.gotoDisasm"@) by {
        reveal_strlit("classes.setNodeName");
        reveal_strlit("ui.gotoDisasm");
        assert("classes.setNodeName"@.len() != "ui.gotoDisasm"@.len());
    }
    assert("classes.setNodeComment"@ != "ui.gotoDisasm"@) by {
        reveal_strlit("classes.setNodeComment");
        reveal_strlit("ui.gotoDisasm");
        assert("classes.setNodeComment"@.len() != "ui.gotoDisasm"@.len());
    }
    assert("classes.resolveBase"@ != "ui.gotoDisasm"@) by {
        reveal_strlit("classes.resolveBase");
        reveal_strlit("ui.gotoDisasm");
        assert("classes.resolveBase"@.len() != "ui.gotoDisasm"@.len());
    }
    assert("classes.dissect"@ != "ui.gotoDisasm"@) by {
        reveal_strlit("classes.dissect");
        reveal_strlit("ui.gotoDisasm");
        assert("classes.dissect"@.len() != "ui.gotoDisasm"@.len());
    }
    assert("ui.notify"@ != "ui.gotoDisasm"@) by {
        reveal_strlit("ui.notify");
        reveal_strlit("ui.gotoDisasm");
        assert("ui.notify"@.len() != "ui.gotoDisasm"@.len());
    }
    assert("ui.gotoMemory"@ != "ui.gotoDisasm"@) by {
        reveal_strlit("ui.gotoMemory");
        reveal_strlit("ui.gotoDisasm");
        assert("ui.gotoMemory"@[7] != "ui.gotoDisasm"@[7]);
    }
}

/// Freezing an entry of the table leaves it frozen.
pub proof fn table_freeze_freezes(
    pre: UiHostApi,
    post: UiHostApi,
    args: Json,
    ctx: CallContext,
    step: HostStep,
    i: usize,
)
    requires
        state_called(pre, post, "table.freeze"@, args, ctx, step),
        index_at(args, 0) == Ok::<usize, ArgError>(i),
        i < pre.cheat_table.entries@.len(),
    ensures
        post.cheat_table.entries@[i as int].frozen,
{
    assert("mem.freeze"@ != "table.freeze"@) by {
        reveal_strlit("mem.freeze");
        reveal_strlit("table.freeze");
        assert("mem.freeze"@.len() != "table.freeze"@.len());
    }
    assert("mem.unfreeze"@ != "table.freeze"@) by {
        reveal_strlit("mem.unfreeze");
        reveal_strlit("table.freeze");
        assert("mem.unfreeze"@[0] != "table.freeze"@[0]);
    }
    assert("scan.reset"@ != "table.freeze"@) by {
        reveal_strlit("scan.reset");
        reveal_strlit("table.freeze");
        assert("scan.reset"@.len() != "table.freeze"@.len());
    }
    assert("classes.list"@ != "table.freeze"@) by {
        reveal_strlit("classes.list");
        reveal_strlit("table.freeze");
        assert("classes.list"@[0] != "table.freeze"@[0]);
    }
    assert("classes.create"@ != "table.freeze"@) by {
        reveal_strlit("classes.create");
        reveal_strlit("table.freeze");
        assert("classes.create"@.len() != "table.freeze"@.len());
    }
    assert("classes.get"@ != "table.freeze"@) by {
        reveal_strlit("classes.get");
        reveal_strlit("table.freeze");
        assert("classes.get"@.len() != "table.freeze"@.len());
    }
    assert("classes.setFormula"@ != "table.freeze"@) by {
        reveal_strlit("classes.setFormula");
        reveal_strlit("table.freeze");
        assert("classes.setFormula"@.len() != "table.freeze"@.len());
    }
    assert("classes.addNode"@ != "table.freeze"@) by {
        reveal_strlit("classes.addNode");
        reveal_strlit("table.freeze");
        assert("classes.addNode"@.len() != "table.freeze"@.len());
    }
    assert("classes.addNodeAt"@ != "table.freeze"@) by {
        reveal_strlit("classes.addNodeAt");
        reveal_strlit("table.freeze");
        assert("classes.addNodeAt"@.len() != "table.freeze"@.len());
    }
    assert("classes.setPointerTarget"@ != "table.freeze"@) by {
        reveal_strlit("classes.setPointerTarget");
        reveal_strlit("table.freeze");
        assert("classes.setPointerTarget"@.len() != "table.freeze"@.len());
    }
    assert("classes.removeNode"@ != "table.freeze"@) by {
        reveal_strlit("classes.removeNode");
        reveal_strlit("table.freeze");
        assert("classes.removeNode"@.len() != "table.freeze"@.len());
    }
    assert("classes.setNodeName"@ != "table.freeze"@) by {
        reveal_strlit("classes.setNodeName");
        reveal_strlit("table.freeze");
        assert("classes.setNodeName"@.len() != "table.freeze"@.len());
    }
    assert("classes.setNodeComment"@ != "table.freeze"@) by {
        reveal_strlit("classes.setNodeComment");
        reveal_strlit("table.freeze");
        assert("classes.setNodeComment"@.len() != "table.freeze"@.len());
    }
    assert("classes.resolveBase"@ != "table.freeze"@) by {
        reveal_strlit("classes.resolveBase");
        reveal_strlit("table.freeze");
        assert("classes.resolveBase"@.len() != "table.freeze"@.len());
    }
    assert("classes.dissect"@ != "table.freeze"@) by {
        reveal_strlit("classes.dissect");
        reveal_strlit("table.freeze");
        assert("classes.dissect"@.len() != "table.freeze"@.len());
    }
    assert("ui.notify"@ != "table.freeze"@) by {
        reveal_strlit("ui.notify");
        reveal_strlit("table.freeze");
        assert("ui.notify"@.len() != "table.freeze"@.len());
    }
    assert("ui.gotoMemory"@ != "table.freeze"@) by {
        reveal_strlit("ui.gotoMemory");
        reveal_strlit("table.freeze");
        assert("ui.gotoMemory"@.len() != "table.freeze"@.len());
    }
    assert("ui.gotoDisasm"@ != "table.freeze"@) by {
        reveal_strlit("ui.gotoDisasm");
        reveal_strlit("table.freeze");
        assert("ui.gotoDisasm"@.len() != "table.freeze"@.len());
    }
    assert("ui.selectClass"@ != "table.freeze"@) by {
        reveal_strlit("ui.selectClass");
        reveal_strlit("table.freeze");
        assert("ui.selectClass"@.len() != "table.freeze"@.len());
    }
    assert("table.add"@ != "table.freeze"@) by {
        reveal_strlit("table.add");
        reveal_strlit("table.freeze");
        assert("table.add"@.len() != "table.freeze"@.len());
    }
    assert("table.list"@ != "table.freeze"@) by {
        reveal_strlit("table.list");
        reveal_strlit("table.freeze");
        assert("table.list"@.len() != "table.freeze"@.len());
    }
    assert("table.remove"@ != "table.freeze"@) by {
        reveal_strlit("table.remove");
        reveal_strlit("table.freeze");
        assert("table.remove"@[6] != "table.freeze"@[6]);
    }
}

/// Unfreezing an entry of the table leaves it released.
pub proof fn table_unfreeze_releases(
    pre: UiHostApi,
    post: UiHostApi,
    args: Json,
    ctx: CallContext,
    step: HostStep,
    i: usize,
)
    requires
        state_called(pre, post, "table.unfreeze"@, args, ctx, step),
        index_at(args, 0) == Ok::<usize, ArgError>(i),
        i < pre.cheat_table.entries@.len(),
    ensures
        !post.cheat_table.entries@[i as int].frozen,
{
    assert("mem.freeze"@ != "table.unfreeze"@) by {
        reveal_strlit("mem.freeze");
        reveal_strlit("table.unfreeze");
        assert("mem.freeze"@.len() != "table.unfreeze"@.len());
    }
    assert("mem.unfreeze"@ != "table.unfreeze"@) by {
        reveal_strlit("mem.unfreeze");
        reveal_strlit("table.unfreeze");
        assert("mem.unfreeze"@.len() != "table.unfreeze"@.len());
    }
    assert("scan.reset"@ != "table.unfreeze"@) by {
        reveal_strlit("scan.reset");
        reveal_strlit("table.unfreeze");
        assert("scan.reset"@.len() != "table.unfreeze"@.len());
    }
    assert("classes.list"@ != "table.unfreeze"@) by {
        reveal_strlit("classes.list");
        reveal_strlit("table.unfreeze");
        assert("classes.list"@.len() != "table.unfreeze"@.len());
    }
    assert("classes.create"@ != "table.unfreeze"@) by {
        reveal_strlit("classes.create");
        reveal_strlit("table.unfreeze");
        assert("classes.create"@[0] != "table.unfreeze"@[0]);
    }
    assert("classes.get"@ != "table.unfreeze"@) by {
        reveal_strlit("classes.get");
        reveal_strlit("table.unfreeze");
        assert("classes.get"@.len() != "table.unfreeze"@.len());
    }
    assert("classes.setFormula"@ != "table.unfreeze"@) by {
        reveal_strlit("classes.setFormula");
        reveal_strlit("table.unfreeze");
        assert("classes.setFormula"@.len() != "table.unfreeze"@.len());
    }
    assert("classes.addNode"@ != "table.unfreeze"@) by {
        reveal_strlit("classes.addNode");
        reveal_strlit("table.unfreeze");
        assert("classes.addNode"@.len() != "table.unfreeze"@.len());
    }
    assert("classes.addNodeAt"@ != "table.unfreeze"@) by {
        reveal_strlit("classes.addNodeAt");
        reveal_strlit("table.unfreeze");
        assert("classes.addNodeAt"@.len() != "table.unfreeze"@.len());
    }
    assert("classes.setPointerTarget"@ != "table.unfreeze"@) by {
        reveal_strlit("classes.setPointerTarget");
        reveal_strlit("table.unfreeze");
        assert("classes.setPointerTarget"@.len() != "table.unfreeze"@.len());
    }
    assert("classes.removeNode"@ != "table.unfreeze"@) by {
        reveal_strlit("classes.removeNode");
        reveal_strlit("table.unfreeze");
        assert("classes.removeNode"@.len() != "table.unfreeze"@.len());
    }
    assert("classes.setNodeName"@ != "table.unfreeze"@) by {
        reveal_strlit("classes.setNodeName");
        reveal_strlit("table.unfreeze");
        assert("classes.setNodeName"@.len() != "table.unfreeze"@.len());
    }
    assert("classes.setNodeComment"@ != "table.unfreeze"@) by {
        reveal_strlit("classes.setNodeComment");
        reveal_strlit("table.unfreeze");
        assert("classes.setNodeComment"@.len() != "table.unfreeze"@.len());
    }
    assert("classes.resolveBase"@ != "table.unfreeze"@) by {
        reveal_strlit("classes.resolveBase");
        reveal_strlit("table.unfreeze");
        assert("classes.resolveBase"@.len() != "table.unfreeze"@.len());
    }
    assert("classes.dissect"@ != "table.unfreeze"@) by {
        reveal_strlit("classes.dissect");
        reveal_strlit("table.unfreeze");
        assert("classes.dissect"@.len() != "table.unfreeze"@.len());
    }
    assert("ui.notify"@ != "table.unfreeze"@) by {
        reveal_strlit("ui.notify");
        reveal_strlit("table.unfreeze");
        assert("ui.notify"@.len() != "table.unfreeze"@.len());
    }
    assert("ui.gotoMemory"@ != "table.unfreeze"@) by {
        reveal_strlit("ui.gotoMemory");
        reveal_strlit("table.unfreeze");
        assert("ui.gotoMemory"@.len() != "table.unfreeze"@.len());
    }
    assert("ui.gotoDisasm"@ != "table.unfreeze"@) by {
        reveal_strlit("ui.gotoDisasm");
        reveal_strlit("table.unfreeze");
        assert("ui.gotoDisasm"@.len() != "table.unfreeze"@.len());
    }
    assert("ui.selectClass"@ != "table.unfreeze"@) by {
        reveal_strlit("ui.selectClass");
        reveal_strlit("table.unfreeze");
        assert("ui.selectClass"@[0] != "table.unfreeze"@[0]);
    }
    assert("table.add"@ != "table.unfreeze"@) by {
        reveal_strlit("table.add");
        reveal_strlit("table.unfreeze");
        assert("table.add"@.len() != "table.unfreeze"@.len());
    }
    assert("table.list"@ != "table.unfreeze"@) by {
        reveal_strlit("table.list");
        reveal_strlit("table.unfreeze");
        assert("table.list"@.len() != "table.unfreeze"@.len());
    }
    assert("table.remove"@ != "table.unfreeze"@) by {
        reveal_strlit("table.remove");
        reveal_strlit("table.unfreeze");
        assert("table.remove"@.len() != "table.unfreeze"@.len());
    }
    assert("table.freeze"@ != "table.unfreeze"@) by {
        reveal_strlit("table.freeze");
        reveal_strlit("table.unfreeze");
        assert("table.freeze"@.len() != "table.unfreeze"@.len());
    }
}

/// Setting the name of a field is no change of its comment.
pub proof fn set_name_sets_the_name(
    pre: UiHostApi,
    post: UiHostApi,
    args: Json,
    ctx: CallContext,
    step: HostStep,
)
    requires
        state_called(pre, post, "classes.setNodeName"@, args, ctx, step),
    ensures
        sets_text(args, false, pre.project, post.project, step),
{
    assert("mem.freeze"@ != "classes.setNodeName"@) by {
        reveal_strlit("mem.freeze");
        reveal_strlit("classes.setNodeName");
        assert("mem.freeze"@.len() != "classes.setNodeName"@.len());
    }
    assert("mem.unfreeze"@ != "classes.setNodeName"@) by {
        reveal_strlit("mem.unfreeze");
        reveal_strlit("classes.setNodeName");
        assert("mem.unfreeze"@.len() != "classes.setNodeName"@.len());
    }
    assert("scan.reset"@ != "classes.setNodeName"@) by {
        reveal_strlit("scan.reset");
        reveal_strlit("classes.setNodeName");
        assert("scan.reset"@.len() != "classes.setNodeName"@.len());
    }
    assert("classes.list"@ != "classes.setNodeName"@) by {
        reveal_strlit("classes.list");
        reveal_strlit("classes.setNodeName");
        assert("classes.list"@.len() != "classes.setNodeName"@.len());
    }
    assert("classes.create"@ != "classes.setNodeName"@) by {
        reveal_strlit("classes.create");
        reveal_strlit("classes.setNodeName");
        assert("classes.create"@.len() != "classes.setNodeName"@.len());
    }
    assert("classes.get"@ != "classes.setNodeName"@) by {
        reveal_strlit("classes.get");
        reveal_strlit("classes.setNodeName");
        assert("classes.get"@.len() != "classes.setNodeName"@.len());
    }
    assert("classes.setFormula"@ != "classes.setNodeName"@) by {
        reveal_strlit("classes.setFormula");
        reveal_strlit("classes.setNodeName");
        assert("classes.setFormula"@.len() != "classes.setNodeName"@.len());
    }
    assert("classes.addNode"@ != "classes.setNodeName"@) by {
        reveal_strlit("classes.addNode");
        reveal_strlit("classes.setNodeName");
        assert("classes.addNode"@.len() != "classes.setNodeName"@.len());
    }
    assert("classes.addNodeAt"@ != "classes.setNodeName"@) by {
        reveal_strlit("classes.addNodeAt");
        reveal_strlit("classes.setNodeName");
        assert("classes.addNodeAt"@.len() != "classes.setNodeName"@.len());
    }
    assert("classes.setPointerTarget"@ != "classes.setNodeName"@) by {
        reveal_strlit("classes.setPointerTarget");
        reveal_strlit("classes.setNodeName");
        assert("classes.setPointerTarget"@.len() != "classes.setNodeName"@.len());
    }
    assert("classes.removeNode"@ != "classes.setNodeName"@) by {
        reveal_strlit("classes.removeNode");
        reveal_strlit("classes.setNodeName");
        assert("classes.removeNode"@.len() != "classes.setNodeName"@.len());
    }
}

/// Setting the comment of a field is no change of its name.
pub proof fn set_comment_sets_the_comment(
    pre: UiHostApi,
    post: UiHostApi,
    args: Json,
    ctx: CallContext,
    step: HostStep,
)
    requires
        state_called(pre, post, "classes.setNodeComment"@, args, ctx, step),
    ensures
        sets_text(args, true, pre.project, post.project, step),
{
    assert("mem.freeze"@ != "classes.setNodeComment"@) by {
        reveal_strlit("mem.freeze");
        reveal_strlit("classes.setNodeComment");
        assert("mem.freeze"@.len() != "classes.setNodeComment"@.len());
    }
    assert("mem.unfreeze"@ != "classes.setNodeComment"@) by {
        reveal_strlit("mem.unfreeze");
        reveal_strlit("classes.setNodeComment");
        assert("mem.unfreeze"@.len() != "classes.setNodeComment"@.len());
    }
    assert("scan.reset"@ != "classes.setNodeComment"@) by {
        reveal_strlit("scan.reset");
        reveal_strlit("classes.setNodeComment");
        assert("scan.reset"@.len() != "classes.setNodeComment"@.len());
    }
    assert("classes.list"@ != "classes.setNodeComment"@) by {
        reveal_strlit("classes.list");
        reveal_strlit("classes.setNodeComment");
        assert("classes.list"@.len() != "classes.setNodeComment"@.len());
    }
    assert("classes.create"@ != "classes.setNodeComment"@) by {
        reveal_strlit("classes.create");
        reveal_strlit("classes.setNodeComment");
        assert("classes.create"@.len() != "classes.setNodeComment"@.len());
    }
    assert("classes.get"@ != "classes.setNodeComment"@) by {
        reveal_strlit("classes.get");
        reveal_strlit("classes.setNodeComment");
        assert("classes.get"@.len() != "classes.setNodeComment"@.len());
    }
    assert("classes.setFormula"@ != "classes.setNodeComment"@) by {
        reveal_strlit("classes.setFormula");
        reveal_strlit("classes.setNodeComment");
        assert("classes.setFormula"@.len() != "classes.setNodeComment"@.len());
    }
    assert("classes.addNode"@ != "classes.setNodeComment"@) by {
        reveal_strlit("classes.addNode");
        reveal_strlit("classes.setNodeComment");
        assert("classes.addNode"@.len() != "classes.setNodeComment"@.len());
    }
    assert("classes.addNodeAt"@ != "classes.setNodeComment"@) by {
        reveal_strlit("classes.addNodeAt");
        reveal_strlit("classes.setNodeComment");
        assert("classes.addNodeAt"@.len() != "classes.setNodeComment"@.len());
    }
    assert("classes.setPointerTarget"@ != "classes.setNodeComment"@) by {
        reveal_strlit("classes.setPointerTarget");
        reveal_strlit("classes.setNodeComment");
        assert("classes.setPointerTarget"@.len() != "classes.setNodeComment"@.len());
    }
    assert("classes.removeNode"@ != "classes.setNodeComment"@) by {
        reveal_strlit("classes.removeNode");
        reveal_strlit("classes.setNodeComment");
        assert("classes.removeNode"@.len() != "classes.setNodeComment"@.len());
    }
    assert("classes.setNodeName"@ != "classes.setNodeComment"@) by {
        reveal_strlit("classes.setNodeName");
        reveal_strlit("classes.setNodeComment");
        assert("classes.setNodeName"@.len() != "classes.setNodeComment"@.len());
    }
}

/// After an unfreeze nothing is frozen at the address.
pub proof fn unfreeze_leaves_nothing_frozen_there(
    pre: UiHostApi,
    post: UiHostApi,
    args: Json,
    ctx: CallContext,
    step: HostStep,
    addr: usize,
    f: ScriptFreeze,
)
    requires
        state_called(pre, post, "mem.unfreeze"@, args, ctx, step),
        addr_at(args, 0) == Ok::<usize, ArgError>(addr),
    ensures
        post.script_freezes@.contains(f) <==> pre.script_freezes@.contains(f) && f.addr != addr,
{
    assert("mem.freeze"@ != "mem.unfreeze"@) by {
        reveal_strlit("mem.freeze");
        reveal_strlit("mem.unfreeze");
        assert("mem.freeze"@.len() != "mem.unfreeze"@.len());
    }
    unfreeze_releases_its_address(pre.script_freezes@, addr, f);
}

/// An enum that a script defines is answered with the values that the script gave, each
/// under its own name.
pub proof fn defined_enum_is_answered(
    pre: UiHostApi,
    post: UiHostApi,
    args: Json,
    step: HostStep,
    again: Json,
    reply: HostStep,
    given: Vec<(String, Json)>,
    k: int,
)
    requires
        defines_enum(pre, post, args, step),
        step == HostStep::Done(Ok::<Reply, HostError>(Reply::Bool(true))),
        arg_at(args, 1) matches Ok(v) && v.kind == JsonKind::Record(given),
        text_at(args, 0) is Ok,
        text_at(again, 0) == text_at(args, 0),
        gets_enum(post, again, reply),
        0 <= k < given@.len(),
    ensures
        reply matches HostStep::Done(Ok(Reply::Enum(r))) && {
            &&& Ok::<String, ArgError>(r.name) == text_at(args, 0)
            &&& r.values@.len() == given@.len()
            &&& r.values@[k].0 == given@[k].0
            &&& given@[k].1.kind matches JsonKind::Number(n) && (n.signed matches Some(i)
                ==> r.values@[k].1 == i)
        },
{
    let ty = choose|ty: EnumDescription|
        {
            &&& #[trigger] type_declared(pre, post, ty)
            &&& Ok::<String, ArgError>(ty.name) == text_at(args, 0)
            &&& ty.values@ == enum_values(given@)->Ok_0
        };
    declared_enum_is_found(pre, post, ty, again, reply, ty);
    enum_takes_its_values(given@, k);
}

/// An enum is four bytes wide unless another width is given, and only the widths of
/// integers are taken.
pub proof fn enum_has_the_width_of_an_integer(opts: Option<Json>)
    ensures
        crate::json::unsigned_of(crate::json::member(opts, "size"@)) is None
            ==> (crate::host_api::enum_options(opts) matches Ok(o) && o.0 == 4),
        crate::json::unsigned_of(crate::json::member(opts, "size"@)) matches Some(n) ==> (
        crate::host_api::enum_options(opts) is Ok <==> n == 1 || n == 2 || n == 4 || n == 8),
        crate::host_api::enum_options(opts) matches Ok(o) ==> (crate::json::unsigned_of(
            crate::json::member(opts, "size"@),
        ) matches Some(n) ==> o.0 == n),
        crate::host_api::enum_options(opts) matches Ok(o) ==> (o.1 <==> bool_of(
            crate::json::member(opts, "flags"@),
        ) == Some(true)),
{
}

/// A hotkey is registered with the modifiers and the key that its combination names.
pub proof fn hotkey_has_what_its_combination_names(
    pre: UiHostApi,
    post: UiHostApi,
    args: Json,
    step: HostStep,
    combo: String,
    h: crate::address::HotkeyView,
)
    requires
        registers(pre, post, args, step),
        text_at(args, 0) matches Ok(c) && c == combo,
        crate::address::hotkey_of(combo@) == Some(h),
    ensures
        post.script_hotkeys@.len() == pre.script_hotkeys@.len() + 1,
        ({
            let k = post.script_hotkeys@.last();
            &&& k.ctrl == h.ctrl
            &&& k.shift == h.shift
            &&& k.alt == h.alt
            &&& Some(k.key@) == h.key
        }),
{
}

} // verus!
