//! The dockable panels and the layout they start in.
use vstd::prelude::*;

verus! {

/// One dockable panel.
#[derive(Clone, Copy, Debug, PartialEq, Eq, Hash, Structural)]
pub enum TabKind {
    /// The class-structure view.
    ClassView,
    /// Strings, functions and calls that a dissect found.
    Navigator,
    /// The list that picks which modules the disassembler shows.
    Modules,
    /// The hex dump.
    Memory,
    /// The disassembler.
    Disassembly,
    /// The value scanner.
    Scanner,
    /// The kernel-module debugger.
    Debugger,
    /// The script console.
    Scripts,
    /// The pointer-chain scanner.
    PointerScan,
    /// The search for a value inside a known object.
    Spider,
}

/// The title of a panel.
pub open spec fn tab_title(tab: TabKind) -> Seq<char> {
    match tab {
        TabKind::ClassView => "Classes"@,
        TabKind::Navigator => "Navigator"@,
        TabKind::Modules => "Modules"@,
        TabKind::Memory => "Memory"@,
        TabKind::Disassembly => "Disassembly"@,
        TabKind::Scanner => "Scanner"@,
        TabKind::Debugger => "Debugger"@,
        TabKind::Scripts => "Scripts"@,
        TabKind::PointerScan => "Pointer scan"@,
        TabKind::Spider => "Spider"@,
    }
}

/// Every panel, in the order of the menu that re-opens closed ones.
pub open spec fn all_tabs() -> Seq<TabKind> {
    seq![
        TabKind::ClassView,
        TabKind::Navigator,
        TabKind::Modules,
        TabKind::Memory,
        TabKind::Disassembly,
        TabKind::Scanner,
        TabKind::Debugger,
        TabKind::Scripts,
        TabKind::PointerScan,
        TabKind::Spider,
    ]
}

impl TabKind {
    /// Human-readable tab title.
    pub fn title(self) -> (t: &'static str)
        ensures
            t@ == tab_title(self),
    {
        match self {
            TabKind::ClassView => "Classes",
            TabKind::Navigator => "Navigator",
            TabKind::Modules => "Modules",
            TabKind::Memory => "Memory",
            TabKind::Disassembly => "Disassembly",
            TabKind::Scanner => "Scanner",
            TabKind::Debugger => "Debugger",
            TabKind::Scripts => "Scripts",
            TabKind::PointerScan => "Pointer scan",
            TabKind::Spider => "Spider",
        }
    }

    /// Every tab kind, for the menu that re-opens closed panels.
    pub fn all() -> (tabs: Vec<TabKind>)
        ensures
            tabs@ == all_tabs(),
    {
        vec![
            TabKind::ClassView,
            TabKind::Navigator,
            TabKind::Modules,
            TabKind::Memory,
            TabKind::Disassembly,
            TabKind::Scanner,
            TabKind::Debugger,
            TabKind::Scripts,
            TabKind::PointerScan,
            TabKind::Spider,
        ]
    }
}

/// On which side of a group a new group is split off.
#[derive(Clone, Copy, Debug, PartialEq, Eq, Structural)]
pub enum Side {
    Right,
    Below,
}

/// A group of tabs that is split off an earlier one.
#[derive(Debug)]
pub struct Split {
    /// The group that is split: 0 is the first, `k` the one that split `k - 1` made.
    pub of: usize,
    pub side: Side,
    /// The share that the split group keeps, in percent.
    pub keeps: u8,
    pub tabs: Vec<TabKind>,
}

/// A dock layout: a first group of tabs and the groups split off it in turn.
#[derive(Debug)]
pub struct LayoutPlan {
    pub root: Vec<TabKind>,
    pub splits: Vec<Split>,
}

impl LayoutPlan {
    /// The tab groups in the order in which they are made.
    pub open spec fn groups(&self) -> Seq<Seq<TabKind>> {
        seq![self.root@] + self.splits@.map_values(|s: Split| s.tabs@)
    }

    /// Every split refers to a group that exists by then.
    pub open spec fn wf(&self) -> bool {
        forall|i: int| 0 <= i < self.splits@.len() ==> (#[trigger] self.splits@[i]).of <= i
            && self.splits@[i].keeps <= 100
    }
}

/// The tab groups of the default layout.
pub open spec fn default_groups() -> Seq<Seq<TabKind>> {
    seq![
        seq![TabKind::ClassView, TabKind::Navigator, TabKind::Modules],
        seq![TabKind::Memory],
        seq![TabKind::Disassembly],
        seq![
            TabKind::Scanner,
            TabKind::PointerScan,
            TabKind::Spider,
            TabKind::Debugger,
            TabKind::Scripts,
        ],
    ]
}

/// The default dock layout: the class view on the left with 45 percent, on the
/// right the hex dump above the disassembler, and below that the scanners, the
/// debugger and the scripts.
pub fn default_layout() -> (plan: LayoutPlan)
    ensures
        plan.wf(),
        plan.groups() == default_groups(),
        plan.splits@.len() == 3,
        plan.splits@[0].of == 0 && plan.splits@[0].side == Side::Right && plan.splits@[0].keeps == 45,
        plan.splits@[1].of == 1 && plan.splits@[1].side == Side::Below && plan.splits@[1].keeps == 50,
        plan.splits@[2].of == 2 && plan.splits@[2].side == Side::Below && plan.splits@[2].keeps == 60,
{
    let plan = LayoutPlan {
        root: vec![TabKind::ClassView, TabKind::Navigator, TabKind::Modules],
        splits: vec![
            Split { of: 0, side: Side::Right, keeps: 45, tabs: vec![TabKind::Memory] },
            Split { of: 1, side: Side::Below, keeps: 50, tabs: vec![TabKind::Disassembly] },
            Split {
                of: 2,
                side: Side::Below,
                keeps: 60,
                tabs: vec![
                    TabKind::Scanner,
                    TabKind::PointerScan,
                    TabKind::Spider,
                    TabKind::Debugger,
                    TabKind::Scripts,
                ],
            },
        ],
    };
    assert(plan.groups() =~~= default_groups());
    plan
}

/// The default layout holds every panel, in one place only.
pub proof fn default_layout_places_every_tab_once(tab: TabKind)
    ensures
        exists|g: int, i: int|
            0 <= g < default_groups().len() && 0 <= i < default_groups()[g].len()
                && #[trigger] default_groups()[g][i] == tab,
        forall|g: int, i: int, h: int, j: int|
            0 <= g < default_groups().len() && 0 <= i < default_groups()[g].len() && 0 <= h
                < default_groups().len() && 0 <= j < default_groups()[h].len()
                && #[trigger] default_groups()[g][i] == tab && #[trigger] default_groups()[h][j]
                == tab ==> g == h && i == j,
{
    let d = default_groups();
    assert(d[0][0] == TabKind::ClassView);
    assert(d[0][1] == TabKind::Navigator);
    assert(d[0][2] == TabKind::Modules);
    assert(d[1][0] == TabKind::Memory);
    assert(d[2][0] == TabKind::Disassembly);
    assert(d[3][0] == TabKind::Scanner);
    assert(d[3][1] == TabKind::PointerScan);
    assert(d[3][2] == TabKind::Spider);
    assert(d[3][3] == TabKind::Debugger);
    assert(d[3][4] == TabKind::Scripts);
}

} // verus!
