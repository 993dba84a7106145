//! Building the rows of a class, reading behind the expanded pointers round by
//! round until none is left unread.
use vstd::prelude::*;

use crate::class_view::{
    class_rows, deref_len, deref_rows, needed_derefs, pointer_value, read_pointer, record_deref,
    rows_view, snapshot_rows, wants_rows, DerefBuf, FlattenInput, NeededDeref, NodeSnapshot,
};
use crate::model::{class_size, ClassNode};

verus! {

/// What the rows are built from.
pub struct ClassSource<'a> {
    pub classes: &'a Vec<ClassNode>,
    pub collapsed: &'a Vec<String>,
    pub expanded: &'a Vec<String>,
    /// The bytes of the class.
    pub buf: &'a Vec<u8>,
}

/// What is to be read next.
#[derive(Clone, Copy, Debug, PartialEq, Eq, Structural)]
pub enum RebuildStep {
    /// The eight bytes of the pointer at this address.
    Pointer(usize),
    /// The class behind a pointer.
    Target { addr: usize, len: usize },
    /// Nothing: the rows are complete.
    Settled,
}

/// Rows that are being built.
#[derive(Debug)]
pub struct Rebuild {
    pub class: u128,
    pub base: usize,
    /// Whether there is a target to read behind pointers.
    pub attached: bool,
    /// What was read behind expanded pointers.
    pub derefs: Vec<DerefBuf>,
    /// How many of those the rows were built with.
    pub known: usize,
    pub rows: Vec<NodeSnapshot>,
    /// The expanded pointers of the rows that were not read when they were built.
    pub needed: Vec<NeededDeref>,
    /// How many of those were read since.
    pub at: usize,
    /// Where the pointer leads that is being read.
    pub pointer: Option<usize>,
}

/// How many bytes to read behind a pointer.
pub open spec fn behind(classes: Seq<ClassNode>, pointer: usize, target: u128) -> nat {
    if pointer == 0 {
        0
    } else {
        class_size(classes, target) as nat
    }
}

impl Rebuild {
    /// The rows are those of the class, with what was known when they were built.
    pub open spec fn wf(&self, source: ClassSource) -> bool {
        &&& self.known + self.at == self.derefs@.len()
        &&& rows_view(self.rows@) == class_rows(
            source.classes@,
            source.collapsed@,
            source.expanded@,
            self.derefs@.take(self.known as int),
            self.class,
            self.base,
            source.buf@,
        )
        &&& if self.attached {
            wants_rows(
                self.needed@,
                deref_rows(self.rows@, source.expanded@, self.derefs@.take(self.known as int)),
                self.rows@,
            )
        } else {
            self.needed@.len() == 0
        }
        &&& self.at < self.needed@.len() || (self.at == 0 && self.needed@.len() == 0)
        &&& self.pointer is Some ==> self.at < self.needed@.len() && self.pointer->0 != 0
            && class_size(source.classes@, self.needed@[self.at as int].target) > 0
    }

    /// The rows are complete.
    pub open spec fn settled(&self) -> bool {
        self.needed@.len() == 0
    }

    /// What is to be read next.
    pub open spec fn next(&self, source: ClassSource) -> RebuildStep {
        if self.at >= self.needed@.len() {
            RebuildStep::Settled
        } else {
            match self.pointer {
                None => RebuildStep::Pointer(self.needed@[self.at as int].address),
                Some(p) => RebuildStep::Target {
                    addr: p,
                    len: class_size(source.classes@, self.needed@[self.at as int].target),
                },
            }
        }
    }

    /// What is behind the pointer was recorded. After the last one of a round the
    /// rows were built again.
    pub open spec fn recorded(pre: Self, post: Self, addr: usize, bytes: Vec<u8>) -> bool {
        &&& post.class == pre.class
        &&& post.base == pre.base
        &&& post.attached == pre.attached
        &&& post.derefs@ == pre.derefs@.push(
            DerefBuf { id: pre.needed@[pre.at as int].id, addr, bytes },
        )
        &&& post.pointer is None
        &&& if pre.at + 1 < pre.needed@.len() {
            post.known == pre.known && post.rows == pre.rows && post.needed == pre.needed
        } else {
            post.known == post.derefs@.len()
        }
    }

    fn round(&mut self, source: &ClassSource)
        ensures
            final(self).wf(*source),
            *final(self) == (Rebuild {
                known: final(self).known,
                rows: final(self).rows,
                needed: final(self).needed,
                at: 0,
                pointer: None,
                ..*old(self)
            }),
            final(self).known == old(self).derefs@.len(),
    {
        let input = FlattenInput {
            classes: source.classes,
            collapsed: source.collapsed,
            expanded: source.expanded,
            derefs: &self.derefs,
        };
        let rows = snapshot_rows(&input, self.class, self.base, source.buf);
        let needed = if self.attached {
            needed_derefs(&rows, source.expanded, &self.derefs)
        } else {
            Vec::new()
        };
        self.rows = rows;
        self.needed = needed;
        self.known = self.derefs.len();
        self.at = 0;
        self.pointer = None;
        assert(self.derefs@.take(self.known as int) =~= self.derefs@);
    }

    /// Starts with nothing read behind pointers.
    pub fn begin(source: &ClassSource, class: u128, base: usize, attached: bool) -> (r: Self)
        ensures
            r.wf(*source),
            r.class == class,
            r.base == base,
            r.attached == attached,
            r.derefs@.len() == 0,
            r.pointer is None,
    {
        let mut r = Rebuild {
            class,
            base,
            attached,
            derefs: Vec::new(),
            known: 0,
            rows: Vec::new(),
            needed: Vec::new(),
            at: 0,
            pointer: None,
        };
        r.round(source);
        r
    }

    /// What is to be read next.
    pub fn step(&self, source: &ClassSource) -> (s: RebuildStep)
        requires
            self.wf(*source),
        ensures
            s == self.next(*source),
            s is Settled <==> self.settled(),
    {
        if self.at >= self.needed.len() {
            return RebuildStep::Settled;
        }
        let need = &self.needed[self.at];
        match self.pointer {
            None => RebuildStep::Pointer(need.address),
            Some(p) => RebuildStep::Target {
                addr: p,
                len: deref_len(source.classes, p, need.target),
            },
        }
    }

    fn record(&mut self, source: &ClassSource, addr: usize, bytes: Vec<u8>)
        requires
            old(self).wf(*source),
            old(self).at < old(self).needed@.len(),
        ensures
            final(self).wf(*source),
            Self::recorded(*old(self), *final(self), addr, bytes),
    {
        let id = self.needed[self.at].id.clone();
        let ghost before = self.derefs@;
        record_deref(&mut self.derefs, id, addr, bytes);
        self.pointer = None;
        let rounds: usize = self.needed.len();
        if self.at + 1 < rounds {
            self.at += 1;
            assert(self.derefs@.take(self.known as int) =~= before.take(self.known as int));
        } else {
            self.round(source);
        }
    }

    /// The bytes that were read at the address of the pointer. Nothing is read
    /// behind a null pointer, nor of a class without bytes.
    pub fn pointer_read(&mut self, source: &ClassSource, bytes: &[u8])
        requires
            old(self).wf(*source),
            old(self).next(*source) is Pointer,
        ensures
            final(self).wf(*source),
            ({
                let p = read_pointer(bytes@);
                if behind(source.classes@, p, old(self).needed@[old(self).at as int].target) == 0 {
                    exists|none: Vec<u8>|
                        none@.len() == 0 && #[trigger] Self::recorded(
                            *old(self),
                            *final(self),
                            p,
                            none,
                        )
                } else {
                    *final(self) == (Rebuild { pointer: Some(p), ..*old(self) })
                }
            }),
    {
        let p: usize = pointer_value(bytes);
        let len: usize = deref_len(source.classes, p, self.needed[self.at].target);
        if len == 0 {
            let none: Vec<u8> = Vec::new();
            let ghost g = none;
            self.record(source, p, none);
            assert(g@.len() == 0 && Self::recorded(*old(self), *self, p, g));
        } else {
            self.pointer = Some(p);
        }
    }

    /// The bytes that were read of the class behind the pointer.
    pub fn target_read(&mut self, source: &ClassSource, bytes: Vec<u8>)
        requires
            old(self).wf(*source),
            old(self).next(*source) is Target,
        ensures
            final(self).wf(*source),
            Self::recorded(*old(self), *final(self), old(self).pointer->0, bytes),
    {
        if let Some(p) = self.pointer {
            self.record(source, p, bytes);
        }
    }
}

/// Once the rows are complete they are those of the class with everything that
/// was read, and no expanded pointer among them is left unread.
pub proof fn settled_rows_are_complete(r: Rebuild, source: ClassSource)
    requires
        r.wf(source),
        r.settled(),
    ensures
        rows_view(r.rows@) == class_rows(
            source.classes@,
            source.collapsed@,
            source.expanded@,
            r.derefs@,
            r.class,
            r.base,
            source.buf@,
        ),
        r.attached ==> deref_rows(r.rows@, source.expanded@, r.derefs@).len() == 0,
{
    assert(r.derefs@.take(r.known as int) =~= r.derefs@);
}

/// A pointer is read where its row lies, and behind it as many bytes as the class that
/// the row points at.
pub proof fn pointer_is_read_at_its_row(r: Rebuild, source: ClassSource)
    requires
        r.wf(source),
        !r.settled(),
    ensures
        exists|i: int|
            {
                &&& 0 <= i < r.rows@.len()
                &&& (#[trigger] r.rows@[i]).id_path@ == r.needed@[r.at as int].id@
                &&& crate::modules_panel::has_name(source.expanded@, r.rows@[i].id_path@)
                &&& r.pointer is None ==> r.next(source) == RebuildStep::Pointer(r.rows@[i].address)
                &&& r.pointer matches Some(p) ==> (r.rows@[i].pointer_target matches Some(t)
                    && r.next(source) == (RebuildStep::Target {
                    addr: p,
                    len: class_size(source.classes@, t),
                }))
            },
{
    let known = r.derefs@.take(r.known as int);
    let which = deref_rows(r.rows@, source.expanded@, known);
    let k = r.at as int;
    let i = which[k];
    assert(crate::class_view::wants_row(r.needed@[k], r.rows@, i));
    assert(which.contains(i));
    crate::class_view::expanded_pointers_are_read(r.rows@, source.expanded@, known, i);
    assert(r.rows@[i].id_path@ == r.needed@[k].id@);
}

/// What was read behind a pointer is found under its row.
pub proof fn recorded_bytes_are_found(pre: Rebuild, post: Rebuild, addr: usize, bytes: Vec<u8>)
    requires
        Rebuild::recorded(pre, post, addr, bytes),
        crate::class_view::deref_index(pre.derefs@, pre.needed@[pre.at as int].id@) is None,
    ensures
        crate::class_view::deref_index(post.derefs@, pre.needed@[pre.at as int].id@) matches Some(k)
            && post.derefs@[k].addr == addr && post.derefs@[k].bytes == bytes,
{
    assert(post.derefs@.drop_last() =~= pre.derefs@);
}

} // verus!
