//! Names for new classes.
use vstd::prelude::*;
use vstd::string::StringExecFns;

use crate::model::ClassNode;
use crate::text::{decimal, decimal_exec, lemma_digits_round_trip, same_str, string_of, IntError};

verus! {

/// Some class has that name.
pub open spec fn name_taken(classes: Seq<ClassNode>, name: Seq<char>) -> bool {
    exists|i: int| 0 <= i < classes.len() && (#[trigger] classes[i]).name@ == name
}

/// The name of the class number `n`, where names begin with `head`.
pub open spec fn numbered_name(head: Seq<char>, n: nat) -> Seq<char> {
    head + decimal(n)
}

/// `name` is the first of the numbered names that no class has.
pub open spec fn is_free_name(head: Seq<char>, classes: Seq<ClassNode>, name: Seq<char>) -> bool {
    exists|n: nat|
        1 <= n && name == #[trigger] numbered_name(head, n) && !name_taken(classes, name) && forall|m: nat|
            1 <= m < n ==> name_taken(classes, #[trigger] numbered_name(head, m))
}

proof fn lemma_numbered_distinct(head: Seq<char>, a: nat, b: nat)
    requires
        numbered_name(head, a) == numbered_name(head, b),
    ensures
        a == b,
{
    let max = (a + b) as int;
    lemma_digits_round_trip(a, 10, false, max, IntError::PosOverflow);
    lemma_digits_round_trip(b, 10, false, max, IntError::PosOverflow);
    let k = head.len() as int;
    assert(decimal(a) =~= numbered_name(head, a).subrange(k, numbered_name(head, a).len() as int));
    assert(decimal(b) =~= numbered_name(head, b).subrange(k, numbered_name(head, b).len() as int));
}

/// As many numbered names can be taken as there are classes.
proof fn lemma_names_taken(head: Seq<char>, classes: Seq<ClassNode>, taken: Set<nat>)
    requires
        taken.finite(),
        forall|n: nat| taken.contains(n) ==> name_taken(classes, #[trigger] numbered_name(head, n)),
    ensures
        taken.len() <= classes.len(),
    decreases classes.len(),
{
    if taken.len() == 0 {
        return ;
    }
    if classes.len() == 0 {
        let n = taken.choose();
        assert(taken.contains(n));
        assert(name_taken(classes, numbered_name(head, n)));
    } else {
        let rest = classes.drop_last();
        let last = classes.last().name@;
        if exists|n: nat| taken.contains(n) && last == #[trigger] numbered_name(head, n) {
            let k = choose|n: nat| taken.contains(n) && last == #[trigger] numbered_name(head, n);
            let less = taken.remove(k);
            assert forall|n: nat| less.contains(n) implies name_taken(
                rest,
                #[trigger] numbered_name(head, n),
            ) by {
                assert(taken.contains(n));
                assert(name_taken(classes, numbered_name(head, n)));
                let i = choose|i: int|
                    0 <= i < classes.len() && (#[trigger] classes[i]).name@ == numbered_name(head, n);
                if i == classes.len() - 1 {
                    lemma_numbered_distinct(head, n, k);
                }
                assert(rest[i].name@ == numbered_name(head, n));
            }
            lemma_names_taken(head, rest, less);
        } else {
            assert forall|n: nat| taken.contains(n) implies name_taken(
                rest,
                #[trigger] numbered_name(head, n),
            ) by {
                assert(name_taken(classes, numbered_name(head, n)));
                let i = choose|i: int|
                    0 <= i < classes.len() && (#[trigger] classes[i]).name@ == numbered_name(head, n);
                assert(rest[i].name@ == numbered_name(head, n));
            }
            lemma_names_taken(head, rest, taken);
        }
    }
}

fn name_taken_exec(classes: &Vec<ClassNode>, name: &str) -> (r: bool)
    ensures
        r == name_taken(classes@, name@),
{
    let mut i: usize = 0;
    while i < classes.len()
        invariant
            i <= classes@.len(),
            forall|j: int| 0 <= j < i ==> (#[trigger] classes@[j]).name@ != name@,
        decreases classes@.len() - i,
    {
        if same_str(classes[i].name.as_str(), name) {
            assert(classes@[i as int].name@ == name@);
            return true;
        }
        i += 1;
    }
    false
}

/// The set of the numbers from 1 to `n`.
spec fn up_to(n: nat) -> Set<nat>
    decreases n,
{
    if n == 0 {
        Set::empty()
    } else {
        up_to((n - 1) as nat).insert(n)
    }
}

proof fn lemma_up_to(n: nat)
    ensures
        up_to(n).finite(),
        up_to(n).len() == n,
        forall|m: nat| #[trigger] up_to(n).contains(m) <==> 1 <= m <= n,
    decreases n,
{
    if n > 0 {
        lemma_up_to((n - 1) as nat);
    }
}

/// The first of the names with the numbers 1, 2 and so on behind `head` that no
/// class has.
pub fn free_name(head: &str, classes: &Vec<ClassNode>) -> (name: String)
    requires
        classes@.len() < usize::MAX,
    ensures
        is_free_name(head@, classes@, name@),
{
    let count: usize = classes.len();
    let mut n: u64 = 1;
    loop
        invariant
            1 <= n,
            count == classes@.len(),
            count < usize::MAX,
            forall|m: nat| 1 <= m < n ==> name_taken(classes@, #[trigger] numbered_name(head@, m)),
        decreases classes@.len() + 2 - n,
    {
        proof {
            lemma_up_to((n - 1) as nat);
            lemma_names_taken(head@, classes@, up_to((n - 1) as nat));
        }
        let mut name = head.to_string();
        let d = string_of(decimal_exec(n).as_slice());
        name.append(d.as_str());
        assert(name@ == numbered_name(head@, n as nat));
        if !name_taken_exec(classes, name.as_str()) {
            return name;
        }
        proof {
            lemma_up_to(n as nat);
            assert forall|m: nat| up_to(n as nat).contains(m) implies name_taken(
                classes@,
                #[trigger] numbered_name(head@, m),
            ) by {}
            lemma_names_taken(head@, classes@, up_to(n as nat));
            assert(n <= count);
        }
        n += 1;
    }
}

} // verus!
