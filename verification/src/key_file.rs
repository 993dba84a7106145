//! Where the kernel key is kept, and how its file is read.
use vstd::prelude::*;
use vstd::string::StringExecFns;

use crate::text::{chars_of, string_of, trim, trim_exec};

verus! {

/// Where the key file lies.
#[derive(Debug)]
pub enum KeyPath {
    /// At this path.
    At(String),
    /// At its usual place below this home directory.
    BelowHome(String),
}

/// Where the key file usually lies, seen from the home directory.
pub open spec fn usual_place() -> Seq<char> {
    ".local/data/nemclass_kernel_key"@
}

impl KeyPath {
    /// The whole path. The usual place follows the home directory behind one `/`,
    /// which the directory may end in.
    pub open spec fn path_text(self) -> Seq<char> {
        match self {
            KeyPath::At(p) => p@,
            KeyPath::BelowHome(h) => if h@.len() > 0 && h@.last() == '/' {
                h@ + usual_place()
            } else {
                h@ + "/"@ + usual_place()
            },
        }
    }

    pub fn path(&self) -> (s: String)
        ensures
            s@ == self.path_text(),
    {
        match self {
            KeyPath::At(p) => p.clone(),
            KeyPath::BelowHome(h) => {
                let c = chars_of(h.as_str());
                let mut s = h.clone();
                if c.len() == 0 || c[c.len() - 1] != '/' {
                    s.append("/");
                }
                s.append(".local/data/nemclass_kernel_key");
                s
            },
        }
    }
}

/// The key file is where the override says, or else below the home directory.
/// Texts of white space say nothing.
pub open spec fn is_key_path(over: Option<Seq<char>>, home: Option<Seq<char>>, r: Option<KeyPath>) -> bool {
    if over is Some && trim(over->0).len() > 0 {
        r matches Some(KeyPath::At(p)) && p@ == trim(over->0)
    } else if home is Some && trim(home->0).len() > 0 {
        r matches Some(KeyPath::BelowHome(p)) && p@ == trim(home->0)
    } else {
        r is None
    }
}

fn trimmed(s: &str) -> (t: String)
    ensures
        t@ == trim(s@),
{
    let c = chars_of(s);
    string_of(trim_exec(c.as_slice()))
}

/// The views of optional texts.
pub open spec fn opt_view(s: Option<&str>) -> Option<Seq<char>> {
    match s {
        Some(t) => Some(t@),
        None => None,
    }
}

/// Where the key file lies, given the two variables of the environment that say
/// so.
pub fn kernel_key_path(over: Option<&str>, home: Option<&str>) -> (r: Option<KeyPath>)
    ensures
        is_key_path(opt_view(over), opt_view(home), r),
{
    if let Some(v) = over {
        let t = trimmed(v);
        if !t.as_str().is_empty() {
            return Some(KeyPath::At(t));
        }
    }
    if let Some(h) = home {
        let t = trimmed(h);
        if !t.as_str().is_empty() {
            return Some(KeyPath::BelowHome(t));
        }
    }
    None
}

/// The key that the file holds, where it could be read: its text without the
/// white space around it, unless nothing is left.
pub fn read_kernel_key(raw: Option<&str>) -> (r: Option<String>)
    ensures
        match r {
            Some(k) => raw is Some && k@ == trim(raw->0@) && k@.len() > 0,
            None => raw is None || trim(raw->0@).len() == 0,
        },
{
    match raw {
        None => None,
        Some(t) => {
            let k = trimmed(t);
            if k.as_str().is_empty() {
                None
            } else {
                Some(k)
            }
        },
    }
}

} // verus!
