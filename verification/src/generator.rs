//! The code generator panel.
use vstd::prelude::*;
use vstd::string::StringExecFns;

use crate::text::{chars_of, decimal, decimal_exec, says, string_of};

verus! {

/// A language that code is generated in.
#[derive(Clone, Copy, Debug, PartialEq, Eq, Structural)]
pub enum Language {
    Cpp,
    CSharp,
    Rust,
}

/// How a language is called.
pub open spec fn language_label(l: Language) -> Seq<char> {
    match l {
        Language::Cpp => "C++"@,
        Language::CSharp => "C#"@,
        Language::Rust => "Rust"@,
    }
}

/// The extension of the files of a language.
pub open spec fn language_extension(l: Language) -> Seq<char> {
    match l {
        Language::Cpp => "hpp"@,
        Language::CSharp => "cs"@,
        Language::Rust => "rs"@,
    }
}

pub fn label_for(language: Language) -> (s: &'static str)
    ensures
        s@ == language_label(language),
{
    match language {
        Language::Cpp => "C++",
        Language::CSharp => "C#",
        Language::Rust => "Rust",
    }
}

pub fn extension_for(language: Language) -> (s: &'static str)
    ensures
        s@ == language_extension(language),
{
    match language {
        Language::Cpp => "hpp",
        Language::CSharp => "cs",
        Language::Rust => "rs",
    }
}

/// The languages, in the order in which they are offered.
pub fn languages() -> (v: Vec<Language>)
    ensures
        v@ == seq![Language::Cpp, Language::CSharp, Language::Rust],
{
    let v = vec![Language::Cpp, Language::CSharp, Language::Rust];
    assert(v@ =~= seq![Language::Cpp, Language::CSharp, Language::Rust]);
    v
}

/// The panel: the language, what was generated last, and what is said of it.
#[derive(Debug)]
pub struct GeneratorPanel {
    pub language: Language,
    pub output: Option<String>,
    pub status: Option<String>,
}

/// What became of a file that was to be saved.
#[derive(Debug)]
pub enum SaveOutcome {
    Cancelled,
    /// Saved at this path.
    Saved(String),
    Failed(String),
}

/// What is said of a file that was to be saved.
pub open spec fn save_text(o: SaveOutcome) -> Seq<char> {
    match o {
        SaveOutcome::Cancelled => "Save cancelled"@,
        SaveOutcome::Saved(p) => "Saved to "@ + p@,
        SaveOutcome::Failed(e) => "Save failed: "@ + e@,
    }
}

impl Default for GeneratorPanel {
    fn default() -> (p: Self)
        ensures
            p.language == Language::Cpp,
            p.output is None,
            p.status is None,
    {
        GeneratorPanel { language: Language::Cpp, output: None, status: None }
    }
}

impl GeneratorPanel {
    /// Code was generated.
    pub fn generated(&mut self, code: String)
        ensures
            *final(self) == (GeneratorPanel { output: Some(code), status: None, ..*old(self) }),
    {
        self.output = Some(code);
        self.status = None;
    }

    /// The code was copied to the clipboard; only where there is some.
    pub fn copied(&mut self)
        ensures
            if old(self).output is Some {
                *final(self) == (GeneratorPanel { status: final(self).status, ..*old(self) })
                    && says(final(self).status, "Copied to clipboard"@)
            } else {
                *final(self) == *old(self)
            },
    {
        if self.output.is_some() {
            self.status = Some("Copied to clipboard".to_string());
        }
    }

    /// The code was to be saved.
    pub fn saved(&mut self, outcome: SaveOutcome)
        ensures
            *final(self) == (GeneratorPanel { status: final(self).status, ..*old(self) }),
            says(final(self).status, save_text(outcome)),
    {
        let text = match outcome {
            SaveOutcome::Cancelled => "Save cancelled".to_string(),
            SaveOutcome::Saved(p) => {
                let mut s = "Saved to ".to_string();
                s.append(p.as_str());
                s
            },
            SaveOutcome::Failed(e) => {
                let mut s = "Save failed: ".to_string();
                s.append(e.as_str());
                s
            },
        };
        self.status = Some(text);
    }
}

/// The number of lines of a text. A line break at the end starts no line.
pub open spec fn line_count(s: Seq<char>) -> nat
    decreases s.len(),
{
    if s.len() == 0 {
        0
    } else if s[0] == '\n' {
        1 + line_count(s.subrange(1, s.len() as int))
    } else if s.len() == 1 || s[1] == '\n' {
        if s.len() == 1 {
            1
        } else {
            1 + line_count(s.subrange(2, s.len() as int))
        }
    } else {
        line_count(s.subrange(1, s.len() as int))
    }
}

fn line_count_exec(s: &Vec<char>) -> (n: usize)
    ensures
        n == line_count(s@),
        n <= s@.len(),
{
    let mut n: usize = 0;
    let mut i: usize = 0;
    assert(s@.subrange(0, s@.len() as int) =~= s@);
    while i < s.len()
        invariant
            i <= s@.len(),
            n <= i,
            n + line_count(s@.subrange(i as int, s@.len() as int)) == line_count(s@),
        decreases s@.len() - i,
    {
        let ghost rest = s@.subrange(i as int, s@.len() as int);
        proof {
            assert(rest.subrange(1, rest.len() as int) =~= s@.subrange(i + 1, s@.len() as int));
            if rest.len() >= 2 {
                assert(rest.subrange(2, rest.len() as int) =~= s@.subrange(
                    i + 2,
                    s@.len() as int,
                ));
            }
        }
        if s[i] == '\n' {
            n += 1;
            i += 1;
        } else if s.len() - i == 1 {
            n += 1;
            i += 1;
            assert(s@.subrange(i as int, s@.len() as int) =~= Seq::<char>::empty());
        } else if s[i + 1] == '\n' {
            n += 1;
            i += 2;
        } else {
            i += 1;
        }
    }
    n
}

/// What is said of generated code.
pub fn output_summary(classes: usize, enums: usize, code: &str) -> (s: String)
    ensures
        s@ == decimal(classes as nat) + " class(es), "@ + decimal(enums as nat) + " enum(s), "@
            + decimal(line_count(code@)) + " lines"@,
{
    let c = chars_of(code);
    let lines: usize = line_count_exec(&c);
    let mut s = string_of(decimal_exec(classes as u64).as_slice());
    s.append(" class(es), ");
    let e = string_of(decimal_exec(enums as u64).as_slice());
    s.append(e.as_str());
    s.append(" enum(s), ");
    let l = string_of(decimal_exec(lines as u64).as_slice());
    s.append(l.as_str());
    s.append(" lines");
    s
}

/// How many line ends the text has.
pub open spec fn line_ends(s: Seq<char>) -> nat
    decreases s.len(),
{
    if s.len() == 0 {
        0
    } else {
        line_ends(s.subrange(1, s.len() as int)) + if s[0] == '\n' {
            1nat
        } else {
            0
        }
    }
}

/// A text has as many lines as line ends, and one more where its last line has no end.
pub proof fn lines_are_counted_by_their_ends(s: Seq<char>)
    ensures
        s.len() == 0 ==> line_count(s) == 0,
        s.len() > 0 && s.last() == '\n' ==> line_count(s) == line_ends(s),
        s.len() > 0 && s.last() != '\n' ==> line_count(s) == line_ends(s) + 1,
    decreases s.len(),
{
    if s.len() > 0 {
        let t = s.subrange(1, s.len() as int);
        lines_are_counted_by_their_ends(t);
        if s[0] != '\n' && s.len() > 1 && s[1] == '\n' {
            let u = s.subrange(2, s.len() as int);
            assert(t.subrange(1, t.len() as int) =~= u);
            lines_are_counted_by_their_ends(u);
        }
        reveal_with_fuel(line_ends, 2);
    }
}

} // verus!
