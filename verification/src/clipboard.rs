//! The programs that put something into the clipboard of the desktop.

use crate::term::ClipboardTarget;
use vstd::prelude::*;

verus! {

/// A kind of desktop.
#[derive(Debug, Clone, Copy, PartialEq, Eq, Structural)]
pub enum Desktop {
    Mac,
    Linux,
    Windows,
    /// One whose clipboard cannot be reached.
    Unknown,
}

/// A program that takes what it reads into a clipboard.
#[derive(Debug, PartialEq, Eq)]
pub struct ClipboardProgram {
    pub program: &'static str,
    pub args: Vec<&'static str>,
}

/// What a list of programs says: their names and arguments.
pub open spec fn programs_view(list: Seq<ClipboardProgram>) -> Seq<(
    &'static str,
    Seq<&'static str>,
)> {
    Seq::new(list.len(), |i: int| (list[i].program, list[i].args@))
}

/// The programs to try, in their order, until one succeeds. Only on Linux is the primary selection
/// told apart.
pub open spec fn programs_for(desktop: Desktop, target: ClipboardTarget) -> Seq<(
    &'static str,
    Seq<&'static str>,
)> {
    match desktop {
        Desktop::Mac => seq![("pbcopy", seq![])],
        Desktop::Linux => match target {
            ClipboardTarget::Standard => seq![
                ("wl-copy", seq![]),
                ("xclip", seq!["-selection", "clipboard"]),
                ("xsel", seq!["--clipboard", "--input"]),
            ],
            ClipboardTarget::Primary => seq![
                ("wl-copy", seq!["--primary"]),
                ("xclip", seq!["-selection", "primary"]),
                ("xsel", seq!["--primary", "--input"]),
            ],
        },
        Desktop::Windows => seq![("clip.exe", seq![])],
        Desktop::Unknown => seq![],
    }
}

fn push_program(list: &mut Vec<ClipboardProgram>, program: &'static str, args: Vec<&'static str>)
    ensures
        programs_view(final(list)@) == programs_view(old(list)@).push((program, args@)),
{
    list.push(ClipboardProgram { program, args });
    assert(programs_view(list@) =~= programs_view(old(list)@).push((program, args@)));
}

/// The programs to try, in their order, until one succeeds.
pub fn clipboard_programs(desktop: Desktop, target: ClipboardTarget) -> (r: Vec<ClipboardProgram>)
    ensures
        programs_view(r@) == programs_for(desktop, target),
{
    let mut list: Vec<ClipboardProgram> = Vec::new();
    assert(programs_view(list@) =~= seq![]);
    match desktop {
        Desktop::Mac => push_program(&mut list, "pbcopy", vec![]),
        Desktop::Linux => match target {
            ClipboardTarget::Standard => {
                push_program(&mut list, "wl-copy", vec![]);
                push_program(&mut list, "xclip", vec!["-selection", "clipboard"]);
                push_program(&mut list, "xsel", vec!["--clipboard", "--input"]);
            },
            ClipboardTarget::Primary => {
                push_program(&mut list, "wl-copy", vec!["--primary"]);
                push_program(&mut list, "xclip", vec!["-selection", "primary"]);
                push_program(&mut list, "xsel", vec!["--primary", "--input"]);
            },
        },
        Desktop::Windows => push_program(&mut list, "clip.exe", vec![]),
        Desktop::Unknown => {},
    }
    assert(programs_view(list@) =~~= programs_for(desktop, target));
    list
}

/// On Linux the same programs are tried for both clipboards, in the same order, but told which one
/// is meant; elsewhere there is only one clipboard.
pub proof fn clipboards_are_told_apart(desktop: Desktop, i: int)
    ensures
        ({
            let standard = programs_for(desktop, ClipboardTarget::Standard);
            let primary = programs_for(desktop, ClipboardTarget::Primary);
            &&& standard.len() == primary.len()
            &&& 0 <= i < standard.len() ==> standard[i].0 == primary[i].0
            &&& desktop != Desktop::Linux ==> standard == primary
            &&& desktop != Desktop::Unknown ==> standard.len() > 0
        }),
{
}

} // verus!
