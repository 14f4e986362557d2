//! The command that opens a note in an editor.

use vstd::prelude::*;
use crate::text::{chars_of, string_of, str_views, vec_views, words, words_of};

verus! {

/// An editor, known by its command line.
pub struct EditorSession {
    command: String,
}

/// The program of a command line: its first word, or `notepad` where it
/// has none.
pub open spec fn program_of(command: Seq<char>) -> Seq<char> {
    let ws = words_of(command);
    if ws.len() == 0 {
        "notepad"@
    } else {
        ws[0]
    }
}

/// The arguments of a command line: its words after the first.
pub open spec fn arguments_of(command: Seq<char>) -> Seq<Seq<char>> {
    let ws = words_of(command);
    if ws.len() == 0 {
        seq![]
    } else {
        ws.subrange(1, ws.len() as int)
    }
}

impl EditorSession {
    /// The command line of the editor.
    pub closed spec fn command_line(&self) -> Seq<char> {
        self.command@
    }

    /// A session that will run the given command line.
    pub fn new(editor_command: String) -> (session: EditorSession)
        ensures
            session.command_line() == editor_command@,
    {
        EditorSession { command: editor_command }
    }

    /// Splits the command line at white space into the program and its
    /// arguments.
    pub fn parse_command(&self) -> (r: (String, Vec<String>))
        ensures
            r.0@ == program_of(self.command_line()),
            str_views(r.1@) == arguments_of(self.command_line()),
    {
        let parts = words(&chars_of(self.command.as_str()));
        if parts.len() == 0 {
            let args: Vec<String> = Vec::new();
            assert(str_views(args@) =~= Seq::<Seq<char>>::empty());
            return (string_of(&chars_of("notepad")), args);
        }
        assert(vec_views(parts@)[0] == parts@[0]@);
        let program = string_of(&parts[0]);
        let mut args: Vec<String> = Vec::new();
        let mut i: usize = 1;
        while i < parts.len()
            invariant
                1 <= i <= parts.len(),
                args.len() == i - 1,
                forall|j: int| 0 <= j < args.len() ==> args@[j]@ == parts@[j + 1]@,
            decreases parts.len() - i,
        {
            args.push(string_of(&parts[i]));
            i += 1;
        }
        assert(str_views(args@) =~= vec_views(parts@).subrange(1, parts.len() as int));
        (program, args)
    }
}

} // verus!
