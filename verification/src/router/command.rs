//! The command router: a prefix, then a command name.

use vstd::prelude::*;

use crate::event::Content;
use crate::event::ContentView;
use crate::event::Event;
use crate::router::Router;
use crate::text::str_starts_with;

verus! {

/// Text `t` is a command call: it starts with one of `prefixes`, and after
/// stripping that prefix it starts with one of `commands`.  Starting with —
/// not equalling — the command is deliberate, so that a suffixed form such
/// as a trailing `@botname` still matches; it also lets any other trailing
/// text match, which callers should know.
pub open spec fn command_call(prefixes: Seq<String>, commands: Seq<String>, t: Seq<char>) -> bool {
    exists|i: int, j: int|
        0 <= i < prefixes.len() && 0 <= j < commands.len() && (#[trigger] prefixes[i])@.is_prefix_of(
            t,
        ) && (#[trigger] commands[j])@.is_prefix_of(t.skip(prefixes[i]@.len() as int))
}

/// Accepts text content that calls one of its commands through one of its
/// prefixes.
pub struct CommandRouter {
    pub prefixes: Vec<String>,
    pub command: Vec<String>,
}

impl CommandRouter {
    /// A router for the given prefixes and commands.
    pub fn new(prefixes: Vec<String>, command: Vec<String>) -> (r: Self)
        ensures
            r.prefixes@ == prefixes@,
            r.command@ == command@,
    {
        CommandRouter { prefixes, command }
    }

    /// A router for the given commands under the default `/` prefix.
    pub fn command(command: Vec<String>) -> (r: Self)
        ensures
            r.prefixes@.len() == 1,
            r.prefixes@[0]@ == "/"@,
            r.command@ == command@,
    {
        let mut prefixes: Vec<String> = Vec::new();
        prefixes.push("/".to_owned());
        CommandRouter { prefixes, command }
    }

    /// Does the text call one of the commands?
    pub fn text_applies(&self, t: &str) -> (r: bool)
        ensures
            r == command_call(self.prefixes@, self.command@, t@),
    {
        let tl = t.unicode_len();
        let np = self.prefixes.len();
        let mut i: usize = 0;
        while i < np
            invariant
                0 <= i <= np,
                np == self.prefixes@.len(),
                tl == t@.len(),
                forall|a: int, b: int|
                    0 <= a < i && 0 <= b < self.command@.len() ==> !((
                    #[trigger] self.prefixes@[a])@.is_prefix_of(t@) && (
                    #[trigger] self.command@[b])@.is_prefix_of(
                        t@.skip(self.prefixes@[a]@.len() as int),
                    )),
            decreases np - i,
        {
            let p = &self.prefixes[i];
            if str_starts_with(t, p.as_str()) {
                let plen = p.as_str().unicode_len();
                let rest = t.substring_char(plen, tl);
                proof {
                    assert(rest@ =~= t@.skip(plen as int));
                }
                let nc = self.command.len();
                let mut j: usize = 0;
                while j < nc
                    invariant
                        0 <= j <= nc,
                        nc == self.command@.len(),
                        0 <= i < self.prefixes@.len(),
                        (self.prefixes@[i as int])@.is_prefix_of(t@),
                        rest@ == t@.skip(self.prefixes@[i as int]@.len() as int),
                        forall|b: int|
                            0 <= b < j ==> !(#[trigger] self.command@[b])@.is_prefix_of(rest@),
                    decreases nc - j,
                {
                    if str_starts_with(rest, self.command[j].as_str()) {
                        assert(command_call(self.prefixes@, self.command@, t@)) by {
                            assert((self.prefixes@[i as int])@.is_prefix_of(t@));
                            assert((self.command@[j as int])@.is_prefix_of(
                                t@.skip(self.prefixes@[i as int]@.len() as int),
                            ));
                        }
                        return true;
                    }
                    j += 1;
                }
            }
            i += 1;
        }
        false
    }
}

impl Default for CommandRouter {
    /// The default command router: the `help` command under the `/` prefix.
    fn default() -> (r: Self)
        ensures
            r.prefixes@.len() == 1,
            r.prefixes@[0]@ == "/"@,
            r.command@.len() == 1,
            r.command@[0]@ == "help"@,
    {
        let mut prefixes: Vec<String> = Vec::new();
        prefixes.push("/".to_owned());
        let mut command: Vec<String> = Vec::new();
        command.push("help".to_owned());
        CommandRouter { prefixes, command }
    }
}

impl Router for CommandRouter {
    open spec fn spec_matches(&self, c: ContentView) -> bool {
        match c {
            ContentView::Text(t) => command_call(self.prefixes@, self.command@, t),
            _ => false,
        }
    }

    fn matches<E: Event>(&self, event: &E) -> (r: bool) {
        match event.content() {
            Content::Text(t) => self.text_applies(t.as_str()),
            _ => false,
        }
    }
}

} // verus!
