//! The command line's dispatch: which request a line makes, and the state
//! that the requests act on.
use crate::search_engine::{SearchEngine, DEFAULT_RESULTS_LIMIT};
use vstd::prelude::*;
use vstd::string::*;

verus! {

/// What a line typed at the prompt asks for.
#[derive(Debug, PartialEq, Eq, Structural)]
pub enum Request {
    /// `:?`: show the help.
    Help,
    /// `:C`: change the root directory and load its index.
    ChangeRoot,
    /// `:Q`: quit.
    Quit,
    /// `:U`: generate the index of the root again and store it.
    Update,
    /// Anything else: a pattern to browse the matches of.
    Query,
}

/// The request that a (trimmed) line makes.
pub open spec fn request_of(line: Seq<char>) -> Request {
    if line == ":?"@ {
        Request::Help
    } else if line == ":C"@ {
        Request::ChangeRoot
    } else if line == ":Q"@ {
        Request::Quit
    } else if line == ":U"@ {
        Request::Update
    } else {
        Request::Query
    }
}

/// The text that cancels a change of root.
pub open spec fn cancel_text() -> Seq<char> {
    ":x"@
}

fn str_eq(a: &str, b: &str) -> (r: bool)
    ensures
        r == (a@ == b@),
{
    let n = a.unicode_len();
    if n != b.unicode_len() {
        return false;
    }
    let mut i: usize = 0;
    while i < n
        invariant
            i <= n == a@.len() == b@.len(),
            forall|j: int| 0 <= j < i ==> a@[j] == b@[j],
        decreases n - i,
    {
        if a.get_char(i) != b.get_char(i) {
            return false;
        }
        i = i + 1;
    }
    assert(a@ =~= b@);
    true
}

/// The command line's state: the last line read and the engine.
pub struct Handle {
    command: String,
    engine: SearchEngine,
}

impl Handle {
    pub closed spec fn command(&self) -> Seq<char> {
        self.command@
    }

    pub closed spec fn engine_view(&self) -> SearchEngine {
        self.engine
    }

    /// A handle with no command yet and a new engine.
    pub fn new() -> (h: Handle)
        ensures
            h.command() == Seq::<char>::empty(),
            h.engine_view().index() == Seq::<Seq<char>>::empty(),
            h.engine_view().results() == Seq::<(Seq<char>, Seq<char>)>::empty(),
            h.engine_view().root() == "C:\\"@,
            h.engine_view().limit() == DEFAULT_RESULTS_LIMIT,
    {
        let h = Handle { command: String::new(), engine: SearchEngine::new() };
        h
    }

    pub fn get_command(&self) -> (r: &String)
        ensures
            r@ == self.command(),
    {
        &self.command
    }

    pub fn engine(&self) -> (r: &SearchEngine)
        ensures
            *r == self.engine_view(),
    {
        &self.engine
    }

    pub fn engine_mut(&mut self) -> (r: &mut SearchEngine)
        ensures
            *r == old(self).engine_view(),
            final(self).engine_view() == *final(r),
            final(self).command() == old(self).command(),
    {
        &mut self.engine
    }

    /// Handles the answer to a change of root: `:x` cancels; anything else
    /// becomes the root, whose index is to be loaded next.
    pub fn change_root(&mut self, path: String) -> (r: bool)
        ensures
            r == (path@ != cancel_text()),
            r ==> final(self).engine_view().root() == path@,
            !r ==> final(self).engine_view() == old(self).engine_view(),
            final(self).engine_view().index() == old(self).engine_view().index(),
            final(self).engine_view().limit() == old(self).engine_view().limit(),
            final(self).engine_view().results() == old(self).engine_view().results(),
            final(self).command() == old(self).command(),
    {
        if str_eq(path.as_str(), ":x") {
            return false;
        }
        self.engine.set_root_dir(path);
        true
    }
}

/// One turn of the command line: keeps `line` as the current command and
/// says which request it makes.
pub fn run_cli_mode(handle: &mut Handle, line: String) -> (r: Request)
    ensures
        r == request_of(line@),
        final(handle).command() == line@,
        final(handle).engine_view() == old(handle).engine_view(),
{
    let r = if str_eq(line.as_str(), ":?") {
        Request::Help
    } else if str_eq(line.as_str(), ":C") {
        Request::ChangeRoot
    } else if str_eq(line.as_str(), ":Q") {
        Request::Quit
    } else if str_eq(line.as_str(), ":U") {
        Request::Update
    } else {
        Request::Query
    };
    handle.command = line;
    r
}

} // verus!
