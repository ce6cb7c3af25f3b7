//! One query's browsing session: matches are listed in index order and
//! numbered from 0 for the whole query; every page of matches, and the end
//! of the index, waits for a command.
use crate::command::{command_of, parse_command, Command};
use crate::matcher::{match_of, Matcher};
use crate::paths::{file_name, file_name_of, lemma_parent_is_shorter, parent, parent_of};
use vstd::prelude::*;

verus! {

/// The number of matches listed before the session waits for a command.
pub const PAGE_SIZE: usize = 20;

/// What the next step of listing gives.
pub enum Listing {
    /// The entry at `position` matched; it is listed under `number`, with its
    /// file name and the text that matched in it.
    Match { number: usize, position: usize, name: String, matched: String },
    /// The entry at `position` did not match.
    Skipped { position: usize },
    /// A page is full, or the last entry was reached: a command is awaited.
    Pause,
    /// The query is over.
    Done,
}

/// What a command asks the caller to do.
pub enum Action {
    /// The query is over.
    End,
    /// Print this full path.
    Show(String),
    /// Open this path with the system's default handler.
    Open(String),
    /// The line held no valid number; another line is awaited.
    InputError,
    /// The number names no match of this query: nothing to do.
    Nothing,
}

/// The state of a session over an index of `len` entries.
pub struct Session {
    len: usize,
    found: Vec<usize>,
    next: usize,
    shown: usize,
    end_paused: bool,
    paused: bool,
    ended: bool,
}

impl Session {
    /// The index positions of the matches so far; a match's number is its
    /// place here.
    pub closed spec fn found(&self) -> Seq<usize> {
        self.found@
    }

    /// How many entries have been looked at.
    pub closed spec fn next(&self) -> nat {
        self.next as nat
    }

    /// Matches listed since the last pause.
    pub closed spec fn shown(&self) -> nat {
        self.shown as nat
    }

    pub closed spec fn len(&self) -> nat {
        self.len as nat
    }

    /// Whether the pause at the end of the index has happened.
    pub closed spec fn end_paused(&self) -> bool {
        self.end_paused
    }

    /// Whether a command is awaited.
    pub closed spec fn is_paused(&self) -> bool {
        self.paused
    }

    pub closed spec fn is_ended(&self) -> bool {
        self.ended
    }

    /// Entries are looked at no further than the index goes, a page holds at
    /// most `PAGE_SIZE` matches, and every match is an entry already looked at.
    pub open spec fn wf(&self) -> bool {
        &&& self.next() <= self.len()
        &&& self.shown() <= PAGE_SIZE
        &&& forall|i: int| 0 <= i < self.found().len() ==> #[trigger] self.found()[i] < self.next()
    }

    /// A session over an index of `len` entries, before anything is listed.
    pub fn new(len: usize) -> (s: Session)
        ensures
            s.wf(),
            s.len() == len,
            s.found() == Seq::<usize>::empty(),
            s.next() == 0,
            s.shown() == 0,
            !s.end_paused(),
            !s.is_paused(),
            !s.is_ended(),
    {
        Session {
            len,
            found: Vec::new(),
            next: 0,
            shown: 0,
            end_paused: false,
            paused: false,
            ended: false,
        }
    }

    pub fn is_over(&self) -> (r: bool)
        ensures
            r == self.is_ended(),
    {
        self.ended
    }

    /// One step of listing: the pause at the end of a non-empty index, the end
    /// of the query, the pause after a full page, or a look at the next entry.
    pub fn advance(&mut self, index: &Vec<String>, m: &Matcher) -> (r: Listing)
        requires
            old(self).wf(),
            !old(self).is_paused(),
            !old(self).is_ended(),
            index@.len() == old(self).len(),
            m.wf(),
        ensures
            final(self).wf(),
            final(self).len() == old(self).len(),
            old(self).next() == old(self).len() ==> {
                if old(self).len() > 0 && !old(self).end_paused() {
                    &&& r is Pause
                    &&& final(self).is_paused() && !final(self).is_ended()
                    &&& final(self).end_paused()
                    &&& final(self).found() == old(self).found()
                    &&& final(self).next() == old(self).next()
                } else {
                    &&& r is Done
                    &&& final(self).is_ended()
                    &&& final(self).found() == old(self).found()
                }
            },
            old(self).next() < old(self).len() && old(self).shown() == PAGE_SIZE ==> {
                &&& r is Pause
                &&& final(self).is_paused() && !final(self).is_ended()
                &&& final(self).shown() == 0
                &&& final(self).found() == old(self).found()
                &&& final(self).next() == old(self).next()
                &&& final(self).end_paused() == old(self).end_paused()
            },
            old(self).next() < old(self).len() && old(self).shown() < PAGE_SIZE ==> {
                let pos = old(self).next() as int;
                &&& final(self).next() == old(self).next() + 1
                &&& !final(self).is_paused() && !final(self).is_ended()
                &&& final(self).end_paused() == old(self).end_paused()
                &&& match match_of(m.pattern(), file_name_of(index@[pos]@)) {
                    Some(t) => {
                        &&& r matches Listing::Match { number, position, name, matched }
                        &&& number == old(self).found().len()
                        &&& position == pos
                        &&& name@ == file_name_of(index@[pos]@)
                        &&& matched@ == t
                        &&& final(self).found() == old(self).found().push(pos as usize)
                        &&& final(self).shown() == old(self).shown() + 1
                    },
                    None => {
                        &&& r matches Listing::Skipped { position }
                        &&& position == pos
                        &&& final(self).found() == old(self).found()
                        &&& final(self).shown() == old(self).shown()
                    },
                }
            },
    {
        if self.next == self.len {
            if self.len > 0 && !self.end_paused {
                self.end_paused = true;
                self.paused = true;
                return Listing::Pause;
            }
            self.ended = true;
            return Listing::Done;
        }
        if self.shown == PAGE_SIZE {
            let ghost before = self.found();
            self.shown = 0;
            self.paused = true;
            assert(self.found() == before);
            return Listing::Pause;
        }
        let pos = self.next;
        let outcome = m.first_match(file_name(index[pos].as_str()));
        self.record(index, outcome)
    }

    /// Takes the next entry, given what the query found in its file name: a
    /// match is numbered and listed, anything else is skipped.
    pub fn record(&mut self, index: &Vec<String>, outcome: Option<String>) -> (r: Listing)
        requires
            old(self).wf(),
            !old(self).is_paused(),
            !old(self).is_ended(),
            index@.len() == old(self).len(),
            old(self).next() < old(self).len(),
            old(self).shown() < PAGE_SIZE,
        ensures
            final(self).wf(),
            final(self).len() == old(self).len(),
            final(self).next() == old(self).next() + 1,
            !final(self).is_paused() && !final(self).is_ended(),
            final(self).end_paused() == old(self).end_paused(),
            match outcome {
                Some(t) => {
                    &&& r matches Listing::Match { number, position, name, matched }
                    &&& number == old(self).found().len()
                    &&& position == old(self).next()
                    &&& name@ == file_name_of(index@[old(self).next() as int]@)
                    &&& matched@ == t@
                    &&& final(self).found() == old(self).found().push(old(self).next() as usize)
                    &&& final(self).shown() == old(self).shown() + 1
                },
                None => {
                    &&& r matches Listing::Skipped { position }
                    &&& position == old(self).next()
                    &&& final(self).found() == old(self).found()
                    &&& final(self).shown() == old(self).shown()
                },
            },
    {
        let pos = self.next;
        self.next = self.next + 1;
        match outcome {
            Some(matched) => {
                let name = file_name(index[pos].as_str());
                let number = self.found.len();
                let ghost before = self.found();
                self.found.push(pos);
                self.shown = self.shown + 1;
                assert(self.found() == before.push(pos));
                assert forall|i: int| 0 <= i < self.found().len() implies #[trigger] self.found()[i] < self.next() by {
                    if i < before.len() {
                        assert(before == old(self).found());
                        assert(old(self).found()[i] < old(self).next());
                        assert(self.found()[i] == before[i]);
                    }
                }
                Listing::Match { number, position: pos, name: String::from_str(name), matched }
            },
            None => Listing::Skipped { position: pos },
        }
    }

    /// Handles the line read while paused. A quit ends the query; a line
    /// without a valid number leaves the session paused; any other line acts
    /// on the match with that number, counted from the start of the query, and
    /// resumes the listing.
    pub fn on_line(&mut self, index: &Vec<String>, line: &str) -> (r: Action)
        requires
            old(self).wf(),
            old(self).is_paused(),
            index@.len() == old(self).len(),
        ensures
            final(self).wf(),
            final(self).len() == old(self).len(),
            final(self).found() == old(self).found(),
            final(self).next() == old(self).next(),
            final(self).shown() == old(self).shown(),
            final(self).end_paused() == old(self).end_paused(),
            match command_of(line@) {
                Command::End => r is End && final(self).is_ended() && !final(self).is_paused(),
                Command::Invalid => r is InputError && final(self).is_paused()
                    && final(self).is_ended() == old(self).is_ended(),
                Command::ShowPath(n) => {
                    &&& !final(self).is_paused() && final(self).is_ended() == old(self).is_ended()
                    &&& if n < old(self).found().len() {
                        r matches Action::Show(p) && p@ == index@[old(self).found()[n as int] as int]@
                    } else {
                        r is Nothing
                    }
                },
                Command::Open(n) => {
                    &&& !final(self).is_paused() && final(self).is_ended() == old(self).is_ended()
                    &&& if n < old(self).found().len() {
                        r matches Action::Open(p) && p@ == index@[old(self).found()[n as int] as int]@
                    } else {
                        r is Nothing
                    }
                },
                Command::OpenParent(n) => {
                    &&& !final(self).is_paused() && final(self).is_ended() == old(self).is_ended()
                    &&& if n < old(self).found().len() {
                        &&& match parent_of(index@[old(self).found()[n as int] as int]@) {
                            Some(d) => r matches Action::Open(p) && p@ == d,
                            None => r is Nothing,
                        }
                        &&& r matches Action::Open(p) ==> p@ != index@[old(self).found()[n as int] as int]@
                    } else {
                        r is Nothing
                    }
                },
            },
    {
        match parse_command(line) {
            Command::End => {
                self.paused = false;
                self.ended = true;
                Action::End
            },
            Command::Invalid => Action::InputError,
            Command::ShowPath(n) => {
                self.paused = false;
                if n < self.found.len() {
                    Action::Show(index[self.found[n]].clone())
                } else {
                    Action::Nothing
                }
            },
            Command::Open(n) => {
                self.paused = false;
                if n < self.found.len() {
                    Action::Open(index[self.found[n]].clone())
                } else {
                    Action::Nothing
                }
            },
            Command::OpenParent(n) => {
                self.paused = false;
                if n < self.found.len() {
                    proof {
                        lemma_parent_is_shorter(index@[self.found@[n as int] as int]@);
                    }
                    match parent(index[self.found[n]].as_str()) {
                        Some(d) => Action::Open(String::from_str(d)),
                        None => Action::Nothing,
                    }
                } else {
                    Action::Nothing
                }
            },
        }
    }
}

} // verus!
