//! The search box and the name box: the text typed so far, the chosen hit,
//! the error under a name, and how keys, confirming and closing change them.

use vstd::prelude::*;
use vstd::string::*;

use crate::media::fs::{message, FsError};
use crate::media::types::Entry;
use crate::path::{file_name_of, LibPath};
use crate::text::same_text;

verus! {

/// `char::is_control`: the C0 and C1 control codes.
pub open spec fn is_control(c: char) -> bool {
    let u = c as u32;
    u <= 0x1F || (0x7F <= u && u <= 0x9F)
}

pub fn char_is_control(c: char) -> (r: bool)
    ensures
        r == is_control(c),
{
    let u = c as u32;
    u <= 0x1F || (0x7F <= u && u <= 0x9F)
}

/// Typed text that goes into a box: it has no control character and the
/// control key is not held.
pub open spec fn accepted(typed: Option<Seq<char>>, control: bool) -> bool {
    &&& typed is Some
    &&& !control
    &&& forall|i: int| 0 <= i < typed->0.len() ==> !is_control(#[trigger] typed->0[i])
}

pub open spec fn typed_view(typed: Option<&str>) -> Option<Seq<char>> {
    match typed {
        Some(t) => Some(t@),
        None => None,
    }
}

/// `String::pop`: the last character goes, when there is one.
pub open spec fn popped(q: Seq<char>) -> Seq<char> {
    if q.len() > 0 {
        q.drop_last()
    } else {
        q
    }
}

fn no_controls(t: &str) -> (r: bool)
    ensures
        r == forall|i: int| 0 <= i < t@.len() ==> !is_control(#[trigger] t@[i]),
{
    let n = t.unicode_len();
    let mut i: usize = 0;
    while i < n
        invariant
            n == t@.len(),
            i <= n,
            forall|k: int| 0 <= k < i ==> !is_control(#[trigger] t@[k]),
        decreases n - i,
    {
        if char_is_control(t.get_char(i)) {
            return false;
        }
        i = i + 1;
    }
    true
}

fn takes_text(typed: Option<&str>, control: bool) -> (r: bool)
    ensures
        r == accepted(typed_view(typed), control),
{
    match typed {
        Some(t) => {
            assert(typed_view(typed)->0 == t@);
            !control && no_controls(t)
        },
        None => false,
    }
}

fn pop_char(q: &String) -> (r: String)
    ensures
        r@ == popped(q@),
{
    let n = q.as_str().unicode_len();
    if n > 0 {
        String::from_str(q.as_str().substring_char(0, n - 1))
    } else {
        String::from_str(q.as_str())
    }
}

/// The quick search: open or not, the query, and which hit is chosen.
pub struct SearchBox {
    pub open: bool,
    pub query: String,
    pub choice: usize,
}

impl SearchBox {
    /// Closed boxes hold no query and choose the first hit.
    pub open spec fn wf(&self) -> bool {
        !self.open ==> self.query@.len() == 0 && self.choice == 0
    }

    pub fn new() -> (r: SearchBox)
        ensures
            r.wf(),
            !r.open,
            r.query@.len() == 0,
            r.choice == 0,
    {
        SearchBox { open: false, query: String::new(), choice: 0 }
    }

    /// Closes the box, forgetting the query; tells whether it was open.
    pub fn close(&mut self) -> (was_open: bool)
        requires
            old(self).wf(),
        ensures
            was_open == old(self).open,
            final(self).wf(),
            !final(self).open,
            final(self).query@.len() == 0,
            final(self).choice == 0,
    {
        if !self.open {
            return false;
        }
        self.open = false;
        self.query = String::new();
        self.choice = 0;
        true
    }

    /// Opens an empty box, or closes an open one.
    pub fn toggle(&mut self)
        requires
            old(self).wf(),
        ensures
            final(self).wf(),
            final(self).open == !old(self).open,
            final(self).query@.len() == 0,
            final(self).choice == 0,
    {
        if self.open {
            self.close();
        } else {
            self.open = true;
            self.query = String::new();
            self.choice = 0;
        }
    }

    /// A key pressed while the box may be open, with `hit_count` hits for
    /// the current query. Backspace drops the last character, up and down
    /// move the choice within the hits, and typed text without control
    /// characters is appended; an edit chooses the first hit again.
    /// Tells whether the key was used.
    pub fn on_key(&mut self, key: &str, typed: Option<&str>, control: bool, hit_count: usize) -> (used: bool)
        requires
            old(self).wf(),
        ensures
            final(self).wf(),
            final(self).open == old(self).open,
            !old(self).open ==> !used && final(self).query@ == old(self).query@ && final(self).choice
                == old(self).choice,
            old(self).open && key@ == "backspace"@ ==> used && final(self).query@ == popped(
                old(self).query@,
            ) && final(self).choice == 0,
            old(self).open && key@ == "up"@ ==> used && final(self).query@ == old(self).query@
                && final(self).choice == (if old(self).choice > 0 {
                old(self).choice - 1
            } else {
                0
            }),
            old(self).open && key@ == "down"@ ==> used && final(self).query@ == old(self).query@
                && final(self).choice == (if old(self).choice + 1 < hit_count {
                old(self).choice + 1
            } else if hit_count > 0 {
                hit_count - 1
            } else {
                0
            }),
            old(self).open && key@ != "backspace"@ && key@ != "up"@ && key@ != "down"@ ==> (if accepted(
                typed_view(typed),
                control,
            ) {
                used && final(self).query@ == old(self).query@ + typed_view(typed)->0
                    && final(self).choice == 0
            } else {
                !used && final(self).query@ == old(self).query@ && final(self).choice == old(
                    self,
                ).choice
            }),
    {
        proof {
            reveal_strlit("backspace");
            reveal_strlit("up");
            reveal_strlit("down");
            assert("backspace"@ != "up"@ && "backspace"@ != "down"@ && "up"@ != "down"@) by {
                assert("backspace"@.len() != "up"@.len());
                assert("backspace"@.len() != "down"@.len());
                assert("up"@.len() != "down"@.len());
            }
        }
        if !self.open {
            return false;
        }
        if same_text(key, "backspace") {
            self.query = pop_char(&self.query);
            self.choice = 0;
            return true;
        }
        if same_text(key, "up") {
            if self.choice > 0 {
                self.choice = self.choice - 1;
            }
            return true;
        }
        if same_text(key, "down") {
            let last = if hit_count > 0 {
                hit_count - 1
            } else {
                0
            };
            if self.choice < last {
                self.choice = self.choice + 1;
            } else {
                self.choice = last;
            }
            return true;
        }
        if takes_text(typed, control) {
            match typed {
                Some(t) => self.query.append(t),
                None => {},
            }
            self.choice = 0;
            return true;
        }
        false
    }

    /// Enter: the box closes and the chosen hit, when there is one, is the
    /// entry to open.
    pub fn confirm(&mut self, hits: &Vec<usize>) -> (r: Option<usize>)
        requires
            old(self).wf(),
        ensures
            final(self).wf(),
            !final(self).open,
            final(self).query@.len() == 0,
            old(self).choice < hits@.len() ==> r == Some(hits@[old(self).choice as int]),
            old(self).choice >= hits@.len() ==> r is None,
    {
        let picked = if self.choice < hits.len() {
            Some(hits[self.choice])
        } else {
            None
        };
        self.close();
        picked
    }
}

/// What the name box names.
#[derive(Debug, PartialEq, Eq)]
pub enum NameKind {
    /// A new folder in the current folder.
    NewFolder,
    /// A new folder inside the given folder.
    NewFolderIn(LibPath),
    /// A new name for the entry at this index.
    Rename(usize),
}

/// What confirming the name box asks for.
#[derive(Debug, PartialEq, Eq)]
pub enum NameStep {
    /// No name box is open.
    Nothing,
    /// The box closed with nothing to do.
    Closed,
    /// Create a folder with the typed name in `parent`; the box stays open
    /// until the outcome is known.
    Create(LibPath, String),
    /// The box closed; rename `from` to the typed name, and show it in the
    /// lightbox again when `open`.
    Rename(LibPath, String, bool),
}

/// The entry's file name, or nothing when its path has none.
pub open spec fn entry_file_name(e: Entry) -> Seq<char> {
    match file_name_of(e.spec_path()) {
        Some(n) => n,
        None => Seq::empty(),
    }
}

pub fn file_name_text(entry: &Entry) -> (r: String)
    ensures
        r@ == entry_file_name(*entry),
{
    match entry.path().file_name() {
        Some(n) => n,
        None => String::new(),
    }
}

/// The dialog that asks for a folder name or a new name.
pub struct NameBox {
    pub kind: Option<NameKind>,
    pub query: String,
    pub error: Option<String>,
}

impl NameBox {
    pub fn new() -> (r: NameBox)
        ensures
            r.kind is None,
            r.query@.len() == 0,
            r.error is None,
    {
        NameBox { kind: None, query: String::new(), error: None }
    }

    /// Opens the box for `kind`: a rename starts from the entry's file
    /// name, a new folder from nothing.
    pub fn open(&mut self, kind: NameKind, entries: &Vec<Entry>)
        ensures
            final(self).kind == Some(kind),
            final(self).error is None,
            final(self).query@ == (match kind {
                NameKind::Rename(i) => if i < entries@.len() {
                    entry_file_name(entries@[i as int])
                } else {
                    Seq::empty()
                },
                _ => Seq::empty(),
            }),
    {
        let query = match &kind {
            NameKind::Rename(i) => if *i < entries.len() {
                file_name_text(&entries[*i])
            } else {
                String::new()
            },
            _ => String::new(),
        };
        self.query = query;
        self.error = None;
        self.kind = Some(kind);
    }

    /// Closes the box; tells whether it was open.
    pub fn close(&mut self) -> (was_open: bool)
        ensures
            was_open == old(self).kind is Some,
            final(self).kind is None,
            was_open ==> final(self).query@.len() == 0 && final(self).error is None,
            !was_open ==> final(self).query@ == old(self).query@ && final(self).error == old(
                self,
            ).error,
    {
        if self.kind.is_none() {
            return false;
        }
        self.kind = None;
        self.query = String::new();
        self.error = None;
        true
    }

    /// A key pressed while the box may be open: backspace drops the last
    /// character and typed text without control characters is appended;
    /// either clears the error. Tells whether the key was used.
    pub fn on_key(&mut self, key: &str, typed: Option<&str>, control: bool) -> (used: bool)
        ensures
            final(self).kind == old(self).kind,
            old(self).kind is None ==> !used && final(self).query@ == old(self).query@
                && final(self).error == old(self).error,
            old(self).kind is Some && key@ == "backspace"@ ==> used && final(self).query@ == popped(
                old(self).query@,
            ) && final(self).error is None,
            old(self).kind is Some && key@ != "backspace"@ ==> (if accepted(typed_view(typed), control) {
                used && final(self).query@ == old(self).query@ + typed_view(typed)->0
                    && final(self).error is None
            } else {
                !used && final(self).query@ == old(self).query@ && final(self).error == old(
                    self,
                ).error
            }),
    {
        if self.kind.is_none() {
            return false;
        }
        if same_text(key, "backspace") {
            self.query = pop_char(&self.query);
            self.error = None;
            return true;
        }
        if takes_text(typed, control) {
            match typed {
                Some(t) => self.query.append(t),
                None => {},
            }
            self.error = None;
            return true;
        }
        false
    }

    /// Enter. A new folder in the current folder is refused in flat mode;
    /// a rename of an entry that is gone closes the box.
    pub fn confirm(
        &mut self,
        flat_mode: bool,
        folder: &LibPath,
        entries: &Vec<Entry>,
        selected: Option<usize>,
    ) -> (r: NameStep)
        ensures
            old(self).kind is None ==> r == NameStep::Nothing && final(self).kind is None,
            old(self).kind == Some(NameKind::NewFolder) ==> (if flat_mode {
                r == NameStep::Closed && final(self).kind is None
            } else {
                r matches NameStep::Create(p, n) && p@ == folder@ && n@ == old(self).query@
                    && final(self).kind == old(self).kind
            }),
            old(self).kind matches Some(NameKind::NewFolderIn(parent)) ==> r matches NameStep::Create(
                p,
                n,
            ) && p@ == parent@ && n@ == old(self).query@ && final(self).kind == old(self).kind,
            old(self).kind matches Some(NameKind::Rename(i)) ==> final(self).kind is None && (if i
                < entries@.len() {
                r matches NameStep::Rename(from, n, open) && from@ == entries@[i as int].spec_path()
                    && n@ == old(self).query@ && open == (selected == Some(i))
            } else {
                r == NameStep::Closed
            }),
            final(self).kind == old(self).kind ==> final(self).query@ == old(self).query@,
    {
        let name = String::from_str(self.query.as_str());
        match &self.kind {
            None => NameStep::Nothing,
            Some(NameKind::NewFolder) => {
                if flat_mode {
                    self.close();
                    NameStep::Closed
                } else {
                    NameStep::Create(folder.copied(), name)
                }
            },
            Some(NameKind::NewFolderIn(parent)) => NameStep::Create(parent.copied(), name),
            Some(NameKind::Rename(i)) => {
                let i = *i;
                if i < entries.len() {
                    let from = entries[i].path().copied();
                    let open = match selected {
                        Some(s) => s == i,
                        None => false,
                    };
                    self.close();
                    NameStep::Rename(from, name, open)
                } else {
                    self.close();
                    NameStep::Closed
                }
            },
        }
    }

    /// The outcome of creating a folder: on success the box closes and the
    /// listing reloads focused on the new folder; on failure the error is
    /// shown and the box stays open.
    pub fn created(&mut self, outcome: Result<LibPath, FsError>) -> (r: Option<LibPath>)
        ensures
            outcome matches Ok(p) ==> (r matches Some(q) && q@ == p@) && final(self).kind is None,
            outcome matches Err(e) ==> r is None && final(self).kind == old(self).kind
                && final(self).query@ == old(self).query@ && (final(self).error matches Some(m)
                && m@ == message(e)),
    {
        match outcome {
            Ok(p) => {
                self.close();
                Some(p)
            },
            Err(e) => {
                self.error = Some(String::from_str(e.as_str()));
                None
            },
        }
    }
}

} // verus!
